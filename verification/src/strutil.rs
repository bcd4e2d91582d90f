//! Small verified string toolkit: character pushes, equality, searching,
//! replacement, lexicographic order and decimal formatting over `Seq<char>`
//! views.

use vstd::prelude::*;

verus! {

/// Relies on std's `String::push`: appends exactly the given character at the
/// end of the string.  `vstd` specifies many `String` operations but not this
/// one.
pub assume_specification[ String::push ](s: &mut String, ch: char)
    ensures
        final(s)@ == old(s)@.push(ch),
;

/// ASCII lowercase folding of one character; anything but `A`-`Z`,
/// including every non-ASCII character, is kept as it is.  This is the
/// library's deliberate folding for asset paths, which are ASCII.
pub open spec fn lower_char(c: char) -> char {
    if 65 <= c as u32 && c as u32 <= 90 {
        ((c as u32 + 32) as u8) as char
    } else {
        c
    }
}

pub open spec fn lower_all(s: Seq<char>) -> Seq<char> {
    Seq::new(s.len(), |i: int| lower_char(s[i]))
}

/// One character, folded when `ci` asks for case-insensitive treatment.
pub open spec fn norm_char(c: char, ci: bool) -> char {
    if ci {
        lower_char(c)
    } else {
        c
    }
}

/// `pat` occurs at position `i` of `text`; with `ci`, the text side is
/// ASCII-folded first (the pattern is expected pre-folded then).
pub open spec fn occurs_at(text: Seq<char>, pat: Seq<char>, i: int, ci: bool) -> bool {
    &&& 0 <= i
    &&& i + pat.len() <= text.len()
    &&& forall|j: int| 0 <= j < pat.len() ==> norm_char(text[i + j], ci) == #[trigger] pat[j]
}

pub open spec fn contains_sub(text: Seq<char>, pat: Seq<char>, ci: bool) -> bool {
    exists|i: int| occurs_at(text, pat, i, ci)
}

/// Left-to-right, non-overlapping replacement of every occurrence of `pat`
/// by `rep`; text outside the occurrences is kept verbatim (with its case).
pub open spec fn replace_all_spec(
    text: Seq<char>,
    pat: Seq<char>,
    rep: Seq<char>,
    ci: bool,
) -> Seq<char>
    recommends
        pat.len() > 0,
    decreases text.len(),
{
    if text.len() == 0 {
        Seq::empty()
    } else if pat.len() > 0 && occurs_at(text, pat, 0, ci) {
        rep + replace_all_spec(text.skip(pat.len() as int), pat, rep, ci)
    } else {
        seq![text[0]] + replace_all_spec(text.skip(1), pat, rep, ci)
    }
}

pub fn lower_char_exec(c: char) -> (r: char)
    ensures
        r == lower_char(c),
{
    let u = c as u32;
    if 65 <= u && u <= 90 {
        ((u + 32) as u8) as char
    } else {
        c
    }
}

/// Character-wise string equality.
pub fn str_eq(a: &str, b: &str) -> (r: bool)
    ensures
        r == (a@ == b@),
{
    let n = a.unicode_len();
    if n != b.unicode_len() {
        return false;
    }
    let mut i: usize = 0;
    while i < n
        invariant
            n == a@.len(),
            n == b@.len(),
            0 <= i <= n,
            forall|j: int| 0 <= j < i ==> a@[j] == b@[j],
        decreases n - i,
    {
        if a.get_char(i) != b.get_char(i) {
            return false;
        }
        i = i + 1;
    }
    proof {
        assert(a@ =~= b@);
    }
    true
}

/// Whether `pat` occurs at position `i` of `text`.
fn occurs_at_exec(text: &str, pat: &str, i: usize, ci: bool) -> (r: bool)
    requires
        i + pat@.len() <= text@.len(),
    ensures
        r == occurs_at(text@, pat@, i as int, ci),
{
    let n = text.unicode_len();
    let m = pat.unicode_len();
    let mut j: usize = 0;
    while j < m
        invariant
            n == text@.len(),
            m == pat@.len(),
            i + m <= n,
            0 <= j <= m,
            forall|q: int| 0 <= q < j ==> norm_char(text@[i + q], ci) == #[trigger] pat@[q],
        decreases m - j,
    {
        let tc = text.get_char(i + j);
        let tcn = if ci {
            lower_char_exec(tc)
        } else {
            tc
        };
        if tcn != pat.get_char(j) {
            return false;
        }
        j = j + 1;
    }
    true
}

/// Whether `pat` occurs anywhere in `text`.
pub fn contains_sub_exec(text: &str, pat: &str, ci: bool) -> (r: bool)
    ensures
        r == contains_sub(text@, pat@, ci),
{
    let n = text.unicode_len();
    let m = pat.unicode_len();
    if m > n {
        proof {
            assert(forall|i: int| !occurs_at(text@, pat@, i, ci));
        }
        return false;
    }
    let mut i: usize = 0;
    while i <= n - m
        invariant
            n == text@.len(),
            m == pat@.len(),
            m <= n,
            0 <= i <= n - m + 1,
            forall|q: int| 0 <= q < i ==> !occurs_at(text@, pat@, q, ci),
        decreases n - i,
    {
        if occurs_at_exec(text, pat, i, ci) {
            return true;
        }
        i = i + 1;
    }
    proof {
        assert(forall|q: int| q + pat@.len() > text@.len() ==> !occurs_at(text@, pat@, q, ci));
    }
    false
}

/// Replaces every occurrence of `pat` in `text` by `rep`, left to right,
/// without overlapping; with `ci` the match is ASCII case-insensitive
/// against the pre-folded `pat`, while unreplaced text keeps its case.
pub fn replace_all(text: &str, pat: &str, rep: &str, ci: bool) -> (r: String)
    requires
        pat@.len() > 0,
    ensures
        r@ == replace_all_spec(text@, pat@, rep@, ci),
{
    let n = text.unicode_len();
    let m = pat.unicode_len();
    let rl = rep.unicode_len();
    let mut out = String::new();
    proof {
        assert(text@.skip(0) =~= text@);
    }
    let mut i: usize = 0;
    while i < n
        invariant
            n == text@.len(),
            m == pat@.len(),
            rl == rep@.len(),
            m > 0,
            0 <= i <= n,
            replace_all_spec(text@, pat@, rep@, ci) == out@ + replace_all_spec(
                text@.skip(i as int),
                pat@,
                rep@,
                ci,
            ),
        decreases n - i,
    {
        let matched = if m <= n - i {
            occurs_at_exec(text, pat, i, ci)
        } else {
            false
        };
        proof {
            let rest = text@.skip(i as int);
            assert forall|j: int| 0 <= j < rest.len() implies rest[j] == text@[i + j] by {}
            assert(occurs_at(rest, pat@, 0, ci) == occurs_at(text@, pat@, i as int, ci));
        }
        if matched {
            let mut j: usize = 0;
            let ghost out_base = out@;
            while j < rl
                invariant
                    rl == rep@.len(),
                    0 <= j <= rl,
                    out@ == out_base + rep@.subrange(0, j as int),
                decreases rl - j,
            {
                out.push(rep.get_char(j));
                proof {
                    assert(out@ =~= out_base + rep@.subrange(0, j as int + 1));
                }
                j = j + 1;
            }
            proof {
                assert(out@ =~= out_base + rep@);
                let rest = text@.skip(i as int);
                assert(replace_all_spec(rest, pat@, rep@, ci) == rep@ + replace_all_spec(
                    rest.skip(m as int),
                    pat@,
                    rep@,
                    ci,
                ));
                assert(rest.skip(m as int) =~= text@.skip(i as int + m as int));
                let tail = replace_all_spec(text@.skip(i as int + m as int), pat@, rep@, ci);
                assert((out_base + rep@) + tail =~= out_base + (rep@ + tail));
            }
            i = i + m;
        } else {
            let ghost out_base = out@;
            out.push(text.get_char(i));
            proof {
                let rest = text@.skip(i as int);
                assert(rest.len() > 0);
                assert(rest[0] == text@[i as int]);
                assert(replace_all_spec(rest, pat@, rep@, ci) == seq![rest[0]]
                    + replace_all_spec(rest.skip(1), pat@, rep@, ci));
                assert(rest.skip(1) =~= text@.skip(i as int + 1));
                let tail = replace_all_spec(text@.skip(i as int + 1), pat@, rep@, ci);
                assert(out@ =~= out_base + seq![text@[i as int]]);
                assert((out_base + seq![text@[i as int]]) + tail =~= out_base + (seq![
                    text@[i as int],
                ] + tail));
            }
            i = i + 1;
        }
    }
    proof {
        assert(text@.skip(n as int) =~= Seq::<char>::empty());
        assert(out@ =~= out@ + replace_all_spec(text@.skip(n as int), pat@, rep@, ci));
    }
    out
}

/// Lexicographic order on character sequences by code point.
pub open spec fn lex_le(a: Seq<char>, b: Seq<char>) -> bool
    decreases a.len(),
{
    if a.len() == 0 {
        true
    } else if b.len() == 0 {
        false
    } else if (a[0] as u32) < (b[0] as u32) {
        true
    } else if (a[0] as u32) > (b[0] as u32) {
        false
    } else {
        lex_le(a.skip(1), b.skip(1))
    }
}

/// Lexicographic comparison of two strings by character code point.
pub fn str_le(a: &str, b: &str) -> (r: bool)
    ensures
        r == lex_le(a@, b@),
{
    let na = a.unicode_len();
    let nb = b.unicode_len();
    proof {
        assert(a@.skip(0) =~= a@);
        assert(b@.skip(0) =~= b@);
    }
    let mut i: usize = 0;
    loop
        invariant
            na == a@.len(),
            nb == b@.len(),
            0 <= i <= na,
            0 <= i <= nb,
            forall|j: int| 0 <= j < i ==> a@[j] == b@[j],
            lex_le(a@, b@) == lex_le(a@.skip(i as int), b@.skip(i as int)),
        decreases na - i,
    {
        if i >= na {
            proof {
                assert(a@.skip(i as int).len() == 0);
            }
            return true;
        }
        if i >= nb {
            proof {
                assert(b@.skip(i as int).len() == 0);
                assert(a@.skip(i as int).len() > 0);
            }
            return false;
        }
        let ca = a.get_char(i);
        let cb = b.get_char(i);
        proof {
            let ra = a@.skip(i as int);
            let rb = b@.skip(i as int);
            assert(ra[0] == a@[i as int]);
            assert(rb[0] == b@[i as int]);
            assert(ra.skip(1) =~= a@.skip(i as int + 1));
            assert(rb.skip(1) =~= b@.skip(i as int + 1));
        }
        if (ca as u32) < (cb as u32) {
            return true;
        }
        if (ca as u32) > (cb as u32) {
            return false;
        }
        i = i + 1;
    }
}

/// The order is total.
pub(crate) proof fn lemma_lex_total(a: Seq<char>, b: Seq<char>)
    ensures
        lex_le(a, b) || lex_le(b, a),
    decreases a.len(),
{
    if a.len() > 0 && b.len() > 0 && (a[0] as u32) == (b[0] as u32) {
        lemma_lex_total(a.skip(1), b.skip(1));
    }
}

/// The order is transitive.
pub(crate) proof fn lemma_lex_trans(a: Seq<char>, b: Seq<char>, c: Seq<char>)
    requires
        lex_le(a, b),
        lex_le(b, c),
    ensures
        lex_le(a, c),
    decreases a.len(),
{
    if a.len() > 0 && b.len() > 0 && c.len() > 0 {
        if (a[0] as u32) == (b[0] as u32) && (b[0] as u32) == (c[0] as u32) {
            lemma_lex_trans(a.skip(1), b.skip(1), c.skip(1));
        }
    }
}

/// The decimal digit character for one value below ten.
pub open spec fn dec_digit_char(n: u64) -> char
    recommends
        n < 10,
{
    ((n + 48) as u8) as char
}

/// The decimal form of a number, most significant digit first, no leading
/// zero except for zero itself.
pub open spec fn dec_str_of(n: u64) -> Seq<char>
    decreases n,
{
    if n < 10 {
        seq![dec_digit_char(n)]
    } else {
        dec_str_of(n / 10).push(dec_digit_char(n % 10))
    }
}

/// Formats a number in decimal.
pub fn u64_to_dec(n: u64) -> (s: String)
    ensures
        s@ == dec_str_of(n),
    decreases n,
{
    if n < 10 {
        let mut s = String::new();
        s.push((n as u8 + 48) as char);
        proof {
            assert(s@ =~= seq![dec_digit_char(n)]);
        }
        s
    } else {
        let mut s = u64_to_dec(n / 10);
        s.push(((n % 10) as u8 + 48) as char);
        s
    }
}

/// The decimal form padded with zeroes on the left to at least two digits.
pub open spec fn dec2_str_of(n: u64) -> Seq<char> {
    if n < 10 {
        seq![dec_digit_char(0)] + dec_str_of(n)
    } else {
        dec_str_of(n)
    }
}

/// Formats a number in decimal, zero-padded to at least two digits.
pub fn u64_to_dec2(n: u64) -> (s: String)
    ensures
        s@ == dec2_str_of(n),
{
    if n < 10 {
        let mut s = String::new();
        s.push('0');
        s.push((n as u8 + 48) as char);
        proof {
            assert(s@ =~= seq![dec_digit_char(0)] + dec_str_of(n));
        }
        s
    } else {
        u64_to_dec(n)
    }
}

/// Appends every character of `tail` to `s`.
pub fn push_str(s: &mut String, tail: &str)
    ensures
        final(s)@ == old(s)@ + tail@,
{
    let n = tail.unicode_len();
    let ghost base = s@;
    let mut i: usize = 0;
    while i < n
        invariant
            n == tail@.len(),
            0 <= i <= n,
            s@ == base + tail@.subrange(0, i as int),
        decreases n - i,
    {
        s.push(tail.get_char(i));
        proof {
            assert(s@ =~= base + tail@.subrange(0, i as int + 1));
        }
        i = i + 1;
    }
    proof {
        assert(s@ =~= base + tail@);
    }
}

/// ASCII-folds a whole string to lowercase; non-ASCII characters are kept.
pub fn to_lower(s: &str) -> (r: String)
    ensures
        r@ == lower_all(s@),
{
    let n = s.unicode_len();
    let mut out = String::new();
    let mut i: usize = 0;
    while i < n
        invariant
            n == s@.len(),
            0 <= i <= n,
            out@.len() == i,
            forall|j: int| 0 <= j < i ==> out@[j] == lower_all(s@)[j],
        decreases n - i,
    {
        out.push(lower_char_exec(s.get_char(i)));
        i = i + 1;
    }
    proof {
        assert(out@ =~= lower_all(s@));
    }
    out
}

/// Copies a character sequence with every backslash turned into a slash.
pub open spec fn slashes_of(s: Seq<char>) -> Seq<char> {
    Seq::new(s.len(), |i: int| if s[i] == '\\' { '/' } else { s[i] })
}

/// Normalizes path separators: every backslash becomes a slash.
pub fn normalize_separators(s: &str) -> (r: String)
    ensures
        r@ == slashes_of(s@),
{
    let n = s.unicode_len();
    let mut out = String::new();
    let mut i: usize = 0;
    while i < n
        invariant
            n == s@.len(),
            0 <= i <= n,
            out@.len() == i,
            forall|j: int| 0 <= j < i ==> out@[j] == slashes_of(s@)[j],
        decreases n - i,
    {
        let c = s.get_char(i);
        if c == '\\' {
            out.push('/');
        } else {
            out.push(c);
        }
        i = i + 1;
    }
    proof {
        assert(out@ =~= slashes_of(s@));
    }
    out
}

} // verus!
