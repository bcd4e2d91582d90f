//! Canonical 16-digit lowercase hexadecimal names for 64-bit path hashes, and
//! parsing of hexadecimal hash fields from hashtable sources.

use vstd::prelude::*;

verus! {

/// The lowercase hexadecimal character for one digit value below 16.
pub open spec fn hex_digit_char(n: u64) -> char
    recommends
        n < 16,
{
    if n < 10 {
        ((n + 48) as u8) as char
    } else {
        ((n + 87) as u8) as char
    }
}

/// The `i`-th hexadecimal digit (most significant first) of a 64-bit hash.
pub open spec fn nibble_of(h: u64, i: int) -> u64
    recommends
        0 <= i < 16,
{
    (h >> (((15 - i) * 4) as u64)) & 0xf
}

/// The canonical, zero-padded, 16-digit lowercase hexadecimal form of a hash.
pub open spec fn hex_str_of(h: u64) -> Seq<char> {
    Seq::new(16, |i: int| hex_digit_char(nibble_of(h, i)))
}

pub open spec fn is_hex_digit_char(c: char) -> bool {
    (48 <= c as u32 && c as u32 <= 57) || (97 <= c as u32 && c as u32 <= 102) || (65 <= c as u32
        && c as u32 <= 70)
}

/// A lowercase hexadecimal digit: `0-9` or `a-f`.
pub open spec fn is_lower_hex_digit_char(c: char) -> bool {
    (48 <= c as u32 && c as u32 <= 57) || (97 <= c as u32 && c as u32 <= 102)
}

/// The numeric value of one hexadecimal digit character.
pub open spec fn hex_digit_val(c: char) -> u64
    recommends
        is_hex_digit_char(c),
{
    if 48 <= c as u32 && c as u32 <= 57 {
        ((c as u32) - 48) as u64
    } else if 97 <= c as u32 && c as u32 <= 102 {
        ((c as u32) - 87) as u64
    } else {
        ((c as u32) - 55) as u64
    }
}

pub open spec fn all_hex_digits(s: Seq<char>) -> bool {
    forall|i: int| 0 <= i < s.len() ==> is_hex_digit_char(#[trigger] s[i])
}

/// The number a sequence of hexadecimal digits denotes, most significant
/// digit first.
pub open spec fn hex_value_of(s: Seq<char>) -> int
    decreases s.len(),
{
    if s.len() == 0 {
        0
    } else {
        hex_value_of(s.drop_last()) * 16 + hex_digit_val(s.last())
    }
}

pub open spec fn pow16(n: nat) -> int
    decreases n,
{
    if n == 0 {
        1
    } else {
        16 * pow16((n - 1) as nat)
    }
}

/// What parsing a hash field as base-16 yields: the digits' value when the
/// field holds one to sixteen hexadecimal digits, nothing otherwise.
pub open spec fn parse_hex_u64(s: Seq<char>) -> Option<u64> {
    if 1 <= s.len() <= 16 && all_hex_digits(s) {
        Some(hex_value_of(s) as u64)
    } else {
        None
    }
}

proof fn lemma_hex_value_bound(s: Seq<char>)
    requires
        all_hex_digits(s),
    ensures
        0 <= hex_value_of(s) < pow16(s.len()),
    decreases s.len(),
{
    if s.len() > 0 {
        assert(all_hex_digits(s.drop_last()));
        lemma_hex_value_bound(s.drop_last());
        assert(is_hex_digit_char(s.last()));
        assert(0 <= hex_digit_val(s.last()) < 16);
    }
}

proof fn lemma_pow16_increases(m: nat, n: nat)
    requires
        m <= n,
    ensures
        pow16(m) <= pow16(n),
    decreases n,
{
    if m < n {
        lemma_pow16_increases(m, (n - 1) as nat);
        lemma_pow16_positive((n - 1) as nat);
    }
}

proof fn lemma_pow16_positive(n: nat)
    ensures
        pow16(n) >= 1,
    decreases n,
{
    if n > 0 {
        lemma_pow16_positive((n - 1) as nat);
    }
}

/// Value of one digit character round-trips with its character form.
proof fn lemma_hex_digit_round_trip(n: u64)
    requires
        n < 16,
    ensures
        is_lower_hex_digit_char(hex_digit_char(n)),
        hex_digit_val(hex_digit_char(n)) == n,
{
}

/// Formats a path hash as its canonical 16-digit lowercase hexadecimal name.
///
/// This is the display fallback for hashes that no hashtable source resolves.
pub fn format_chunk_path_hash(path_hash: u64) -> (s: String)
    ensures
        s@ == hex_str_of(path_hash),
{
    let mut s = String::new();
    let mut i: usize = 0;
    while i < 16
        invariant
            i <= 16,
            s@.len() == i,
            forall|j: int| 0 <= j < i ==> s@[j] == hex_digit_char(nibble_of(path_hash, j)),
        decreases 16 - i,
    {
        let shift: u64 = (15 - i as u64) * 4;
        let nib: u64 = (path_hash >> shift) & 0xf;
        assert((path_hash >> shift) & 0xf < 16) by (bit_vector);
        assert(nib == nibble_of(path_hash, i as int));
        let c: char = if nib < 10 {
            (nib as u8 + 48) as char
        } else {
            (nib as u8 + 87) as char
        };
        assert(c == hex_digit_char(nibble_of(path_hash, i as int)));
        s.push(c);
        i = i + 1;
    }
    assert(s@ =~= hex_str_of(path_hash));
    s
}

/// Parses a hexadecimal hash field.  Yields the hash value for one to sixteen
/// hexadecimal digits (either case), nothing for anything else.
pub fn parse_hex_str(s: &str) -> (r: Option<u64>)
    ensures
        r == parse_hex_u64(s@),
{
    let n = s.unicode_len();
    if n == 0 || n > 16 {
        return None;
    }
    let mut v: u64 = 0;
    let mut i: usize = 0;
    while i < n
        invariant
            n == s@.len(),
            1 <= n <= 16,
            0 <= i <= n,
            all_hex_digits(s@.subrange(0, i as int)),
            v == hex_value_of(s@.subrange(0, i as int)),
        decreases n - i,
    {
        let c = s.get_char(i);
        let u = c as u32;
        let d: u32 = if 48 <= u && u <= 57 {
            u - 48
        } else if 97 <= u && u <= 102 {
            u - 87
        } else if 65 <= u && u <= 70 {
            u - 55
        } else {
            assert(!is_hex_digit_char(s@[i as int]));
            return None;
        };
        assert(is_hex_digit_char(s@[i as int]));
        assert(d == hex_digit_val(s@[i as int]));
        proof {
            lemma_hex_value_bound(s@.subrange(0, i as int));
            lemma_pow16_increases(i as nat, 15nat);
            assert(pow16(15nat) == 0x1000000000000000) by {
                reveal_with_fuel(pow16, 17);
            }
        }
        let next = v * 16 + d as u64;
        proof {
            let pre = s@.subrange(0, i as int);
            let cur = s@.subrange(0, i as int + 1);
            assert(cur.drop_last() =~= pre);
            assert(cur.last() == s@[i as int]);
        }
        v = next;
        i = i + 1;
    }
    proof {
        assert(s@.subrange(0, n as int) =~= s@);
    }
    Some(v)
}

/// The canonical hexadecimal name of any hash is sixteen lowercase
/// hexadecimal digits and parses back, as base-16, to the hash itself.
pub proof fn lemma_hex_round_trip(h: u64)
    ensures
        hex_str_of(h).len() == 16,
        forall|i: int|
            0 <= i < 16 ==> is_lower_hex_digit_char(#[trigger] hex_str_of(h)[i]),
        parse_hex_u64(hex_str_of(h)) == Some(h),
{
    let s = hex_str_of(h);
    assert forall|i: int| 0 <= i < 16 implies is_lower_hex_digit_char(#[trigger] s[i]) by {
        let sh = (((15 - i) * 4) as u64);
        assert((h >> sh) & 0xf < 16) by (bit_vector);
        lemma_hex_digit_round_trip(nibble_of(h, i));
    }
    assert(all_hex_digits(s));
    lemma_hex_prefix(h, 16);
    assert(s.subrange(0, 16) =~= s);
    assert(h >> 0u64 == h) by (bit_vector);
    assert(hex_value_of(s) == h);
}

/// The value of the first `k` digits of the canonical hexadecimal name is the
/// hash shifted right past its remaining digits.
proof fn lemma_hex_prefix(h: u64, k: int)
    requires
        0 <= k <= 16,
    ensures
        hex_value_of(hex_str_of(h).subrange(0, k)) == if k == 0 {
            0
        } else {
            (h >> (((16 - k) * 4) as u64)) as int
        },
    decreases k,
{
    let s = hex_str_of(h);
    if k == 0 {
        assert(s.subrange(0, 0) =~= Seq::<char>::empty());
    } else {
        lemma_hex_prefix(h, k - 1);
        let cur = s.subrange(0, k);
        assert(cur.drop_last() =~= s.subrange(0, k - 1));
        assert(cur.last() == s[k - 1]);
        let sh = (((16 - k) * 4) as u64);
        let nib = nibble_of(h, k - 1);
        assert((h >> sh) & 0xf < 16) by (bit_vector);
        lemma_hex_digit_round_trip(nib);
        assert(hex_value_of(cur) == hex_value_of(s.subrange(0, k - 1)) * 16 + nib);
        if k == 1 {
            assert(sh == 60);
            assert(((h >> 60u64) & 0xf) == (h >> 60u64)) by (bit_vector);
        } else {
            let sh4 = ((((16 - k) * 4) + 4) as u64);
            assert(sh4 == ((16 - (k - 1)) * 4) as u64);
            assert(sh <= 56 && sh4 == sh + 4 ==> ((h >> sh4) * 16 + ((h >> sh) & 0xf) == (h
                >> sh) && (h >> sh4) * 16 <= 0xffffffffffffffff)) by (bit_vector);
        }
    }
}

} // verus!
