//! The extraction engine's output-path policy: given a chunk's resolved
//! path, its sniffed kind and the one directory-collision check, decide
//! where the chunk's bytes belong on disk, and whether a kind filter skips
//! it.  All file-system work stays with the caller.

use vstd::prelude::*;
use vstd::string::StringExecFns;

use crate::hex::{all_hex_digits, hex_str_of, is_hex_digit_char};
use crate::kind::{extension_spec, sniff_kind, sniffed_kind, FileKind};

verus! {

/// The greatest index of `c` in `s`, or `-1` when `c` does not occur.
pub open spec fn last_idx(s: Seq<char>, c: char) -> int
    decreases s.len(),
{
    if s.len() == 0 {
        -1
    } else if s.last() == c {
        s.len() - 1
    } else {
        last_idx(s.drop_last(), c)
    }
}

pub(crate) proof fn lemma_last_idx(s: Seq<char>, c: char)
    ensures
        -1 <= last_idx(s, c) < s.len(),
        last_idx(s, c) == -1 ==> forall|j: int| 0 <= j < s.len() ==> s[j] != c,
        last_idx(s, c) >= 0 ==> s[last_idx(s, c)] == c,
        forall|j: int| last_idx(s, c) < j < s.len() ==> s[j] != c,
    decreases s.len(),
{
    if s.len() > 0 {
        lemma_last_idx(s.drop_last(), c);
        assert(forall|j: int| 0 <= j < s.len() - 1 ==> s.drop_last()[j] == s[j]);
    }
}

/// The part of the path after its last slash, taken literally: a path
/// ending in a separator has an empty file name.
pub open spec fn file_name_of(s: Seq<char>) -> Seq<char> {
    s.skip(last_idx(s, '/') + 1)
}

/// The path up to and including its last slash.
pub open spec fn dir_prefix_of(s: Seq<char>) -> Seq<char> {
    s.take(last_idx(s, '/') + 1)
}

/// The file name carries an extension: a dot after its first character.
pub open spec fn has_extension(s: Seq<char>) -> bool {
    last_idx(file_name_of(s), '.') > 0
}

/// The file name's stem: what stands before its extension dot.
pub open spec fn stem_of(s: Seq<char>) -> Seq<char> {
    let name = file_name_of(s);
    if last_idx(name, '.') > 0 {
        name.take(last_idx(name, '.'))
    } else {
        name
    }
}

/// An unresolved path: its literal final segment is exactly the 16-digit
/// hexadecimal fallback a hashtable miss produces.  Deliberately literal: a
/// hashtable miss yields the bare hex name, never one with a trailing
/// separator, so no separator normalization is applied.
pub open spec fn is_hex_name(s: Seq<char>) -> bool {
    file_name_of(s).len() == 16 && all_hex_digits(file_name_of(s))
}

/// The disambiguated file name: the stem, an infix marker, and the sniffed
/// extension when one is known.
pub open spec fn ltk_name_spec(stem: Seq<char>, ext: Option<Seq<char>>) -> Seq<char> {
    match ext {
        Some(e) => stem + ".ltk."@ + e,
        None => stem + ".ltk"@,
    }
}

/// The output-path policy.  A hash-named chunk keeps its hexadecimal name,
/// gaining the sniffed extension when one is known.  A resolved path that
/// lacks an extension, or that collides with an existing directory, has its
/// final segment replaced by the disambiguated name.  Every other path is
/// used verbatim.
pub open spec fn resolve_final_spec(
    path: Seq<char>,
    ext: Option<Seq<char>>,
    collides_with_dir: bool,
) -> Seq<char> {
    if is_hex_name(path) {
        match ext {
            Some(e) => path + "."@ + e,
            None => path,
        }
    } else if !has_extension(path) || collides_with_dir {
        dir_prefix_of(path) + ltk_name_spec(stem_of(path), ext)
    } else {
        path
    }
}

/// Whether the kind filter admits a chunk of the given kind: an absent
/// filter admits everything, a present one exactly its listed kinds.
pub open spec fn kind_admitted(filter_type: Option<&Vec<FileKind>>, k: FileKind) -> bool {
    match filter_type {
        None => true,
        Some(ks) => ks@.contains(k),
    }
}

/// The greatest index of `c`, if `c` occurs in `s`.
pub(crate) fn find_last(s: &str, c: char) -> (r: Option<usize>)
    ensures
        match r {
            Some(i) => i < s@.len() && i == last_idx(s@, c),
            None => last_idx(s@, c) == -1,
        },
{
    proof {
        lemma_last_idx(s@, c);
    }
    let n = s.unicode_len();
    let mut found: Option<usize> = None;
    let mut i: usize = 0;
    while i < n
        invariant
            n == s@.len(),
            0 <= i <= n,
            match found {
                Some(f) => f < i && s@[f as int] == c && forall|j: int| f < j < i ==> s@[j] != c,
                None => forall|j: int| 0 <= j < i ==> s@[j] != c,
            },
        decreases n - i,
    {
        if s.get_char(i) == c {
            found = Some(i);
        }
        i = i + 1;
    }
    found
}

/// Whether the resolved path is itself an unresolved 16-digit hexadecimal
/// hash name.
pub fn is_hex_chunk_path(path: &str) -> (r: bool)
    ensures
        r == is_hex_name(path@),
{
    let n = path.unicode_len();
    proof {
        lemma_last_idx(path@, '/');
    }
    let start: usize = match find_last(path, '/') {
        Some(i) => i + 1,
        None => 0,
    };
    let name = path.substring_char(start, n);
    proof {
        assert(name@ =~= file_name_of(path@));
    }
    if name.unicode_len() != 16 {
        return false;
    }
    let mut i: usize = 0;
    while i < 16
        invariant
            name@ == file_name_of(path@),
            name@.len() == 16,
            0 <= i <= 16,
            forall|j: int| 0 <= j < i ==> is_hex_digit_char(#[trigger] name@[j]),
        decreases 16 - i,
    {
        let u = name.get_char(i) as u32;
        if !((48 <= u && u <= 57) || (97 <= u && u <= 102) || (65 <= u && u <= 70)) {
            assert(!is_hex_digit_char(name@[i as int]));
            return false;
        }
        i = i + 1;
    }
    true
}

/// Builds the disambiguated file name from the original stem and the
/// sniffed kind's extension.
pub fn build_ltk_name(file_stem: &str, kind: FileKind) -> (r: String)
    ensures
        r@ == ltk_name_spec(file_stem@, extension_spec(kind)),
{
    let mut s = String::from_str(file_stem);
    match kind.extension() {
        Some(e) => {
            s.append(".ltk.");
            s.append(e);
            proof {
                assert(s@ =~= ltk_name_spec(file_stem@, extension_spec(kind)));
            }
        },
        None => {
            s.append(".ltk");
            proof {
                assert(s@ =~= ltk_name_spec(file_stem@, extension_spec(kind)));
            }
        },
    }
    s
}

/// Decides the on-disk path of one chunk from its resolved path, its
/// sniffed kind and the single directory-collision check.
pub fn resolve_final_chunk_path(chunk_path: &str, kind: FileKind, collides_with_dir: bool) -> (r:
    String)
    ensures
        r@ == resolve_final_spec(chunk_path@, extension_spec(kind), collides_with_dir),
{
    let n = chunk_path.unicode_len();
    if is_hex_chunk_path(chunk_path) {
        let mut s = String::from_str(chunk_path);
        match kind.extension() {
            Some(e) => {
                s.append(".");
                s.append(e);
                proof {
                    assert(s@ =~= resolve_final_spec(
                        chunk_path@,
                        extension_spec(kind),
                        collides_with_dir,
                    ));
                }
            },
            None => {},
        }
        return s;
    }
    proof {
        lemma_last_idx(chunk_path@, '/');
    }
    let sep: usize = match find_last(chunk_path, '/') {
        Some(i) => i + 1,
        None => 0,
    };
    let name = chunk_path.substring_char(sep, n);
    proof {
        assert(name@ =~= file_name_of(chunk_path@));
        lemma_last_idx(name@, '.');
    }
    let dot: Option<usize> = find_last(name, '.');
    let has_ext: bool = match dot {
        Some(d) => d > 0,
        None => false,
    };
    if !has_ext || collides_with_dir {
        let stem = match dot {
            Some(d) => {
                if d > 0 {
                    name.substring_char(0, d)
                } else {
                    name.substring_char(0, name.unicode_len())
                }
            },
            None => name.substring_char(0, name.unicode_len()),
        };
        proof {
            assert(stem@ =~= stem_of(chunk_path@));
        }
        let new_name = build_ltk_name(stem, kind);
        let mut s = chunk_path.substring_char(0, sep).to_owned();
        s.append(new_name.as_str());
        proof {
            assert(chunk_path@.take(sep as int) =~= dir_prefix_of(chunk_path@));
            assert(s@ =~= resolve_final_spec(chunk_path@, extension_spec(kind), collides_with_dir));
        }
        s
    } else {
        chunk_path.to_owned()
    }
}

/// Whether the kind filter admits this kind.
pub fn kind_filter_admits(filter_type: Option<&Vec<FileKind>>, k: FileKind) -> (r: bool)
    ensures
        r == kind_admitted(filter_type, k),
{
    match filter_type {
        None => true,
        Some(ks) => {
            let mut i: usize = 0;
            while i < ks.len()
                invariant
                    filter_type == Some(ks),
                    0 <= i <= ks@.len(),
                    forall|j: int| 0 <= j < i ==> ks@[j] != k,
                decreases ks@.len() - i,
            {
                if ks[i] == k {
                    proof {
                        assert(ks@[i as int] == k);
                        assert(ks@.contains(k));
                    }
                    return true;
                }
                i = i + 1;
            }
            false
        },
    }
}

/// Plans the write of one chunk: sniffs the decompressed bytes (three-byte
/// data, which the classifier cannot scan, counts as unknown), applies the
/// kind filter, and, when the chunk is admitted, computes its final output
/// path under the destination root.  Yields nothing exactly when the kind
/// filter excludes the sniffed kind.
pub fn chunk_write_plan(
    chunk_path: &str,
    chunk_data: &[u8],
    filter_type: Option<&Vec<FileKind>>,
    collides_with_dir: bool,
) -> (r: Option<String>)
    ensures
        r is Some <==> kind_admitted(filter_type, sniffed_kind(chunk_data@)),
        match r {
            Some(p) => p@ == resolve_final_spec(
                chunk_path@,
                extension_spec(sniffed_kind(chunk_data@)),
                collides_with_dir,
            ),
            None => true,
        },
{
    let kind = sniff_kind(chunk_data);
    if !kind_filter_admits(filter_type, kind) {
        return None;
    }
    Some(resolve_final_chunk_path(chunk_path, kind, collides_with_dir))
}

/// The long-filename fallback name of a chunk: the hash's canonical
/// hexadecimal name run through the output-path policy, which keeps the hex
/// base and appends the sniffed kind's extension when one is known.
pub fn fallback_hex_name(path_hash: u64, kind: FileKind) -> (r: String)
    ensures
        r@ == resolve_final_spec(hex_str_of(path_hash), extension_spec(kind), false),
{
    let name = crate::hex::format_chunk_path_hash(path_hash);
    resolve_final_chunk_path(name.as_str(), kind, false)
}

/// Truncated middle form of a long path for progress display: when the text
/// exceeds the limit, a fixed-size prefix and suffix joined by an ellipsis
/// marker, so both the directory context and the file name stay readable.
pub open spec fn truncate_middle_spec(s: Seq<char>, max_len: int) -> Seq<char> {
    if s.len() <= max_len {
        s
    } else if max_len <= 3 {
        seq!['.', '.', '.']
    } else {
        let keep = max_len - 3;
        let left = keep / 2;
        let right = keep - left;
        s.take(left) + seq!['.', '.', '.'] + s.skip(s.len() - right)
    }
}

/// Truncates a string in the middle to at most `max_len` characters.
pub fn truncate_middle(input: &str, max_len: usize) -> (r: String)
    ensures
        r@ == truncate_middle_spec(input@, max_len as int),
{
    let n = input.unicode_len();
    if n <= max_len {
        return input.to_owned();
    }
    if max_len <= 3 {
        let r = String::from_str("...");
        proof {
            reveal_strlit("...");
            assert(r@ =~= seq!['.', '.', '.']);
        }
        return r;
    }
    let keep = max_len - 3;
    let left = keep / 2;
    let right = keep - left;
    let mut out = input.substring_char(0, left).to_owned();
    out.append("...");
    out.append(input.substring_char(n - right, n));
    proof {
        reveal_strlit("...");
        assert("..."@ =~= seq!['.', '.', '.']);
        assert(out@ =~= truncate_middle_spec(input@, max_len as int));
    }
    out
}

} // verus!
