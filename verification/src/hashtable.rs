//! The hashtable: a mapping from 64-bit path hashes to resolved path
//! strings, built incrementally from line-oriented sources.  A hash that no
//! source resolves falls back to its canonical 16-digit lowercase
//! hexadecimal name.

use std::collections::HashMap;
use vstd::prelude::*;

use crate::hex::{format_chunk_path_hash, hex_str_of, parse_hex_str, parse_hex_u64};

verus! {

broadcast use vstd::std_specs::hash::group_hash_axioms;

/// Arguments of a hashtable download run.
#[derive(Debug, Clone)]
pub struct DownloadHashesArgs {
    pub hashtable_dir: Option<String>,
}

/// A malformed hash field was met while loading a hashtable source; the
/// whole source is rejected, not the single line.
#[derive(Clone, Copy, Debug, PartialEq, Eq, Structural)]
pub struct HashParseError {
    /// Index of the first offending line within the source.
    pub line_index: usize,
}

/// `i` is the index of the first space of `s`.
pub open spec fn is_first_space(s: Seq<char>, i: int) -> bool {
    &&& 0 <= i < s.len()
    &&& s[i] == ' '
    &&& forall|j: int| 0 <= j < i ==> s[j] != ' '
}

/// The hash field and the path field of one source line: the hash field ends
/// at the first space, the path is the remainder of the line verbatim (it may
/// itself contain spaces).  A line without a space is all hash field.
pub open spec fn line_fields(s: Seq<char>) -> (Seq<char>, Seq<char>) {
    if exists|i: int| is_first_space(s, i) {
        let i = choose|i: int| is_first_space(s, i);
        (s.subrange(0, i), s.subrange(i + 1, s.len() as int))
    } else {
        (s, Seq::empty())
    }
}

/// What one source line contributes: the parsed hash and the path, or
/// nothing when the hash field is not hexadecimal.
pub open spec fn parse_line(s: Seq<char>) -> Option<(u64, Seq<char>)> {
    match parse_hex_u64(line_fields(s).0) {
        Some(h) => Some((h, line_fields(s).1)),
        None => None,
    }
}

/// The mapping after appending every entry of `lines`, in order, to `m`.
/// Later lines win on conflicting hashes.
pub open spec fn table_after(m: Map<u64, Seq<char>>, lines: Seq<Seq<char>>) -> Map<u64, Seq<char>>
    decreases lines.len(),
{
    if lines.len() == 0 {
        m
    } else {
        let rest = table_after(m, lines.drop_last());
        match parse_line(lines.last()) {
            Some((h, p)) => rest.insert(h, p),
            None => rest,
        }
    }
}

proof fn lemma_first_space_unique(s: Seq<char>, i: int, j: int)
    requires
        is_first_space(s, i),
        is_first_space(s, j),
    ensures
        i == j,
{
}

/// Mapping from path hash to resolved path string, layered from ordered
/// sources with last-writer-wins overwrite semantics.
pub struct WadHashtable {
    items: HashMap<u64, String>,
}

impl WadHashtable {
    /// The mathematical content: which path string each known hash resolves
    /// to.
    pub closed spec fn model(self) -> Map<u64, Seq<char>> {
        self.items@.map_values(|p: String| p@)
    }

    /// An empty hashtable: no hash is known.
    pub fn new() -> (r: Self)
        ensures
            r.model() == Map::<u64, Seq<char>>::empty(),
    {
        let r = WadHashtable { items: HashMap::new() };
        proof {
            assert(r.model() =~= Map::<u64, Seq<char>>::empty());
        }
        r
    }

    /// The stored path for `path_hash`, or, when no source resolved it, the
    /// canonical 16-digit lowercase hexadecimal form of the hash itself
    /// (which parses back to the hash, base-16).
    pub fn resolve_path(&self, path_hash: u64) -> (r: String)
        ensures
            r@ == if self.model().contains_key(path_hash) {
                self.model()[path_hash]
            } else {
                hex_str_of(path_hash)
            },
    {
        match self.items.get(&path_hash) {
            Some(p) => p.clone(),
            None => format_chunk_path_hash(path_hash),
        }
    }

    /// Splits one source line into its fields and parses the hash field.
    fn parse_line_exec(line: &str) -> (r: Option<(u64, String)>)
        ensures
            match r {
                Some((h, p)) => parse_line(line@) == Some((h, p@)),
                None => parse_line(line@) is None,
            },
    {
        let n = line.unicode_len();
        let mut sp: usize = 0;
        while sp < n && line.get_char(sp) != ' '
            invariant
                n == line@.len(),
                0 <= sp <= n,
                forall|j: int| 0 <= j < sp ==> line@[j] != ' ',
            decreases n - sp,
        {
            sp = sp + 1;
        }
        let (hash_field, path): (&str, String) = if sp < n {
            proof {
                assert(is_first_space(line@, sp as int));
                lemma_first_space_unique(
                    line@,
                    sp as int,
                    choose|i: int| is_first_space(line@, i),
                );
            }
            (line.substring_char(0, sp), line.substring_char(sp + 1, n).to_owned())
        } else {
            proof {
                assert(forall|i: int| !is_first_space(line@, i));
                assert(line@.subrange(0, n as int) =~= line@);
            }
            (line.substring_char(0, n), String::new())
        };
        assert(hash_field@ == line_fields(line@).0);
        assert(path@ == line_fields(line@).1);
        match parse_hex_str(hash_field) {
            Some(h) => Some((h, path)),
            None => None,
        }
    }

    /// Appends the entries of one line-oriented source.  Every line must
    /// carry a hexadecimal hash field; the first malformed line rejects the
    /// whole source and leaves the table unchanged.  Later lines (and later
    /// sources) win on conflicting hashes.
    pub fn add_from_lines(&mut self, lines: &Vec<String>) -> (r: Result<(), HashParseError>)
        ensures
            match r {
                Ok(()) => {
                    &&& forall|i: int|
                        0 <= i < lines@.len() ==> parse_line(#[trigger] lines@[i]@) is Some
                    &&& final(self).model() == table_after(
                        old(self).model(),
                        lines@.map_values(|l: String| l@),
                    )
                },
                Err(e) => {
                    &&& final(self).model() == old(self).model()
                    &&& e.line_index < lines@.len()
                    &&& parse_line(lines@[e.line_index as int]@) is None
                    &&& forall|i: int|
                        0 <= i < e.line_index ==> parse_line(#[trigger] lines@[i]@) is Some
                },
            },
    {
        let ghost m0 = self.model();
        let ghost lseq = lines@.map_values(|l: String| l@);
        let mut i: usize = 0;
        while i < lines.len()
            invariant
                0 <= i <= lines@.len(),
                forall|j: int| 0 <= j < i ==> parse_line(#[trigger] lines@[j]@) is Some,
            decreases lines@.len() - i,
        {
            if Self::parse_line_exec(lines[i].as_str()).is_none() {
                return Err(HashParseError { line_index: i });
            }
            i = i + 1;
        }
        let mut k: usize = 0;
        while k < lines.len()
            invariant
                0 <= k <= lines@.len(),
                lseq == lines@.map_values(|l: String| l@),
                forall|j: int| 0 <= j < lines@.len() ==> parse_line(#[trigger] lines@[j]@) is Some,
                self.model() == table_after(m0, lseq.subrange(0, k as int)),
            decreases lines@.len() - k,
        {
            match Self::parse_line_exec(lines[k].as_str()) {
                Some((h, p)) => {
                    let ghost pre = self.model();
                    let ghost pv = p@;
                    self.items.insert(h, p);
                    proof {
                        let sub1 = lseq.subrange(0, k as int + 1);
                        assert(sub1.drop_last() =~= lseq.subrange(0, k as int));
                        assert(sub1.last() == lseq[k as int]);
                        assert(lseq[k as int] == lines@[k as int]@);
                        assert(parse_line(lseq[k as int]) == Some((h, pv)));
                        assert(self.model() =~= pre.insert(h, pv));
                        assert(self.model() == table_after(m0, sub1));
                    }
                }
                None => {
                    proof {
                        assert(false);
                    }
                }
            }
            k = k + 1;
        }
        proof {
            assert(lseq.subrange(0, lines@.len() as int) =~= lseq);
        }
        Ok(())
    }

    /// The underlying storage, exposed for direct mutation.  Nothing is
    /// stated about the model across such mutation: a caller writing through
    /// this escape hatch is on its own, though `resolve_path` remains
    /// faithful to whatever the storage then holds.
    pub fn items_mut(&mut self) -> &mut HashMap<u64, String> {
        &mut self.items
    }

    /// The underlying storage, exposed read-only.
    pub fn items(&self) -> (r: &HashMap<u64, String>)
        ensures
            self.model() == r@.map_values(|p: String| p@),
    {
        &self.items
    }
}

} // verus!
