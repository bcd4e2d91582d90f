//! The chunk-level diff engine: classifies the differences between two
//! container snapshots as added, removed, modified or renamed chunks.
//! Renames are detected only through checksum equality: a hash that exists
//! only in the target snapshot whose checksum equals the checksum of a
//! chunk that exists only in the reference snapshot.

use vstd::pervasive::VecAdditionalExecFns;
use vstd::prelude::*;

use crate::chunk::WadChunk;

verus! {

/// Arguments of a diff run between two container snapshots.
#[derive(Debug, Clone)]
pub struct DiffArgs {
    pub reference: String,
    pub target: String,
    pub hashtable_path: Option<String>,
    pub output: Option<String>,
    pub hashtable_dir: Option<String>,
}

/// One classified difference between a reference snapshot and a target
/// snapshot.
#[derive(Clone, Copy, Debug, PartialEq, Eq, Structural)]
pub enum ChunkDiff {
    /// Present only in the target snapshot, with no checksum match among the
    /// reference-only chunks.
    New(WadChunk),
    /// Present only in the reference snapshot and not consumed by a rename.
    Removed(WadChunk),
    /// Present in both snapshots with differing checksums.
    Modified { old_chunk: WadChunk, new_chunk: WadChunk },
    /// `new_chunk` is target-only, `old_chunk` is reference-only, and both
    /// carry the same checksum.
    Renamed { old_chunk: WadChunk, new_chunk: WadChunk },
}

pub open spec fn has_hash(s: Seq<WadChunk>, h: u64) -> bool {
    exists|i: int| 0 <= i < s.len() && s[i].path_hash == h
}

/// The chunk of `s` keyed by `h`; meaningful when `s` has unique hashes.
pub open spec fn chunk_of(s: Seq<WadChunk>, h: u64) -> WadChunk {
    s[choose|i: int| 0 <= i < s.len() && s[i].path_hash == h]
}

/// Each hash keys at most one chunk of the snapshot.
pub open spec fn uniq_hashes(s: Seq<WadChunk>) -> bool {
    forall|i: int, j: int|
        0 <= i < j < s.len() ==> (#[trigger] s[i]).path_hash != (#[trigger] s[j]).path_hash
}

pub open spec fn is_new(d: ChunkDiff) -> bool {
    match d {
        ChunkDiff::New(_) => true,
        _ => false,
    }
}

pub open spec fn is_removed(d: ChunkDiff) -> bool {
    match d {
        ChunkDiff::Removed(_) => true,
        _ => false,
    }
}

pub open spec fn is_modified(d: ChunkDiff) -> bool {
    match d {
        ChunkDiff::Modified { .. } => true,
        _ => false,
    }
}

pub open spec fn is_renamed(d: ChunkDiff) -> bool {
    match d {
        ChunkDiff::Renamed { .. } => true,
        _ => false,
    }
}

/// The reference-side chunk a renamed record pairs away.
pub open spec fn renamed_old(d: ChunkDiff) -> WadChunk {
    match d {
        ChunkDiff::Renamed { old_chunk, .. } => old_chunk,
        _ => arbitrary(),
    }
}

pub open spec fn removed_chunk(d: ChunkDiff) -> WadChunk {
    match d {
        ChunkDiff::Removed(c) => c,
        _ => arbitrary(),
    }
}

/// The reference-snapshot hash a record classifies, if any.
pub open spec fn old_hash_of(d: ChunkDiff) -> Option<u64> {
    match d {
        ChunkDiff::New(_) => None,
        ChunkDiff::Removed(c) => Some(c.path_hash),
        ChunkDiff::Modified { old_chunk, .. } => Some(old_chunk.path_hash),
        ChunkDiff::Renamed { old_chunk, .. } => Some(old_chunk.path_hash),
    }
}

/// The target-snapshot hash a record classifies, if any.
pub open spec fn new_hash_of(d: ChunkDiff) -> Option<u64> {
    match d {
        ChunkDiff::New(c) => Some(c.path_hash),
        ChunkDiff::Removed(_) => None,
        ChunkDiff::Modified { new_chunk, .. } => Some(new_chunk.path_hash),
        ChunkDiff::Renamed { new_chunk, .. } => Some(new_chunk.path_hash),
    }
}

/// Every record speaks only of chunks the snapshots really hold, in the
/// class the record claims.
pub open spec fn record_sound(r: Seq<WadChunk>, t: Seq<WadChunk>, d: ChunkDiff) -> bool {
    match d {
        ChunkDiff::New(c) => t.contains(c) && !has_hash(r, c.path_hash),
        ChunkDiff::Removed(c) => r.contains(c) && !has_hash(t, c.path_hash),
        ChunkDiff::Modified { old_chunk, new_chunk } => r.contains(old_chunk) && t.contains(
            new_chunk,
        ) && old_chunk.path_hash == new_chunk.path_hash && old_chunk.checksum
            != new_chunk.checksum,
        ChunkDiff::Renamed { old_chunk, new_chunk } => r.contains(old_chunk) && !has_hash(
            t,
            old_chunk.path_hash,
        ) && t.contains(new_chunk) && !has_hash(r, new_chunk.path_hash) && old_chunk.checksum
            == new_chunk.checksum,
    }
}

pub open spec fn all_sound(r: Seq<WadChunk>, t: Seq<WadChunk>, d: Seq<ChunkDiff>) -> bool {
    forall|i: int| 0 <= i < d.len() ==> record_sound(r, t, #[trigger] d[i])
}

/// No reference-snapshot hash is classified by two records.
pub open spec fn old_hashes_distinct(d: Seq<ChunkDiff>) -> bool {
    forall|i: int, j: int|
        0 <= i < j < d.len() ==> !(#[trigger] old_hash_of(d[i]) is Some && old_hash_of(d[i])
            == #[trigger] old_hash_of(d[j]))
}

/// No target-snapshot hash is classified by two records.
pub open spec fn new_hashes_distinct(d: Seq<ChunkDiff>) -> bool {
    forall|i: int, j: int|
        0 <= i < j < d.len() ==> !(#[trigger] new_hash_of(d[i]) is Some && new_hash_of(d[i])
            == #[trigger] new_hash_of(d[j]))
}

/// The full contract of the diff classification.
pub open spec fn diff_post(r: Seq<WadChunk>, t: Seq<WadChunk>, d: Seq<ChunkDiff>) -> bool {
    &&& all_sound(r, t, d)
    &&& old_hashes_distinct(d)
    &&& new_hashes_distinct(d)
    // every reference-only hash is classified
    &&& forall|b: int|
        0 <= b < r.len() && !has_hash(t, (#[trigger] r[b]).path_hash) ==> exists|i: int|
            0 <= i < d.len() && old_hash_of(#[trigger] d[i]) == Some(r[b].path_hash)
    // every target-only hash is classified
    &&& forall|b: int|
        0 <= b < t.len() && !has_hash(r, (#[trigger] t[b]).path_hash) ==> exists|i: int|
            0 <= i < d.len() && new_hash_of(#[trigger] d[i]) == Some(t[b].path_hash)
    // every hash in both snapshots with differing checksums yields its
    // modified record
    &&& forall|b: int|
        0 <= b < r.len() && has_hash(t, (#[trigger] r[b]).path_hash) && chunk_of(
            t,
            r[b].path_hash,
        ).checksum != r[b].checksum ==> d.contains(
            ChunkDiff::Modified { old_chunk: r[b], new_chunk: chunk_of(t, r[b].path_hash) },
        )
    // whenever a reference-only chunk and a target-only chunk share a
    // checksum, some rename with that checksum is reported
    &&& forall|br: int, bt: int|
        #![trigger r[br], t[bt]]
        0 <= br < r.len() && 0 <= bt < t.len() && !has_hash(t, r[br].path_hash) && !has_hash(
            r,
            t[bt].path_hash,
        ) && r[br].checksum == t[bt].checksum ==> exists|i: int|
            0 <= i < d.len() && is_renamed(#[trigger] d[i]) && renamed_old(d[i]).checksum
                == t[bt].checksum
}

proof fn lemma_chunk_of_index(s: Seq<WadChunk>, j: int)
    requires
        uniq_hashes(s),
        0 <= j < s.len(),
    ensures
        has_hash(s, s[j].path_hash),
        chunk_of(s, s[j].path_hash) == s[j],
{
    assert(has_hash(s, s[j].path_hash));
    let i = choose|i: int| 0 <= i < s.len() && s[i].path_hash == s[j].path_hash;
    if i != j {
        if i < j {
            assert(s[i].path_hash != s[j].path_hash);
        } else {
            assert(s[j].path_hash != s[i].path_hash);
        }
    }
}

/// A hash found among the first `i` chunks extends to the longer prefix and
/// differs from the `i`-th chunk's hash.
proof fn lemma_prefix_hash_step(s: Seq<WadChunk>, i: int, h: u64)
    requires
        uniq_hashes(s),
        0 <= i < s.len(),
        has_hash(s.subrange(0, i), h),
    ensures
        has_hash(s.subrange(0, i + 1), h),
        h != s[i].path_hash,
{
    let w = choose|w: int|
        0 <= w < s.subrange(0, i).len() && s.subrange(0, i)[w].path_hash == h;
    assert(s[w] == s.subrange(0, i)[w]);
    assert(s.subrange(0, i + 1)[w].path_hash == h);
    assert(s[w].path_hash != s[i].path_hash);
}

proof fn lemma_push_keeps_contains_diff(s: Seq<ChunkDiff>, x: ChunkDiff)
    ensures
        forall|y: ChunkDiff| s.contains(y) ==> #[trigger] s.push(x).contains(y),
        s.push(x).contains(x),
{
    assert forall|y: ChunkDiff| s.contains(y) implies #[trigger] s.push(x).contains(y) by {
        let w = choose|w: int| 0 <= w < s.len() && s[w] == y;
        assert(s.push(x)[w] == y);
    }
    assert(s.push(x)[s.len() as int] == x);
}

proof fn lemma_push_keeps_contains_chunk(s: Seq<WadChunk>, x: WadChunk)
    ensures
        forall|y: WadChunk| s.contains(y) ==> #[trigger] s.push(x).contains(y),
        s.push(x).contains(x),
{
    assert forall|y: WadChunk| s.contains(y) implies #[trigger] s.push(x).contains(y) by {
        let w = choose|w: int| 0 <= w < s.len() && s[w] == y;
        assert(s.push(x)[w] == y);
    }
    assert(s.push(x)[s.len() as int] == x);
}

/// A modified record's hashes are present in both snapshots.
proof fn lemma_modified_in_both(rs: Seq<WadChunk>, ts: Seq<WadChunk>, d: ChunkDiff)
    requires
        is_modified(d),
        record_sound(rs, ts, d),
    ensures
        has_hash(rs, old_hash_of(d).unwrap()),
        has_hash(ts, old_hash_of(d).unwrap()),
        has_hash(rs, new_hash_of(d).unwrap()),
        has_hash(ts, new_hash_of(d).unwrap()),
{
    match d {
        ChunkDiff::Modified { old_chunk, new_chunk } => {
            assert(rs.contains(old_chunk));
            let wr = choose|w: int| 0 <= w < rs.len() && rs[w] == old_chunk;
            assert(rs[wr].path_hash == old_chunk.path_hash);
            assert(ts.contains(new_chunk));
            let wt = choose|w: int| 0 <= w < ts.len() && ts[w] == new_chunk;
            assert(ts[wt].path_hash == new_chunk.path_hash);
        },
        _ => {},
    }
}

/// Linear search of a snapshot by path hash.
fn find_by_hash(s: &Vec<WadChunk>, h: u64) -> (r: Option<usize>)
    ensures
        match r {
            Some(i) => i < s@.len() && s@[i as int].path_hash == h,
            None => !has_hash(s@, h),
        },
{
    let mut i: usize = 0;
    while i < s.len()
        invariant
            0 <= i <= s@.len(),
            forall|j: int| 0 <= j < i ==> (#[trigger] s@[j]).path_hash != h,
        decreases s@.len() - i,
    {
        if s[i].path_hash == h {
            return Some(i);
        }
        i = i + 1;
    }
    None
}

/// Classifies every difference between the `reference` snapshot and the
/// `target` snapshot.
///
/// A hash present in both snapshots with differing checksums yields one
/// `Modified` record.  A reference-only chunk is provisionally removed; a
/// target-only chunk consumes the first not-yet-consumed removal candidate
/// carrying its checksum as a `Renamed` record, or yields `New` when no
/// candidate matches.  Candidates not consumed remain `Removed`.  A chunk
/// that participates in a rename never also appears as `Removed` or `New`.
#[verifier::spinoff_prover]
#[verifier::rlimit(40)]
pub fn collect_diffs(reference: &Vec<WadChunk>, target: &Vec<WadChunk>) -> (d: Vec<ChunkDiff>)
    requires
        uniq_hashes(reference@),
        uniq_hashes(target@),
    ensures
        diff_post(reference@, target@, d@),
{
    let ghost rs = reference@;
    let ghost ts = target@;
    let mut out: Vec<ChunkDiff> = Vec::new();
    let mut removed: Vec<WadChunk> = Vec::new();

    // Pass over the reference snapshot: provisional removals and
    // modifications.
    let mut i: usize = 0;
    while i < reference.len()
        invariant
            uniq_hashes(rs),
            uniq_hashes(ts),
            rs == reference@,
            ts == target@,
            0 <= i <= rs.len(),
            forall|a: int|
                0 <= a < removed@.len() ==> rs.contains(#[trigger] removed@[a]) && !has_hash(
                    ts,
                    removed@[a].path_hash,
                ),
            forall|a: int|
                0 <= a < removed@.len() ==> has_hash(
                    rs.subrange(0, i as int),
                    (#[trigger] removed@[a]).path_hash,
                ),
            forall|a: int, b: int|
                0 <= a < b < removed@.len() ==> (#[trigger] removed@[a]).path_hash != (
                #[trigger] removed@[b]).path_hash,
            all_sound(rs, ts, out@),
            forall|a: int| 0 <= a < out@.len() ==> is_modified(#[trigger] out@[a]),
            forall|a: int|
                0 <= a < out@.len() ==> has_hash(
                    rs.subrange(0, i as int),
                    old_hash_of(#[trigger] out@[a]).unwrap(),
                ),
            old_hashes_distinct(out@),
            forall|b: int|
                0 <= b < i && !has_hash(ts, (#[trigger] rs[b]).path_hash) ==> removed@.contains(
                    rs[b],
                ),
            forall|b: int|
                0 <= b < i && has_hash(ts, (#[trigger] rs[b]).path_hash) && chunk_of(
                    ts,
                    rs[b].path_hash,
                ).checksum != rs[b].checksum ==> out@.contains(
                    ChunkDiff::Modified {
                        old_chunk: rs[b],
                        new_chunk: chunk_of(ts, rs[b].path_hash),
                    },
                ),
        decreases rs.len() - i,
    {
        let c = reference[i];
        proof {
            assert(rs.contains(c)) by {
                assert(rs[i as int] == c);
            }
            assert(rs.subrange(0, i as int + 1)[i as int].path_hash == c.path_hash);
        }
        match find_by_hash(target, c.path_hash) {
            None => {
                let ghost removed_old = removed@;
                removed.push(c);
                proof {
                    lemma_push_keeps_contains_chunk(removed_old, c);
                    assert forall|a: int| 0 <= a < removed_old.len() implies has_hash(
                        rs.subrange(0, i as int + 1),
                        (#[trigger] removed_old[a]).path_hash,
                    ) && removed_old[a].path_hash != c.path_hash by {
                        lemma_prefix_hash_step(rs, i as int, removed_old[a].path_hash);
                    }
                    assert forall|a: int| 0 <= a < out@.len() implies has_hash(
                        rs.subrange(0, i as int + 1),
                        old_hash_of(#[trigger] out@[a]).unwrap(),
                    ) by {
                        lemma_prefix_hash_step(rs, i as int, old_hash_of(out@[a]).unwrap());
                    }
                    assert(removed@[removed_old.len() as int] == c);
                }
            },
            Some(j) => {
                proof {
                    lemma_chunk_of_index(ts, j as int);
                }
                if target[j].checksum != c.checksum {
                    let rec = ChunkDiff::Modified { old_chunk: c, new_chunk: target[j] };
                    let ghost out_old = out@;
                    out.push(rec);
                    proof {
                        assert(ts.contains(ts[j as int]));
                        assert(record_sound(rs, ts, rec));
                        lemma_push_keeps_contains_diff(out_old, rec);
                        assert forall|a: int| 0 <= a < out_old.len() implies has_hash(
                            rs.subrange(0, i as int + 1),
                            old_hash_of(#[trigger] out_old[a]).unwrap(),
                        ) && old_hash_of(out_old[a]) != Some(c.path_hash) by {
                            lemma_prefix_hash_step(
                                rs,
                                i as int,
                                old_hash_of(out_old[a]).unwrap(),
                            );
                        }
                        assert forall|a: int| 0 <= a < removed@.len() implies has_hash(
                            rs.subrange(0, i as int + 1),
                            (#[trigger] removed@[a]).path_hash,
                        ) by {
                            lemma_prefix_hash_step(rs, i as int, removed@[a].path_hash);
                        }
                        assert(out@[out_old.len() as int] == rec);
                    }
                } else {
                    proof {
                        assert forall|a: int| 0 <= a < out@.len() implies has_hash(
                            rs.subrange(0, i as int + 1),
                            old_hash_of(#[trigger] out@[a]).unwrap(),
                        ) by {
                            lemma_prefix_hash_step(rs, i as int, old_hash_of(out@[a]).unwrap());
                        }
                        assert forall|a: int| 0 <= a < removed@.len() implies has_hash(
                            rs.subrange(0, i as int + 1),
                            (#[trigger] removed@[a]).path_hash,
                        ) by {
                            lemma_prefix_hash_step(rs, i as int, removed@[a].path_hash);
                        }
                    }
                }
            },
        }
        i = i + 1;
    }
    proof {
        assert(rs.subrange(0, rs.len() as int) =~= rs);
    }

    // Pass over the target snapshot: renames and additions.
    let mut consumed: Vec<bool> = Vec::new();
    let mut j0: usize = 0;
    while j0 < removed.len()
        invariant
            consumed@.len() == j0,
            0 <= j0 <= removed@.len(),
            forall|j: int| 0 <= j < j0 ==> !(#[trigger] consumed@[j]),
        decreases removed@.len() - j0,
    {
        consumed.push(false);
        j0 = j0 + 1;
    }

    let mut k: usize = 0;
    while k < target.len()
        invariant
            uniq_hashes(rs),
            uniq_hashes(ts),
            rs == reference@,
            ts == target@,
            0 <= k <= ts.len(),
            consumed@.len() == removed@.len(),
            forall|a: int|
                0 <= a < removed@.len() ==> rs.contains(#[trigger] removed@[a]) && !has_hash(
                    ts,
                    removed@[a].path_hash,
                ),
            forall|a: int, b: int|
                0 <= a < b < removed@.len() ==> (#[trigger] removed@[a]).path_hash != (
                #[trigger] removed@[b]).path_hash,
            forall|b: int|
                0 <= b < rs.len() && !has_hash(ts, (#[trigger] rs[b]).path_hash)
                    ==> removed@.contains(rs[b]),
            all_sound(rs, ts, out@),
            forall|a: int| 0 <= a < out@.len() ==> !is_removed(#[trigger] out@[a]),
            old_hashes_distinct(out@),
            new_hashes_distinct(out@),
            forall|b: int|
                0 <= b < rs.len() && has_hash(ts, (#[trigger] rs[b]).path_hash) && chunk_of(
                    ts,
                    rs[b].path_hash,
                ).checksum != rs[b].checksum ==> out@.contains(
                    ChunkDiff::Modified {
                        old_chunk: rs[b],
                        new_chunk: chunk_of(ts, rs[b].path_hash),
                    },
                ),
            forall|j: int|
                0 <= j < removed@.len() && #[trigger] consumed@[j] ==> exists|a: int|
                    0 <= a < out@.len() && is_renamed(#[trigger] out@[a]) && renamed_old(out@[a])
                        == removed@[j],
            forall|a: int|
                0 <= a < out@.len() && is_renamed(#[trigger] out@[a]) ==> exists|j: int|
                    0 <= j < removed@.len() && #[trigger] consumed@[j] && renamed_old(out@[a])
                        == removed@[j],
            forall|a: int|
                0 <= a < out@.len() && (is_new(#[trigger] out@[a]) || is_renamed(out@[a]))
                    ==> has_hash(ts.subrange(0, k as int), new_hash_of(out@[a]).unwrap()),
            forall|b: int|
                0 <= b < k && !has_hash(rs, (#[trigger] ts[b]).path_hash) ==> exists|a: int|
                    0 <= a < out@.len() && new_hash_of(#[trigger] out@[a]) == Some(
                        ts[b].path_hash,
                    ),
            forall|bt: int, j: int|
                #![trigger ts[bt], removed@[j]]
                0 <= bt < k && 0 <= j < removed@.len() && !has_hash(rs, ts[bt].path_hash)
                    && removed@[j].checksum == ts[bt].checksum ==> exists|a: int|
                    0 <= a < out@.len() && is_renamed(#[trigger] out@[a]) && renamed_old(
                        out@[a],
                    ).checksum == ts[bt].checksum,
        decreases ts.len() - k,
    {
        let c = target[k];
        proof {
            assert(ts.contains(c)) by {
                assert(ts[k as int] == c);
            }
        }
        match find_by_hash(reference, c.path_hash) {
            Some(_) => {
            },
            None => {
                // scan the removal candidates for the first unconsumed
                // checksum match
                let mut j: usize = 0;
                let mut found: Option<usize> = None;
                while j < removed.len() && found.is_none()
                    invariant
                        consumed@.len() == removed@.len(),
                        0 <= j <= removed@.len(),
                        match found {
                            Some(f) => f < j && f < removed@.len() && !consumed@[f as int]
                                && removed@[f as int].checksum == c.checksum,
                            None => forall|jj: int|
                                0 <= jj < j ==> (#[trigger] consumed@[jj] || removed@[jj].checksum
                                    != c.checksum),
                        },
                    decreases removed@.len() - j,
                {
                    if !consumed[j] && removed[j].checksum == c.checksum {
                        found = Some(j);
                    }
                    j = j + 1;
                }
                let ghost out_old = out@;
                let ghost consumed_old = consumed@;
                match found {
                    Some(f) => {
                        let old_c = removed[f];
                        consumed.set(f, true);
                        out.push(ChunkDiff::Renamed { old_chunk: old_c, new_chunk: c });
                        proof {
                            let rec = ChunkDiff::Renamed { old_chunk: old_c, new_chunk: c };
                            assert(record_sound(rs, ts, rec));
                            lemma_push_keeps_contains_diff(out_old, rec);
                            assert forall|a: int| 0 <= a < out@.len() implies record_sound(
                                rs,
                                ts,
                                #[trigger] out@[a],
                            ) && !is_removed(out@[a]) by {
                                if a < out_old.len() {
                                    assert(out@[a] == out_old[a]);
                                } else {
                                    assert(out@[a] == rec);
                                }
                            }
                            assert(old_hash_of(rec) == Some(removed@[f as int].path_hash));
                            lemma_rename_old_fresh(
                                rs,
                                ts,
                                out_old,
                                removed@,
                                consumed_old,
                                f as int,
                            );
                            lemma_old_distinct_push(out_old, rec);
                            lemma_new_hash_fresh(rs, ts, out_old, k as int, c);
                            lemma_new_distinct_push(out_old, rec);
                            lemma_links_after_rename(
                                out_old,
                                out@,
                                removed@,
                                consumed_old,
                                consumed@,
                                f as int,
                            );
                            lemma_tc_push(rs, ts, out_old, out@, k as int, rec);
                            lemma_j4_after_rename(rs, ts, out_old, out@, removed@, k as int, rec);
                            assert forall|a: int|
                                0 <= a < out@.len() && (is_new(#[trigger] out@[a]) || is_renamed(
                                    out@[a],
                                )) implies has_hash(
                                ts.subrange(0, k as int),
                                new_hash_of(out@[a]).unwrap(),
                            ) || new_hash_of(out@[a]) == Some(ts[k as int].path_hash) by {
                                if a < out_old.len() {
                                    assert(out@[a] == out_old[a]);
                                } else {
                                    assert(out@[a] == rec);
                                }
                            }
                        }
                    },
                    None => {
                        out.push(ChunkDiff::New(c));
                        proof {
                            let rec = ChunkDiff::New(c);
                            assert(record_sound(rs, ts, rec));
                            lemma_push_keeps_contains_diff(out_old, rec);
                            assert forall|a: int| 0 <= a < out@.len() implies record_sound(
                                rs,
                                ts,
                                #[trigger] out@[a],
                            ) && !is_removed(out@[a]) by {
                                if a < out_old.len() {
                                    assert(out@[a] == out_old[a]);
                                } else {
                                    assert(out@[a] == rec);
                                }
                            }
                            assert(old_hash_of(rec) is None);
                            lemma_old_distinct_push(out_old, rec);
                            lemma_new_hash_fresh(rs, ts, out_old, k as int, c);
                            lemma_new_distinct_push(out_old, rec);
                            lemma_links_after_push_nonrename(out_old, out@, removed@, consumed@);
                            lemma_tc_push(rs, ts, out_old, out@, k as int, rec);
                            lemma_j4_after_new(
                                rs,
                                ts,
                                out_old,
                                out@,
                                removed@,
                                consumed@,
                                k as int,
                                c,
                            );
                            assert forall|a: int|
                                0 <= a < out@.len() && (is_new(#[trigger] out@[a]) || is_renamed(
                                    out@[a],
                                )) implies has_hash(
                                ts.subrange(0, k as int),
                                new_hash_of(out@[a]).unwrap(),
                            ) || new_hash_of(out@[a]) == Some(ts[k as int].path_hash) by {
                                if a < out_old.len() {
                                    assert(out@[a] == out_old[a]);
                                } else {
                                    assert(out@[a] == rec);
                                }
                            }
                        }
                    },
                }
            },
        }
        proof {
            extend_target_prefix(ts, k as int, out@);
        }
        k = k + 1;
    }
    proof {
        assert(ts.subrange(0, ts.len() as int) =~= ts);
    }

    // Emit the removal candidates that no rename consumed.
    emit_unconsumed(&mut out, &removed, &consumed, Ghost(rs), Ghost(ts));

    proof {
        assert forall|br: int, bt: int|
            #![trigger rs[br], ts[bt]]
            0 <= br < rs.len() && 0 <= bt < ts.len() && !has_hash(ts, rs[br].path_hash)
                && !has_hash(rs, ts[bt].path_hash) && rs[br].checksum == ts[bt].checksum
            implies exists|i2: int|
            0 <= i2 < out@.len() && is_renamed(#[trigger] out@[i2]) && renamed_old(
                out@[i2],
            ).checksum == ts[bt].checksum by {
            let cr = rs[br];
            assert(removed@.contains(cr));
            let jj = choose|jj: int| 0 <= jj < removed@.len() && removed@[jj] == cr;
            assert(removed@[jj].checksum == ts[bt].checksum);
        }
        assert forall|b: int|
            0 <= b < rs.len() && !has_hash(ts, (#[trigger] rs[b]).path_hash) implies exists|
            i2: int,
        |
            0 <= i2 < out@.len() && old_hash_of(#[trigger] out@[i2]) == Some(rs[b].path_hash) by {
            let cr = rs[b];
            assert(removed@.contains(cr));
            let jj = choose|jj: int| 0 <= jj < removed@.len() && removed@[jj] == cr;
            if consumed@[jj] {
                let a = choose|a: int|
                    0 <= a < out@.len() && is_renamed(#[trigger] out@[a]) && renamed_old(out@[a])
                        == removed@[jj];
                assert(old_hash_of(out@[a]) == Some(cr.path_hash));
            } else {
                assert(out@.contains(ChunkDiff::Removed(removed@[jj])));
                let a = choose|a: int|
                    0 <= a < out@.len() && out@[a] == ChunkDiff::Removed(removed@[jj]);
                assert(old_hash_of(out@[a]) == Some(cr.path_hash));
            }
        }
    }
    out
}

/// Emits one `Removed` record for every removal candidate that no rename
/// consumed.
#[verifier::spinoff_prover]
#[verifier::rlimit(100)]
fn emit_unconsumed(
    out: &mut Vec<ChunkDiff>,
    removed: &Vec<WadChunk>,
    consumed: &Vec<bool>,
    Ghost(rs): Ghost<Seq<WadChunk>>,
    Ghost(ts): Ghost<Seq<WadChunk>>,
)
    requires
        uniq_hashes(rs),
        uniq_hashes(ts),
        consumed@.len() == removed@.len(),
        forall|a: int|
            0 <= a < removed@.len() ==> rs.contains(#[trigger] removed@[a]) && !has_hash(
                ts,
                removed@[a].path_hash,
            ),
        forall|a: int, b: int|
            0 <= a < b < removed@.len() ==> (#[trigger] removed@[a]).path_hash != (
            #[trigger] removed@[b]).path_hash,
        all_sound(rs, ts, old(out)@),
        forall|a: int| 0 <= a < old(out)@.len() ==> !is_removed(#[trigger] old(out)@[a]),
        old_hashes_distinct(old(out)@),
        new_hashes_distinct(old(out)@),
        forall|b: int|
            0 <= b < rs.len() && has_hash(ts, (#[trigger] rs[b]).path_hash) && chunk_of(
                ts,
                rs[b].path_hash,
            ).checksum != rs[b].checksum ==> old(out)@.contains(
                ChunkDiff::Modified { old_chunk: rs[b], new_chunk: chunk_of(ts, rs[b].path_hash) },
            ),
        forall|jj: int|
            0 <= jj < removed@.len() && #[trigger] consumed@[jj] ==> exists|a: int|
                0 <= a < old(out)@.len() && is_renamed(#[trigger] old(out)@[a]) && renamed_old(
                    old(out)@[a],
                ) == removed@[jj],
        forall|a: int|
            0 <= a < old(out)@.len() && is_renamed(#[trigger] old(out)@[a]) ==> exists|jj: int|
                0 <= jj < removed@.len() && #[trigger] consumed@[jj] && renamed_old(old(out)@[a])
                    == removed@[jj],
        forall|b: int|
            0 <= b < ts.len() && !has_hash(rs, (#[trigger] ts[b]).path_hash) ==> exists|a: int|
                0 <= a < old(out)@.len() && new_hash_of(#[trigger] old(out)@[a]) == Some(
                    ts[b].path_hash,
                ),
        forall|bt: int, jj: int|
            #![trigger ts[bt], removed@[jj]]
            0 <= bt < ts.len() && 0 <= jj < removed@.len() && !has_hash(rs, ts[bt].path_hash)
                && removed@[jj].checksum == ts[bt].checksum ==> exists|a: int|
                0 <= a < old(out)@.len() && is_renamed(#[trigger] old(out)@[a]) && renamed_old(
                    old(out)@[a],
                ).checksum == ts[bt].checksum,
    ensures
        all_sound(rs, ts, final(out)@),
        old_hashes_distinct(final(out)@),
        new_hashes_distinct(final(out)@),
        forall|b: int|
            0 <= b < rs.len() && has_hash(ts, (#[trigger] rs[b]).path_hash) && chunk_of(
                ts,
                rs[b].path_hash,
            ).checksum != rs[b].checksum ==> final(out)@.contains(
                ChunkDiff::Modified { old_chunk: rs[b], new_chunk: chunk_of(ts, rs[b].path_hash) },
            ),
        forall|jj: int|
            0 <= jj < removed@.len() && #[trigger] consumed@[jj] ==> exists|a: int|
                0 <= a < final(out)@.len() && is_renamed(#[trigger] final(out)@[a]) && renamed_old(
                    final(out)@[a],
                ) == removed@[jj],
        forall|jj: int|
            0 <= jj < removed@.len() && !(#[trigger] consumed@[jj]) ==> final(out)@.contains(
                ChunkDiff::Removed(removed@[jj]),
            ),
        forall|b: int|
            0 <= b < ts.len() && !has_hash(rs, (#[trigger] ts[b]).path_hash) ==> exists|a: int|
                0 <= a < final(out)@.len() && new_hash_of(#[trigger] final(out)@[a]) == Some(
                    ts[b].path_hash,
                ),
        forall|bt: int, jj: int|
            #![trigger ts[bt], removed@[jj]]
            0 <= bt < ts.len() && 0 <= jj < removed@.len() && !has_hash(rs, ts[bt].path_hash)
                && removed@[jj].checksum == ts[bt].checksum ==> exists|a: int|
                0 <= a < final(out)@.len() && is_renamed(#[trigger] final(out)@[a]) && renamed_old(
                    final(out)@[a],
                ).checksum == ts[bt].checksum,
{
    let mut j: usize = 0;
    while j < removed.len()
        invariant
            uniq_hashes(rs),
            uniq_hashes(ts),
            consumed@.len() == removed@.len(),
            0 <= j <= removed@.len(),
            forall|a: int|
                0 <= a < removed@.len() ==> rs.contains(#[trigger] removed@[a]) && !has_hash(
                    ts,
                    removed@[a].path_hash,
                ),
            forall|a: int, b: int|
                0 <= a < b < removed@.len() ==> (#[trigger] removed@[a]).path_hash != (
                #[trigger] removed@[b]).path_hash,
            all_sound(rs, ts, out@),
            old_hashes_distinct(out@),
            new_hashes_distinct(out@),
            forall|b: int|
                0 <= b < rs.len() && has_hash(ts, (#[trigger] rs[b]).path_hash) && chunk_of(
                    ts,
                    rs[b].path_hash,
                ).checksum != rs[b].checksum ==> out@.contains(
                    ChunkDiff::Modified {
                        old_chunk: rs[b],
                        new_chunk: chunk_of(ts, rs[b].path_hash),
                    },
                ),
            forall|jj: int|
                0 <= jj < removed@.len() && #[trigger] consumed@[jj] ==> exists|a: int|
                    0 <= a < out@.len() && is_renamed(#[trigger] out@[a]) && renamed_old(out@[a])
                        == removed@[jj],
            forall|a: int|
                0 <= a < out@.len() && is_renamed(#[trigger] out@[a]) ==> exists|jj: int|
                    0 <= jj < removed@.len() && #[trigger] consumed@[jj] && renamed_old(out@[a])
                        == removed@[jj],
            forall|a: int|
                0 <= a < out@.len() && is_removed(#[trigger] out@[a]) ==> exists|jj: int|
                    0 <= jj < j && !(#[trigger] consumed@[jj]) && removed_chunk(out@[a])
                        == removed@[jj],
            forall|jj: int|
                0 <= jj < j && !(#[trigger] consumed@[jj]) ==> out@.contains(
                    ChunkDiff::Removed(removed@[jj]),
                ),
            forall|b: int|
                0 <= b < ts.len() && !has_hash(rs, (#[trigger] ts[b]).path_hash) ==> exists|a: int|
                    0 <= a < out@.len() && new_hash_of(#[trigger] out@[a]) == Some(
                        ts[b].path_hash,
                    ),
            forall|bt: int, jj: int|
                #![trigger ts[bt], removed@[jj]]
                0 <= bt < ts.len() && 0 <= jj < removed@.len() && !has_hash(rs, ts[bt].path_hash)
                    && removed@[jj].checksum == ts[bt].checksum ==> exists|a: int|
                    0 <= a < out@.len() && is_renamed(#[trigger] out@[a]) && renamed_old(
                        out@[a],
                    ).checksum == ts[bt].checksum,
        decreases removed@.len() - j,
    {
        if !consumed[j] {
            let ghost out_old = out@;
            out.push(ChunkDiff::Removed(removed[j]));
            proof {
                lemma_push_keeps_contains_diff(out_old, ChunkDiff::Removed(removed@[j as int]));
                removed_push_reestablish(rs, ts, out_old, out@, removed@, consumed@, j as int);
            }
        } else {
            proof {
                assert forall|a: int|
                    0 <= a < out@.len() && is_removed(#[trigger] out@[a]) implies exists|jj: int|
                    0 <= jj < j + 1 && !(#[trigger] consumed@[jj]) && removed_chunk(out@[a])
                        == removed@[jj] by {
                    let jj = choose|jj: int|
                        0 <= jj < j && !(#[trigger] consumed@[jj]) && removed_chunk(out@[a])
                            == removed@[jj];
                    assert(0 <= jj < j + 1 && !consumed@[jj] && removed_chunk(out@[a])
                        == removed@[jj]);
                }
            }
        }
        j = j + 1;
    }

}

/// A chunk a snapshot with unique hashes holds is the chunk its hash keys.
proof fn lemma_contained_is_keyed(s: Seq<WadChunk>, c: WadChunk)
    requires
        uniq_hashes(s),
        s.contains(c),
    ensures
        has_hash(s, c.path_hash),
        chunk_of(s, c.path_hash) == c,
{
    let w = choose|w: int| 0 <= w < s.len() && s[w] == c;
    lemma_chunk_of_index(s, w);
}

/// Every hash of either snapshot falls in exactly one class.  A hash
/// present in both snapshots with equal checksums (unchanged) appears in no
/// record; a hash present in both with differing checksums is classified by
/// exactly one record, the modified record of its two chunks; a
/// reference-only hash is classified, on its reference side, by exactly one
/// record, a removal or a rename of its chunk; a target-only hash is
/// classified, on its target side, by exactly one record.
pub proof fn lemma_every_hash_classified_once(
    r: Seq<WadChunk>,
    t: Seq<WadChunk>,
    d: Seq<ChunkDiff>,
    h: u64,
)
    requires
        uniq_hashes(r),
        uniq_hashes(t),
        diff_post(r, t, d),
    ensures
        has_hash(r, h) && has_hash(t, h) && chunk_of(r, h).checksum == chunk_of(t, h).checksum
            ==> forall|i: int|
            0 <= i < d.len() ==> old_hash_of(#[trigger] d[i]) != Some(h) && new_hash_of(d[i])
                != Some(h),
        has_hash(r, h) && has_hash(t, h) && chunk_of(r, h).checksum != chunk_of(t, h).checksum
            ==> {
            &&& exists|i: int|
                0 <= i < d.len() && #[trigger] d[i] == (ChunkDiff::Modified {
                    old_chunk: chunk_of(r, h),
                    new_chunk: chunk_of(t, h),
                })
            &&& forall|i: int, j: int|
                0 <= i < d.len() && 0 <= j < d.len() && old_hash_of(#[trigger] d[i]) == Some(h)
                    && old_hash_of(#[trigger] d[j]) == Some(h) ==> i == j
        },
        has_hash(r, h) && !has_hash(t, h) ==> {
            &&& exists|i: int| 0 <= i < d.len() && old_hash_of(#[trigger] d[i]) == Some(h)
            &&& forall|i: int|
                0 <= i < d.len() && old_hash_of(#[trigger] d[i]) == Some(h) ==> (d[i]
                    == ChunkDiff::Removed(chunk_of(r, h)) || (is_renamed(d[i]) && renamed_old(
                    d[i],
                ) == chunk_of(r, h)))
            &&& forall|i: int, j: int|
                0 <= i < d.len() && 0 <= j < d.len() && old_hash_of(#[trigger] d[i]) == Some(h)
                    && old_hash_of(#[trigger] d[j]) == Some(h) ==> i == j
        },
        !has_hash(r, h) && has_hash(t, h) ==> {
            &&& exists|i: int| 0 <= i < d.len() && new_hash_of(#[trigger] d[i]) == Some(h)
            &&& forall|i: int, j: int|
                0 <= i < d.len() && 0 <= j < d.len() && new_hash_of(#[trigger] d[i]) == Some(h)
                    && new_hash_of(#[trigger] d[j]) == Some(h) ==> i == j
        },
{
    if has_hash(r, h) {
        lemma_chunk_of_index(r, choose|w: int| 0 <= w < r.len() && r[w].path_hash == h);
    }
    if has_hash(t, h) {
        lemma_chunk_of_index(t, choose|w: int| 0 <= w < t.len() && t[w].path_hash == h);
    }
    // no record classifies an unchanged hash
    if has_hash(r, h) && has_hash(t, h) && chunk_of(r, h).checksum == chunk_of(t, h).checksum {
        assert forall|i: int| 0 <= i < d.len() implies old_hash_of(#[trigger] d[i]) != Some(h)
            && new_hash_of(d[i]) != Some(h) by {
            assert(record_sound(r, t, d[i]));
            match d[i] {
                ChunkDiff::Modified { old_chunk, new_chunk } => {
                    if old_chunk.path_hash == h {
                        lemma_contained_is_keyed(r, old_chunk);
                        lemma_contained_is_keyed(t, new_chunk);
                    }
                },
                ChunkDiff::New(c) => {
                    if c.path_hash == h {
                        lemma_contained_is_keyed(t, c);
                    }
                },
                ChunkDiff::Removed(c) => {
                    if c.path_hash == h {
                        lemma_contained_is_keyed(r, c);
                    }
                },
                ChunkDiff::Renamed { old_chunk, new_chunk } => {
                    lemma_contained_is_keyed(r, old_chunk);
                    lemma_contained_is_keyed(t, new_chunk);
                },
            }
        }
    }
    // a hash changed in place is classified by its modified record alone
    if has_hash(r, h) && has_hash(t, h) && chunk_of(r, h).checksum != chunk_of(t, h).checksum {
        let b = choose|w: int| 0 <= w < r.len() && r[w].path_hash == h;
        assert(r[b].path_hash == h);
        assert(chunk_of(r, h) == r[b]);
        assert(d.contains(
            ChunkDiff::Modified { old_chunk: r[b], new_chunk: chunk_of(t, r[b].path_hash) },
        ));
        let w = choose|w: int|
            0 <= w < d.len() && d[w] == (ChunkDiff::Modified {
                old_chunk: r[b],
                new_chunk: chunk_of(t, r[b].path_hash),
            });
        assert(0 <= w < d.len() && d[w] == (ChunkDiff::Modified {
            old_chunk: chunk_of(r, h),
            new_chunk: chunk_of(t, h),
        }));
    }
    // reference-only hashes: the classifying record is a removal or rename
    // of the reference chunk itself
    if has_hash(r, h) && !has_hash(t, h) {
        let b = choose|w: int| 0 <= w < r.len() && r[w].path_hash == h;
        assert(r[b].path_hash == h);
        assert forall|i: int|
            0 <= i < d.len() && old_hash_of(#[trigger] d[i]) == Some(h) implies (d[i]
            == ChunkDiff::Removed(chunk_of(r, h)) || (is_renamed(d[i]) && renamed_old(d[i])
            == chunk_of(r, h))) by {
            assert(record_sound(r, t, d[i]));
            match d[i] {
                ChunkDiff::Removed(c) => {
                    lemma_contained_is_keyed(r, c);
                },
                ChunkDiff::Renamed { old_chunk, .. } => {
                    lemma_contained_is_keyed(r, old_chunk);
                },
                ChunkDiff::Modified { old_chunk, new_chunk } => {
                    lemma_contained_is_keyed(t, new_chunk);
                },
                _ => {},
            }
        }
    }
}

/// Renaming is detected through checksum equality alone: when exactly one
/// reference-only chunk and exactly one target-only chunk carry a shared
/// checksum, the diff holds a rename pairing the two, and neither chunk is
/// also reported as removed or added.
pub proof fn lemma_unique_rename_pair(
    r: Seq<WadChunk>,
    t: Seq<WadChunk>,
    d: Seq<ChunkDiff>,
    a: WadChunk,
    b: WadChunk,
)
    requires
        uniq_hashes(r),
        uniq_hashes(t),
        diff_post(r, t, d),
        r.contains(a),
        !has_hash(t, a.path_hash),
        t.contains(b),
        !has_hash(r, b.path_hash),
        a.checksum == b.checksum,
        forall|i: int|
            0 <= i < r.len() && (#[trigger] r[i]).checksum == a.checksum && !has_hash(
                t,
                r[i].path_hash,
            ) ==> r[i] == a,
        forall|i: int|
            0 <= i < t.len() && (#[trigger] t[i]).checksum == b.checksum && !has_hash(
                r,
                t[i].path_hash,
            ) ==> t[i] == b,
    ensures
        exists|i: int|
            0 <= i < d.len() && #[trigger] d[i] == (ChunkDiff::Renamed {
                old_chunk: a,
                new_chunk: b,
            }),
        forall|i: int|
            0 <= i < d.len() ==> #[trigger] d[i] != ChunkDiff::New(b) && d[i]
                != ChunkDiff::Removed(a),
{
    let br = choose|w: int| 0 <= w < r.len() && r[w] == a;
    let bt = choose|w: int| 0 <= w < t.len() && t[w] == b;
    assert(r[br] == a && t[bt] == b);
    assert(r[br].checksum == t[bt].checksum);
    let i = choose|i: int|
        0 <= i < d.len() && is_renamed(#[trigger] d[i]) && renamed_old(d[i]).checksum
            == t[bt].checksum;
    assert(record_sound(r, t, d[i]));
    match d[i] {
        ChunkDiff::Renamed { old_chunk, new_chunk } => {
            let wr = choose|w: int| 0 <= w < r.len() && r[w] == old_chunk;
            assert(r[wr] == old_chunk);
            assert(old_chunk == a);
            let wt = choose|w: int| 0 <= w < t.len() && t[w] == new_chunk;
            assert(t[wt] == new_chunk);
            assert(new_chunk.checksum == b.checksum);
            assert(new_chunk == b);
        },
        _ => {},
    }
    assert(d[i] == (ChunkDiff::Renamed { old_chunk: a, new_chunk: b }));
    assert forall|j: int| 0 <= j < d.len() implies #[trigger] d[j] != ChunkDiff::New(b) && d[j]
        != ChunkDiff::Removed(a) by {
        if d[j] == ChunkDiff::New(b) && j != i {
            assert(new_hash_of(d[j]) == Some(b.path_hash));
            assert(new_hash_of(d[i]) == Some(b.path_hash));
            assert(false);
        }
        if d[j] == ChunkDiff::Removed(a) && j != i {
            assert(old_hash_of(d[j]) == Some(a.path_hash));
            assert(old_hash_of(d[i]) == Some(a.path_hash));
            assert(false);
        }
    }
}

/// Carries the target-side provenance of news and renames one step forward.
proof fn extend_target_prefix(ts: Seq<WadChunk>, k: int, out: Seq<ChunkDiff>)
    requires
        0 <= k < ts.len(),
        forall|a: int|
            0 <= a < out.len() && (is_new(#[trigger] out[a]) || is_renamed(out[a])) ==> has_hash(
                ts.subrange(0, k),
                new_hash_of(out[a]).unwrap(),
            ) || new_hash_of(out[a]) == Some(ts[k].path_hash),
    ensures
        forall|a: int|
            0 <= a < out.len() && (is_new(#[trigger] out[a]) || is_renamed(out[a])) ==> has_hash(
                ts.subrange(0, k + 1),
                new_hash_of(out[a]).unwrap(),
            ),
{
    assert forall|a: int|
        0 <= a < out.len() && (is_new(#[trigger] out[a]) || is_renamed(out[a])) implies has_hash(
        ts.subrange(0, k + 1),
        new_hash_of(out[a]).unwrap(),
    ) by {
        let h = new_hash_of(out[a]).unwrap();
        if has_hash(ts.subrange(0, k), h) {
            let w = choose|w: int|
                0 <= w < ts.subrange(0, k).len() && ts.subrange(0, k)[w].path_hash == h;
            assert(ts.subrange(0, k + 1)[w].path_hash == h);
        } else {
            assert(ts.subrange(0, k + 1)[k].path_hash == ts[k].path_hash);
        }
    }
}

/// Pushing a record whose reference-side hash no earlier record classifies
/// keeps the reference-side hashes distinct.
proof fn lemma_old_distinct_push(out_old: Seq<ChunkDiff>, rec: ChunkDiff)
    requires
        old_hashes_distinct(out_old),
        forall|a: int|
            0 <= a < out_old.len() ==> !(old_hash_of(#[trigger] out_old[a]) is Some && old_hash_of(
                out_old[a],
            ) == old_hash_of(rec)),
    ensures
        old_hashes_distinct(out_old.push(rec)),
{
    let out_new = out_old.push(rec);
    assert forall|i: int, j: int| 0 <= i < j < out_new.len() implies !(#[trigger] old_hash_of(
        out_new[i],
    ) is Some && old_hash_of(out_new[i]) == #[trigger] old_hash_of(out_new[j])) by {
        assert(out_new[i] == out_old[i]);
        if j < out_old.len() {
            assert(out_new[j] == out_old[j]);
        } else {
            assert(out_new[j] == rec);
        }
    }
}

/// Pushing a record whose target-side hash no earlier record classifies
/// keeps the target-side hashes distinct.
proof fn lemma_new_distinct_push(out_old: Seq<ChunkDiff>, rec: ChunkDiff)
    requires
        new_hashes_distinct(out_old),
        forall|a: int|
            0 <= a < out_old.len() ==> !(new_hash_of(#[trigger] out_old[a]) is Some && new_hash_of(
                out_old[a],
            ) == new_hash_of(rec)),
    ensures
        new_hashes_distinct(out_old.push(rec)),
{
    let out_new = out_old.push(rec);
    assert forall|i: int, j: int| 0 <= i < j < out_new.len() implies !(#[trigger] new_hash_of(
        out_new[i],
    ) is Some && new_hash_of(out_new[i]) == #[trigger] new_hash_of(out_new[j])) by {
        assert(out_new[i] == out_old[i]);
        if j < out_old.len() {
            assert(out_new[j] == out_old[j]);
        } else {
            assert(out_new[j] == rec);
        }
    }
}

/// No record yet classifies the reference-side hash of an unconsumed
/// removal candidate.
proof fn lemma_rename_old_fresh(
    rs: Seq<WadChunk>,
    ts: Seq<WadChunk>,
    out_old: Seq<ChunkDiff>,
    removed: Seq<WadChunk>,
    consumed_old: Seq<bool>,
    f: int,
)
    requires
        consumed_old.len() == removed.len(),
        0 <= f < removed.len(),
        !consumed_old[f],
        forall|a: int|
            0 <= a < removed.len() ==> rs.contains(#[trigger] removed[a]) && !has_hash(
                ts,
                removed[a].path_hash,
            ),
        forall|a: int, b: int|
            0 <= a < b < removed.len() ==> (#[trigger] removed[a]).path_hash != (
            #[trigger] removed[b]).path_hash,
        all_sound(rs, ts, out_old),
        forall|a: int| 0 <= a < out_old.len() ==> !is_removed(#[trigger] out_old[a]),
        forall|a: int|
            0 <= a < out_old.len() && is_renamed(#[trigger] out_old[a]) ==> exists|j: int|
                0 <= j < removed.len() && #[trigger] consumed_old[j] && renamed_old(out_old[a])
                    == removed[j],
    ensures
        forall|a: int|
            0 <= a < out_old.len() ==> !(old_hash_of(#[trigger] out_old[a]) is Some && old_hash_of(
                out_old[a],
            ) == Some(removed[f].path_hash)),
{
    assert forall|a: int| 0 <= a < out_old.len() implies !(old_hash_of(
        #[trigger] out_old[a],
    ) is Some && old_hash_of(out_old[a]) == Some(removed[f].path_hash)) by {
        if old_hash_of(out_old[a]) is Some {
            match out_old[a] {
                ChunkDiff::Modified { .. } => {
                    lemma_modified_in_both(rs, ts, out_old[a]);
                },
                ChunkDiff::Renamed { .. } => {
                    let jj = choose|jj: int|
                        0 <= jj < removed.len() && #[trigger] consumed_old[jj] && renamed_old(
                            out_old[a],
                        ) == removed[jj];
                    assert(jj != f);
                    if jj < f {
                        assert(removed[jj].path_hash != removed[f].path_hash);
                    } else {
                        assert(removed[f].path_hash != removed[jj].path_hash);
                    }
                },
                _ => {},
            }
        }
    }
}

/// No record yet classifies the hash of the target chunk under scan.
proof fn lemma_new_hash_fresh(
    rs: Seq<WadChunk>,
    ts: Seq<WadChunk>,
    out_old: Seq<ChunkDiff>,
    k: int,
    c: WadChunk,
)
    requires
        uniq_hashes(ts),
        0 <= k < ts.len(),
        ts[k] == c,
        !has_hash(rs, c.path_hash),
        all_sound(rs, ts, out_old),
        forall|a: int|
            0 <= a < out_old.len() && (is_new(#[trigger] out_old[a]) || is_renamed(out_old[a]))
                ==> has_hash(ts.subrange(0, k), new_hash_of(out_old[a]).unwrap()),
    ensures
        forall|a: int|
            0 <= a < out_old.len() ==> !(new_hash_of(#[trigger] out_old[a]) is Some && new_hash_of(
                out_old[a],
            ) == Some(c.path_hash)),
{
    assert forall|a: int| 0 <= a < out_old.len() implies !(new_hash_of(
        #[trigger] out_old[a],
    ) is Some && new_hash_of(out_old[a]) == Some(c.path_hash)) by {
        if new_hash_of(out_old[a]) is Some {
            match out_old[a] {
                ChunkDiff::Modified { .. } => {
                    lemma_modified_in_both(rs, ts, out_old[a]);
                },
                ChunkDiff::New(_) | ChunkDiff::Renamed { .. } => {
                    assert(has_hash(ts.subrange(0, k), new_hash_of(out_old[a]).unwrap()));
                    lemma_prefix_hash_step(ts, k, new_hash_of(out_old[a]).unwrap());
                },
                _ => {},
            }
        }
    }
}

/// Consuming candidate `f` and pushing its rename keeps the consumed flags
/// and the rename records in step.
proof fn lemma_links_after_rename(
    out_old: Seq<ChunkDiff>,
    out_new: Seq<ChunkDiff>,
    removed: Seq<WadChunk>,
    consumed_old: Seq<bool>,
    consumed_new: Seq<bool>,
    f: int,
)
    requires
        consumed_old.len() == removed.len(),
        0 <= f < removed.len(),
        !consumed_old[f],
        consumed_new == consumed_old.update(f, true),
        out_new.len() == out_old.len() + 1,
        forall|a: int| 0 <= a < out_old.len() ==> out_new[a] == out_old[a],
        is_renamed(out_new[out_old.len() as int]),
        renamed_old(out_new[out_old.len() as int]) == removed[f],
        forall|j: int|
            0 <= j < removed.len() && #[trigger] consumed_old[j] ==> exists|a: int|
                0 <= a < out_old.len() && is_renamed(#[trigger] out_old[a]) && renamed_old(
                    out_old[a],
                ) == removed[j],
        forall|a: int|
            0 <= a < out_old.len() && is_renamed(#[trigger] out_old[a]) ==> exists|j: int|
                0 <= j < removed.len() && #[trigger] consumed_old[j] && renamed_old(out_old[a])
                    == removed[j],
    ensures
        forall|j: int|
            0 <= j < removed.len() && #[trigger] consumed_new[j] ==> exists|a: int|
                0 <= a < out_new.len() && is_renamed(#[trigger] out_new[a]) && renamed_old(
                    out_new[a],
                ) == removed[j],
        forall|a: int|
            0 <= a < out_new.len() && is_renamed(#[trigger] out_new[a]) ==> exists|j: int|
                0 <= j < removed.len() && #[trigger] consumed_new[j] && renamed_old(out_new[a])
                    == removed[j],
{
    let n = out_old.len() as int;
    assert forall|j: int| 0 <= j < removed.len() && #[trigger] consumed_new[j] implies exists|
        a: int,
    |
        0 <= a < out_new.len() && is_renamed(#[trigger] out_new[a]) && renamed_old(out_new[a])
            == removed[j] by {
        if j == f {
            assert(is_renamed(out_new[n]) && renamed_old(out_new[n]) == removed[f]);
        } else {
            assert(consumed_old[j]);
            let a = choose|a: int|
                0 <= a < out_old.len() && is_renamed(#[trigger] out_old[a]) && renamed_old(
                    out_old[a],
                ) == removed[j];
            assert(is_renamed(out_new[a]) && renamed_old(out_new[a]) == removed[j]);
        }
    }
    assert forall|a: int| 0 <= a < out_new.len() && is_renamed(#[trigger] out_new[a])
        implies exists|j: int|
        0 <= j < removed.len() && #[trigger] consumed_new[j] && renamed_old(out_new[a])
            == removed[j] by {
        if a < n {
            let j = choose|j: int|
                0 <= j < removed.len() && #[trigger] consumed_old[j] && renamed_old(out_old[a])
                    == removed[j];
            assert(consumed_new[j]);
        } else {
            assert(consumed_new[f] && renamed_old(out_new[a]) == removed[f]);
        }
    }
}

/// Pushing anything but a rename leaves the links between consumed flags
/// and rename records intact.
proof fn lemma_links_after_push_nonrename(
    out_old: Seq<ChunkDiff>,
    out_new: Seq<ChunkDiff>,
    removed: Seq<WadChunk>,
    consumed: Seq<bool>,
)
    requires
        consumed.len() == removed.len(),
        out_new.len() == out_old.len() + 1,
        forall|a: int| 0 <= a < out_old.len() ==> out_new[a] == out_old[a],
        !is_renamed(out_new[out_old.len() as int]),
        forall|j: int|
            0 <= j < removed.len() && #[trigger] consumed[j] ==> exists|a: int|
                0 <= a < out_old.len() && is_renamed(#[trigger] out_old[a]) && renamed_old(
                    out_old[a],
                ) == removed[j],
        forall|a: int|
            0 <= a < out_old.len() && is_renamed(#[trigger] out_old[a]) ==> exists|j: int|
                0 <= j < removed.len() && #[trigger] consumed[j] && renamed_old(out_old[a])
                    == removed[j],
    ensures
        forall|j: int|
            0 <= j < removed.len() && #[trigger] consumed[j] ==> exists|a: int|
                0 <= a < out_new.len() && is_renamed(#[trigger] out_new[a]) && renamed_old(
                    out_new[a],
                ) == removed[j],
        forall|a: int|
            0 <= a < out_new.len() && is_renamed(#[trigger] out_new[a]) ==> exists|j: int|
                0 <= j < removed.len() && #[trigger] consumed[j] && renamed_old(out_new[a])
                    == removed[j],
{
    let n = out_old.len() as int;
    assert forall|j: int| 0 <= j < removed.len() && #[trigger] consumed[j] implies exists|a: int|
        0 <= a < out_new.len() && is_renamed(#[trigger] out_new[a]) && renamed_old(out_new[a])
            == removed[j] by {
        let a = choose|a: int|
            0 <= a < out_old.len() && is_renamed(#[trigger] out_old[a]) && renamed_old(out_old[a])
                == removed[j];
        assert(is_renamed(out_new[a]) && renamed_old(out_new[a]) == removed[j]);
    }
    assert forall|a: int| 0 <= a < out_new.len() && is_renamed(#[trigger] out_new[a])
        implies exists|j: int|
        0 <= j < removed.len() && #[trigger] consumed[j] && renamed_old(out_new[a])
            == removed[j] by {
        assert(a < n);
        assert(out_new[a] == out_old[a]);
    }
}

/// Pushing the record of the target chunk under scan completes the
/// processed prefix.
proof fn lemma_tc_push(
    rs: Seq<WadChunk>,
    ts: Seq<WadChunk>,
    out_old: Seq<ChunkDiff>,
    out_new: Seq<ChunkDiff>,
    k: int,
    rec: ChunkDiff,
)
    requires
        0 <= k < ts.len(),
        out_new == out_old.push(rec),
        new_hash_of(rec) == Some(ts[k].path_hash),
        forall|b: int|
            0 <= b < k && !has_hash(rs, (#[trigger] ts[b]).path_hash) ==> exists|a: int|
                0 <= a < out_old.len() && new_hash_of(#[trigger] out_old[a]) == Some(
                    ts[b].path_hash,
                ),
    ensures
        forall|b: int|
            0 <= b < k + 1 && !has_hash(rs, (#[trigger] ts[b]).path_hash) ==> exists|a: int|
                0 <= a < out_new.len() && new_hash_of(#[trigger] out_new[a]) == Some(
                    ts[b].path_hash,
                ),
{
    let n = out_old.len() as int;
    assert forall|b: int| 0 <= b < k + 1 && !has_hash(rs, (#[trigger] ts[b]).path_hash)
        implies exists|a: int|
        0 <= a < out_new.len() && new_hash_of(#[trigger] out_new[a]) == Some(ts[b].path_hash) by {
        if b < k {
            let a = choose|a: int|
                0 <= a < out_old.len() && new_hash_of(#[trigger] out_old[a]) == Some(
                    ts[b].path_hash,
                );
            assert(out_new[a] == out_old[a]);
            assert(new_hash_of(out_new[a]) == Some(ts[b].path_hash));
        } else {
            assert(new_hash_of(out_new[n]) == Some(ts[k].path_hash));
        }
    }
}

/// After pushing a rename for the chunk under scan, every shared checksum
/// over the processed prefix keeps a rename record.
proof fn lemma_j4_after_rename(
    rs: Seq<WadChunk>,
    ts: Seq<WadChunk>,
    out_old: Seq<ChunkDiff>,
    out_new: Seq<ChunkDiff>,
    removed: Seq<WadChunk>,
    k: int,
    rec: ChunkDiff,
)
    requires
        0 <= k < ts.len(),
        out_new == out_old.push(rec),
        is_renamed(rec),
        renamed_old(rec).checksum == ts[k].checksum,
        forall|bt: int, j2: int|
            #![trigger ts[bt], removed[j2]]
            0 <= bt < k && 0 <= j2 < removed.len() && !has_hash(rs, ts[bt].path_hash)
                && removed[j2].checksum == ts[bt].checksum ==> exists|a: int|
                0 <= a < out_old.len() && is_renamed(#[trigger] out_old[a]) && renamed_old(
                    out_old[a],
                ).checksum == ts[bt].checksum,
    ensures
        forall|bt: int, j2: int|
            #![trigger ts[bt], removed[j2]]
            0 <= bt < k + 1 && 0 <= j2 < removed.len() && !has_hash(rs, ts[bt].path_hash)
                && removed[j2].checksum == ts[bt].checksum ==> exists|a: int|
                0 <= a < out_new.len() && is_renamed(#[trigger] out_new[a]) && renamed_old(
                    out_new[a],
                ).checksum == ts[bt].checksum,
{
    let n = out_old.len() as int;
    assert forall|bt: int, j2: int|
        #![trigger ts[bt], removed[j2]]
        0 <= bt < k + 1 && 0 <= j2 < removed.len() && !has_hash(rs, ts[bt].path_hash)
            && removed[j2].checksum == ts[bt].checksum implies exists|a: int|
        0 <= a < out_new.len() && is_renamed(#[trigger] out_new[a]) && renamed_old(
            out_new[a],
        ).checksum == ts[bt].checksum by {
        if bt < k {
            let a = choose|a: int|
                0 <= a < out_old.len() && is_renamed(#[trigger] out_old[a]) && renamed_old(
                    out_old[a],
                ).checksum == ts[bt].checksum;
            assert(out_new[a] == out_old[a]);
            assert(is_renamed(out_new[a]) && renamed_old(out_new[a]).checksum == ts[bt].checksum);
        } else {
            assert(out_new[n] == rec);
            assert(is_renamed(out_new[n]) && renamed_old(out_new[n]).checksum == ts[k].checksum);
        }
    }
}

/// When no unconsumed candidate matched the chunk under scan, any candidate
/// sharing its checksum was already consumed by an earlier rename.
proof fn lemma_j4_after_new(
    rs: Seq<WadChunk>,
    ts: Seq<WadChunk>,
    out_old: Seq<ChunkDiff>,
    out_new: Seq<ChunkDiff>,
    removed: Seq<WadChunk>,
    consumed: Seq<bool>,
    k: int,
    c: WadChunk,
)
    requires
        0 <= k < ts.len(),
        ts[k] == c,
        consumed.len() == removed.len(),
        out_new == out_old.push(ChunkDiff::New(c)),
        forall|jj: int|
            0 <= jj < removed.len() ==> (#[trigger] consumed[jj] || removed[jj].checksum
                != c.checksum),
        forall|j: int|
            0 <= j < removed.len() && #[trigger] consumed[j] ==> exists|a: int|
                0 <= a < out_old.len() && is_renamed(#[trigger] out_old[a]) && renamed_old(
                    out_old[a],
                ) == removed[j],
        forall|bt: int, j2: int|
            #![trigger ts[bt], removed[j2]]
            0 <= bt < k && 0 <= j2 < removed.len() && !has_hash(rs, ts[bt].path_hash)
                && removed[j2].checksum == ts[bt].checksum ==> exists|a: int|
                0 <= a < out_old.len() && is_renamed(#[trigger] out_old[a]) && renamed_old(
                    out_old[a],
                ).checksum == ts[bt].checksum,
    ensures
        forall|bt: int, j2: int|
            #![trigger ts[bt], removed[j2]]
            0 <= bt < k + 1 && 0 <= j2 < removed.len() && !has_hash(rs, ts[bt].path_hash)
                && removed[j2].checksum == ts[bt].checksum ==> exists|a: int|
                0 <= a < out_new.len() && is_renamed(#[trigger] out_new[a]) && renamed_old(
                    out_new[a],
                ).checksum == ts[bt].checksum,
{
    assert forall|bt: int, j2: int|
        #![trigger ts[bt], removed[j2]]
        0 <= bt < k + 1 && 0 <= j2 < removed.len() && !has_hash(rs, ts[bt].path_hash)
            && removed[j2].checksum == ts[bt].checksum implies exists|a: int|
        0 <= a < out_new.len() && is_renamed(#[trigger] out_new[a]) && renamed_old(
            out_new[a],
        ).checksum == ts[bt].checksum by {
        if bt < k {
            let a = choose|a: int|
                0 <= a < out_old.len() && is_renamed(#[trigger] out_old[a]) && renamed_old(
                    out_old[a],
                ).checksum == ts[bt].checksum;
            assert(out_new[a] == out_old[a]);
            assert(is_renamed(out_new[a]) && renamed_old(out_new[a]).checksum == ts[bt].checksum);
        } else {
            assert(consumed[j2]);
            let a = choose|a: int|
                0 <= a < out_old.len() && is_renamed(#[trigger] out_old[a]) && renamed_old(
                    out_old[a],
                ) == removed[j2];
            assert(out_new[a] == out_old[a]);
            assert(is_renamed(out_new[a]) && renamed_old(out_new[a]).checksum == ts[bt].checksum);
        }
    }
}

/// Re-establishes the third-pass invariants after pushing a removal.
#[verifier::spinoff_prover]
#[verifier::rlimit(40)]
proof fn removed_push_reestablish(
    rs: Seq<WadChunk>,
    ts: Seq<WadChunk>,
    out_old: Seq<ChunkDiff>,
    out_new: Seq<ChunkDiff>,
    removed: Seq<WadChunk>,
    consumed: Seq<bool>,
    j: int,
)
    requires
        uniq_hashes(rs),
        uniq_hashes(ts),
        consumed.len() == removed.len(),
        0 <= j < removed.len(),
        !consumed[j],
        out_new == out_old.push(ChunkDiff::Removed(removed[j])),
        forall|a: int|
            0 <= a < removed.len() ==> rs.contains(#[trigger] removed[a]) && !has_hash(
                ts,
                removed[a].path_hash,
            ),
        forall|a: int, b: int|
            0 <= a < b < removed.len() ==> (#[trigger] removed[a]).path_hash != (
            #[trigger] removed[b]).path_hash,
        all_sound(rs, ts, out_old),
        old_hashes_distinct(out_old),
        new_hashes_distinct(out_old),
        forall|jj: int|
            0 <= jj < removed.len() && #[trigger] consumed[jj] ==> exists|a: int|
                0 <= a < out_old.len() && is_renamed(#[trigger] out_old[a]) && renamed_old(
                    out_old[a],
                ) == removed[jj],
        forall|a: int|
            0 <= a < out_old.len() && is_renamed(#[trigger] out_old[a]) ==> exists|jj: int|
                0 <= jj < removed.len() && #[trigger] consumed[jj] && renamed_old(out_old[a])
                    == removed[jj],
        forall|a: int|
            0 <= a < out_old.len() && is_removed(#[trigger] out_old[a]) ==> exists|jj: int|
                0 <= jj < j && !(#[trigger] consumed[jj]) && removed_chunk(out_old[a])
                    == removed[jj],
        forall|b: int|
            0 <= b < ts.len() && !has_hash(rs, (#[trigger] ts[b]).path_hash) ==> exists|a: int|
                0 <= a < out_old.len() && new_hash_of(#[trigger] out_old[a]) == Some(
                    ts[b].path_hash,
                ),
        forall|bt: int, j2: int|
            #![trigger ts[bt], removed[j2]]
            0 <= bt < ts.len() && 0 <= j2 < removed.len() && !has_hash(rs, ts[bt].path_hash)
                && removed[j2].checksum == ts[bt].checksum ==> exists|a: int|
                0 <= a < out_old.len() && is_renamed(#[trigger] out_old[a]) && renamed_old(
                    out_old[a],
                ).checksum == ts[bt].checksum,
    ensures
        all_sound(rs, ts, out_new),
        old_hashes_distinct(out_new),
        new_hashes_distinct(out_new),
        forall|jj: int|
            0 <= jj < removed.len() && #[trigger] consumed[jj] ==> exists|a: int|
                0 <= a < out_new.len() && is_renamed(#[trigger] out_new[a]) && renamed_old(
                    out_new[a],
                ) == removed[jj],
        forall|a: int|
            0 <= a < out_new.len() && is_renamed(#[trigger] out_new[a]) ==> exists|jj: int|
                0 <= jj < removed.len() && #[trigger] consumed[jj] && renamed_old(out_new[a])
                    == removed[jj],
        forall|a: int|
            0 <= a < out_new.len() && is_removed(#[trigger] out_new[a]) ==> exists|jj: int|
                0 <= jj < j + 1 && !(#[trigger] consumed[jj]) && removed_chunk(out_new[a])
                    == removed[jj],
        out_new.contains(ChunkDiff::Removed(removed[j])),
        forall|b: int|
            0 <= b < ts.len() && !has_hash(rs, (#[trigger] ts[b]).path_hash) ==> exists|a: int|
                0 <= a < out_new.len() && new_hash_of(#[trigger] out_new[a]) == Some(
                    ts[b].path_hash,
                ),
        forall|bt: int, j2: int|
            #![trigger ts[bt], removed[j2]]
            0 <= bt < ts.len() && 0 <= j2 < removed.len() && !has_hash(rs, ts[bt].path_hash)
                && removed[j2].checksum == ts[bt].checksum ==> exists|a: int|
                0 <= a < out_new.len() && is_renamed(#[trigger] out_new[a]) && renamed_old(
                    out_new[a],
                ).checksum == ts[bt].checksum,
{
    let n = out_old.len() as int;
    let rec = ChunkDiff::Removed(removed[j]);
    assert(out_new[n] == rec);
    assert(record_sound(rs, ts, rec));
    assert forall|a: int| 0 <= a < n implies !(old_hash_of(#[trigger] out_old[a]) is Some
        && old_hash_of(out_old[a]) == Some(removed[j].path_hash)) by {
        if old_hash_of(out_old[a]) is Some {
            match out_old[a] {
                ChunkDiff::Modified { .. } => {
                    lemma_modified_in_both(rs, ts, out_old[a]);
                },
                ChunkDiff::Renamed { .. } => {
                    let jj = choose|jj: int|
                        0 <= jj < removed.len() && #[trigger] consumed[jj] && renamed_old(
                            out_old[a],
                        ) == removed[jj];
                    assert(jj != j);
                    if jj < j {
                        assert(removed[jj].path_hash != removed[j].path_hash);
                    } else {
                        assert(removed[j].path_hash != removed[jj].path_hash);
                    }
                },
                ChunkDiff::Removed(_) => {
                    let jj = choose|jj: int|
                        0 <= jj < j && !(#[trigger] consumed[jj]) && removed_chunk(out_old[a])
                            == removed[jj];
                    assert(jj != j);
                    assert(removed[jj].path_hash != removed[j].path_hash);
                },
                _ => {},
            }
        }
    }
    assert forall|a: int| 0 <= a < out_new.len() && is_renamed(#[trigger] out_new[a])
        implies exists|jj: int|
        0 <= jj < removed.len() && #[trigger] consumed[jj] && renamed_old(out_new[a])
            == removed[jj] by {
        assert(a < n);
        let jj = choose|jj: int|
            0 <= jj < removed.len() && #[trigger] consumed[jj] && renamed_old(out_old[a])
                == removed[jj];
        assert(out_new[a] == out_old[a]);
    }
    assert forall|jj: int| 0 <= jj < removed.len() && #[trigger] consumed[jj] implies exists|
        a: int,
    |
        0 <= a < out_new.len() && is_renamed(#[trigger] out_new[a]) && renamed_old(out_new[a])
            == removed[jj] by {
        let a = choose|a: int|
            0 <= a < out_old.len() && is_renamed(#[trigger] out_old[a]) && renamed_old(out_old[a])
                == removed[jj];
        assert(out_new[a] == out_old[a]);
        assert(is_renamed(out_new[a]) && renamed_old(out_new[a]) == removed[jj]);
    }
    assert forall|a: int| 0 <= a < out_new.len() && is_removed(#[trigger] out_new[a])
        implies exists|jj: int|
        0 <= jj < j + 1 && !(#[trigger] consumed[jj]) && removed_chunk(out_new[a])
            == removed[jj] by {
        if a < n {
            let jj = choose|jj: int|
                0 <= jj < j && !(#[trigger] consumed[jj]) && removed_chunk(out_old[a])
                    == removed[jj];
            assert(out_new[a] == out_old[a]);
            assert(0 <= jj < j + 1 && !consumed[jj] && removed_chunk(out_new[a]) == removed[jj]);
        } else {
            assert(!consumed[j] && removed_chunk(out_new[a]) == removed[j]);
        }
    }
    assert forall|b: int| 0 <= b < ts.len() && !has_hash(rs, (#[trigger] ts[b]).path_hash)
        implies exists|a: int|
        0 <= a < out_new.len() && new_hash_of(#[trigger] out_new[a]) == Some(ts[b].path_hash) by {
        let a = choose|a: int|
            0 <= a < out_old.len() && new_hash_of(#[trigger] out_old[a]) == Some(ts[b].path_hash);
        assert(out_new[a] == out_old[a]);
        assert(new_hash_of(out_new[a]) == Some(ts[b].path_hash));
    }
    assert forall|bt: int, j2: int|
        #![trigger ts[bt], removed[j2]]
        0 <= bt < ts.len() && 0 <= j2 < removed.len() && !has_hash(rs, ts[bt].path_hash)
            && removed[j2].checksum == ts[bt].checksum implies exists|a: int|
        0 <= a < out_new.len() && is_renamed(#[trigger] out_new[a]) && renamed_old(
            out_new[a],
        ).checksum == ts[bt].checksum by {
        let a = choose|a: int|
            0 <= a < out_old.len() && is_renamed(#[trigger] out_old[a]) && renamed_old(
                out_old[a],
            ).checksum == ts[bt].checksum;
        assert(out_new[a] == out_old[a]);
        assert(is_renamed(out_new[a]) && renamed_old(out_new[a]).checksum == ts[bt].checksum);
    }
}

} // verus!
