//! Reporting: the tabular diff export records, the per-chunk listing with
//! compression ratios and container totals, and human-readable size
//! formatting.  Writing any of it out stays with the caller.

use vstd::multiset::Multiset;
use vstd::prelude::*;
use vstd::string::StringExecFns;

use crate::chunk::{compression_ratio_pct, ratio_pct, WadChunk};
use crate::diff::ChunkDiff;
use crate::extract::{file_name_of, has_extension, last_idx};
use crate::filter::{pattern_admits, PathFilter};
use crate::hashtable::WadHashtable;
use crate::hex::{format_chunk_path_hash, hex_str_of};
use crate::kind::{from_extension_spec, FileKind};
use crate::strutil::{lemma_lex_total, lemma_lex_trans, lex_le, str_le, u64_to_dec, u64_to_dec2};
use crate::strutil::{dec2_str_of, dec_str_of};

verus! {

broadcast use vstd::multiset::group_multiset_axioms;

/// The resolved path of a hash: the stored path, or the hexadecimal
/// fallback.
pub open spec fn resolved(m: Map<u64, Seq<char>>, h: u64) -> Seq<char> {
    if m.contains_key(h) {
        m[h]
    } else {
        hex_str_of(h)
    }
}

/// One row of the tabular diff export.
#[derive(Debug, Clone)]
pub struct ChunkDiffCsvRecord {
    pub diff_type: String,
    pub hash: String,
    pub path: String,
    pub new_path: String,
    pub old_uncompressed_size: u64,
    pub new_uncompressed_size: u64,
}

/// The tag of a diff record in the export.
pub open spec fn diff_type_str(d: ChunkDiff) -> Seq<char> {
    match d {
        ChunkDiff::New(_) => "new"@,
        ChunkDiff::Removed(_) => "removed"@,
        ChunkDiff::Modified { .. } => "modified"@,
        ChunkDiff::Renamed { .. } => "renamed"@,
    }
}

/// The hash a diff record is keyed by in the export: the reference-side
/// chunk's hash, or the new chunk's for an addition.
pub open spec fn primary_chunk(d: ChunkDiff) -> WadChunk {
    match d {
        ChunkDiff::New(c) => c,
        ChunkDiff::Removed(c) => c,
        ChunkDiff::Modified { old_chunk, .. } => old_chunk,
        ChunkDiff::Renamed { old_chunk, .. } => old_chunk,
    }
}

pub open spec fn secondary_chunk(d: ChunkDiff) -> WadChunk {
    match d {
        ChunkDiff::New(c) => c,
        ChunkDiff::Removed(c) => c,
        ChunkDiff::Modified { new_chunk, .. } => new_chunk,
        ChunkDiff::Renamed { new_chunk, .. } => new_chunk,
    }
}

/// One export row carries its record's tag, hashes, resolved paths and
/// uncompressed sizes.
pub open spec fn csv_record_matches(
    m: Map<u64, Seq<char>>,
    d: ChunkDiff,
    rec: ChunkDiffCsvRecord,
) -> bool {
    &&& rec.diff_type@ == diff_type_str(d)
    &&& rec.hash@ == hex_str_of(primary_chunk(d).path_hash)
    &&& rec.path@ == resolved(m, primary_chunk(d).path_hash)
    &&& rec.new_path@ == (match d {
        ChunkDiff::Renamed { new_chunk, .. } => resolved(m, new_chunk.path_hash),
        _ => Seq::<char>::empty(),
    })
    &&& rec.old_uncompressed_size == primary_chunk(d).uncompressed_size
    &&& rec.new_uncompressed_size == secondary_chunk(d).uncompressed_size
}

/// Builds one export row per diff record, in order.
pub fn create_csv_records(diffs: &Vec<ChunkDiff>, hashtable: &WadHashtable) -> (r: Vec<
    ChunkDiffCsvRecord,
>)
    ensures
        r@.len() == diffs@.len(),
        forall|i: int|
            0 <= i < diffs@.len() ==> csv_record_matches(
                hashtable.model(),
                diffs@[i],
                #[trigger] r@[i],
            ),
{
    let mut out: Vec<ChunkDiffCsvRecord> = Vec::new();
    let mut i: usize = 0;
    while i < diffs.len()
        invariant
            0 <= i <= diffs@.len(),
            out@.len() == i,
            forall|j: int|
                0 <= j < i ==> csv_record_matches(
                    hashtable.model(),
                    diffs@[j],
                    #[trigger] out@[j],
                ),
        decreases diffs@.len() - i,
    {
        let d = diffs[i];
        let diff_type: String = match d {
            ChunkDiff::New(_) => String::from_str("new"),
            ChunkDiff::Removed(_) => String::from_str("removed"),
            ChunkDiff::Modified { .. } => String::from_str("modified"),
            ChunkDiff::Renamed { .. } => String::from_str("renamed"),
        };
        let (primary, secondary): (WadChunk, WadChunk) = match d {
            ChunkDiff::New(c) => (c, c),
            ChunkDiff::Removed(c) => (c, c),
            ChunkDiff::Modified { old_chunk, new_chunk } => (old_chunk, new_chunk),
            ChunkDiff::Renamed { old_chunk, new_chunk } => (old_chunk, new_chunk),
        };
        let new_path: String = match d {
            ChunkDiff::Renamed { new_chunk, .. } => hashtable.resolve_path(new_chunk.path_hash),
            _ => String::new(),
        };
        let rec = ChunkDiffCsvRecord {
            diff_type,
            hash: format_chunk_path_hash(primary.path_hash),
            path: hashtable.resolve_path(primary.path_hash),
            new_path,
            old_uncompressed_size: primary.uncompressed_size,
            new_uncompressed_size: secondary.uncompressed_size,
        };
        out.push(rec);
        i = i + 1;
    }
    out
}

pub open spec fn csv_sorted_by_path(s: Seq<ChunkDiffCsvRecord>) -> bool {
    forall|i: int, j: int|
        0 <= i < j < s.len() ==> lex_le((#[trigger] s[i]).path@, (#[trigger] s[j]).path@)
}

/// Sorts the export rows by resolved path ascending; the rows themselves
/// are kept, only reordered.
pub fn sort_csv_records(records: Vec<ChunkDiffCsvRecord>) -> (r: Vec<ChunkDiffCsvRecord>)
    ensures
        csv_sorted_by_path(r@),
        r@.to_multiset() == records@.to_multiset(),
{
    let ghost orig = records@;
    let mut work = records;
    let mut out: Vec<ChunkDiffCsvRecord> = Vec::new();
    proof {
        lemma_empty_records_multiset(out@);
    }
    while work.len() > 0
        invariant
            csv_sorted_by_path(out@),
            out@.to_multiset().add(work@.to_multiset()) =~= orig.to_multiset(),
        decreases work@.len(),
    {
        let ghost work_pre = work@;
        let x = work.remove(0);
        proof {
            vstd::seq_lib::to_multiset_remove(work_pre, 0);
            work_pre.to_multiset_ensures();
            assert(work_pre.contains(x)) by {
                assert(work_pre[0] == x);
            }
        }
        let mut p: usize = 0;
        while p < out.len() && str_le(out[p].path.as_str(), x.path.as_str())
            invariant
                0 <= p <= out@.len(),
                forall|q: int| 0 <= q < p ==> lex_le((#[trigger] out@[q]).path@, x.path@),
            decreases out@.len() - p,
        {
            p = p + 1;
        }
        proof {
            if p < out@.len() {
                lemma_lex_total(out@[p as int].path@, x.path@);
            }
        }
        let ghost out_pre = out@;
        out.insert(p, x);
        proof {
            vstd::seq_lib::to_multiset_insert(out_pre, p as int, x);
            assert forall|i: int, j: int|
                0 <= i < j < out@.len() implies lex_le(
                (#[trigger] out@[i]).path@,
                (#[trigger] out@[j]).path@,
            ) by {
                if j < p {
                    assert(out@[i] == out_pre[i] && out@[j] == out_pre[j]);
                } else if j == p {
                    assert(out@[i] == out_pre[i]);
                    assert(lex_le(out_pre[i].path@, x.path@));
                } else {
                    assert(out@[j] == out_pre[j - 1]);
                    if i < p {
                        assert(out@[i] == out_pre[i]);
                        if p <= j - 1 && p < out_pre.len() {
                            assert(lex_le(out_pre[i].path@, out_pre[j - 1].path@));
                        } else {
                            assert(lex_le(out_pre[i].path@, out_pre[j - 1].path@));
                        }
                    } else if i == p {
                        assert(p < out_pre.len() ==> lex_le(x.path@, out_pre[p as int].path@));
                        if (p as int) < j - 1 {
                            assert(lex_le(out_pre[p as int].path@, out_pre[j - 1].path@));
                            lemma_lex_trans(x.path@, out_pre[p as int].path@, out_pre[j - 1].path@);
                        }
                    } else {
                        assert(out@[i] == out_pre[i - 1]);
                        assert(lex_le(out_pre[i - 1].path@, out_pre[j - 1].path@));
                    }
                }
            }
            assert(out@.to_multiset().add(work@.to_multiset()) =~= orig.to_multiset());
        }
    }
    proof {
        lemma_empty_records_multiset(work@);
        assert(out@.to_multiset() =~= orig.to_multiset());
    }
    out
}

/// An empty row sequence carries the empty multiset.
proof fn lemma_empty_records_multiset(s: Seq<ChunkDiffCsvRecord>)
    requires
        s.len() == 0,
    ensures
        s.to_multiset() =~= Multiset::<ChunkDiffCsvRecord>::empty(),
{
    s.to_multiset_ensures();
    assert forall|a: ChunkDiffCsvRecord|
        s.to_multiset().count(a) == Multiset::<ChunkDiffCsvRecord>::empty().count(a) by {
        assert(!s.contains(a));
    }
}


/// The extension the listing classifies a path by: the file name's part
/// after its last dot, or nothing.
pub open spec fn listed_ext(p: Seq<char>) -> Seq<char> {
    if has_extension(p) {
        file_name_of(p).skip(last_idx(file_name_of(p), '.') + 1)
    } else {
        Seq::empty()
    }
}

/// The kind the listing assigns a hash: inferred from the resolved path's
/// extension.
pub open spec fn listed_kind(m: Map<u64, Seq<char>>, h: u64) -> FileKind {
    from_extension_spec(listed_ext(resolved(m, h)))
}

/// Whether the listing's filters admit a chunk: the pattern filter on its
/// resolved path and the kind filter on its extension-inferred kind, both.
pub open spec fn listed(
    m: Map<u64, Seq<char>>,
    pat: Option<Seq<char>>,
    ft: Option<&Vec<FileKind>>,
    c: WadChunk,
) -> bool {
    &&& match pat {
        None => true,
        Some(p) => pattern_admits(p, resolved(m, c.path_hash)),
    }
    &&& crate::extract::kind_admitted(ft, listed_kind(m, c.path_hash))
}

/// One listed chunk.
#[derive(Debug, Clone)]
pub struct ChunkInfo {
    pub hash: String,
    pub path: String,
    pub file_type: String,
    pub compressed_size: u64,
    pub uncompressed_size: u64,
    pub compression_ratio_pct: u64,
}

/// The mathematical content of one listed row.
pub open spec fn info_model(rec: ChunkInfo) -> (Seq<char>, Seq<char>, Seq<char>, u64, u64, u64) {
    (
        rec.hash@,
        rec.path@,
        rec.file_type@,
        rec.compressed_size,
        rec.uncompressed_size,
        rec.compression_ratio_pct,
    )
}

/// What one chunk's listed row must hold.
pub open spec fn chunk_model(m: Map<u64, Seq<char>>, c: WadChunk) -> (
    Seq<char>,
    Seq<char>,
    Seq<char>,
    u64,
    u64,
    u64,
) {
    (
        hex_str_of(c.path_hash),
        resolved(m, c.path_hash),
        kind_name_spec(listed_kind(m, c.path_hash)),
        c.compressed_size,
        c.uncompressed_size,
        ratio_pct(c.compressed_size, c.uncompressed_size) as u64,
    )
}

/// The display name of each kind.
pub open spec fn kind_name_spec(k: FileKind) -> Seq<char> {
    match k {
        FileKind::Animation => "Animation"@,
        FileKind::Jpeg => "Jpeg"@,
        FileKind::LightGrid => "LightGrid"@,
        FileKind::LuaObj => "LuaObj"@,
        FileKind::MapGeometry => "MapGeometry"@,
        FileKind::Png => "Png"@,
        FileKind::Tga => "Tga"@,
        FileKind::Preload => "Preload"@,
        FileKind::PropertyBin => "PropertyBin"@,
        FileKind::PropertyBinOverride => "PropertyBinOverride"@,
        FileKind::RiotStringTable => "RiotStringTable"@,
        FileKind::SimpleSkin => "SimpleSkin"@,
        FileKind::Skeleton => "Skeleton"@,
        FileKind::StaticMeshAscii => "StaticMeshAscii"@,
        FileKind::StaticMeshBinary => "StaticMeshBinary"@,
        FileKind::Svg => "Svg"@,
        FileKind::Texture => "Texture"@,
        FileKind::TextureDds => "TextureDds"@,
        FileKind::Unknown => "Unknown"@,
        FileKind::WorldGeometry => "WorldGeometry"@,
        FileKind::WwiseBank => "WwiseBank"@,
        FileKind::WwisePackage => "WwisePackage"@,
    }
}

/// The display name of a kind.
pub fn kind_name(k: FileKind) -> (r: &'static str)
    ensures
        r@ == kind_name_spec(k),
{
    match k {
        FileKind::Animation => "Animation",
        FileKind::Jpeg => "Jpeg",
        FileKind::LightGrid => "LightGrid",
        FileKind::LuaObj => "LuaObj",
        FileKind::MapGeometry => "MapGeometry",
        FileKind::Png => "Png",
        FileKind::Tga => "Tga",
        FileKind::Preload => "Preload",
        FileKind::PropertyBin => "PropertyBin",
        FileKind::PropertyBinOverride => "PropertyBinOverride",
        FileKind::RiotStringTable => "RiotStringTable",
        FileKind::SimpleSkin => "SimpleSkin",
        FileKind::Skeleton => "Skeleton",
        FileKind::StaticMeshAscii => "StaticMeshAscii",
        FileKind::StaticMeshBinary => "StaticMeshBinary",
        FileKind::Svg => "Svg",
        FileKind::Texture => "Texture",
        FileKind::TextureDds => "TextureDds",
        FileKind::Unknown => "Unknown",
        FileKind::WorldGeometry => "WorldGeometry",
        FileKind::WwiseBank => "WwiseBank",
        FileKind::WwisePackage => "WwisePackage",
    }
}

/// The listing extension of a resolved path.
fn ext_of_path(path: &str) -> (r: String)
    ensures
        r@ == listed_ext(path@),
{
    let n = path.unicode_len();
    proof {
        crate::extract::lemma_last_idx(path@, '/');
    }
    let start: usize = match crate::extract::find_last(path, '/') {
        Some(i) => i + 1,
        None => 0,
    };
    let name = path.substring_char(start, n);
    proof {
        assert(name@ =~= file_name_of(path@));
        crate::extract::lemma_last_idx(name@, '.');
    }
    match crate::extract::find_last(name, '.') {
        Some(d) => {
            if d > 0 {
                let e = name.substring_char(d + 1, name.unicode_len());
                proof {
                    assert(e@ =~= listed_ext(path@));
                }
                e.to_owned()
            } else {
                String::new()
            }
        },
        None => String::new(),
    }
}

/// Builds the listed row of one chunk.
pub fn chunk_info_of(c: &WadChunk, hashtable: &WadHashtable) -> (r: ChunkInfo)
    ensures
        info_model(r) == chunk_model(hashtable.model(), *c),
{
    let path = hashtable.resolve_path(c.path_hash);
    let ext = ext_of_path(path.as_str());
    let kind = FileKind::from_extension(ext.as_str());
    let ratio = compression_ratio_pct(c.compressed_size, c.uncompressed_size);
    ChunkInfo {
        hash: format_chunk_path_hash(c.path_hash),
        path,
        file_type: String::from_str(kind_name(kind)),
        compressed_size: c.compressed_size,
        uncompressed_size: c.uncompressed_size,
        compression_ratio_pct: ratio,
    }
}

/// Sum of the compressed sizes of a snapshot's chunks.
pub open spec fn sum_comp(s: Seq<WadChunk>) -> int
    decreases s.len(),
{
    if s.len() == 0 {
        0
    } else {
        sum_comp(s.drop_last()) + s.last().compressed_size
    }
}

/// Sum of the uncompressed sizes of a snapshot's chunks.
pub open spec fn sum_unc(s: Seq<WadChunk>) -> int
    decreases s.len(),
{
    if s.len() == 0 {
        0
    } else {
        sum_unc(s.drop_last()) + s.last().uncompressed_size
    }
}

proof fn lemma_sum_nonneg(s: Seq<WadChunk>)
    ensures
        sum_comp(s) >= 0,
        sum_unc(s) >= 0,
    decreases s.len(),
{
    if s.len() > 0 {
        lemma_sum_nonneg(s.drop_last());
    }
}

proof fn lemma_sum_concat(a: Seq<WadChunk>, b: Seq<WadChunk>)
    ensures
        sum_comp(a + b) == sum_comp(a) + sum_comp(b),
        sum_unc(a + b) == sum_unc(a) + sum_unc(b),
    decreases b.len(),
{
    if b.len() == 0 {
        assert(a + b =~= a);
    } else {
        lemma_sum_concat(a, b.drop_last());
        assert((a + b).drop_last() =~= a + b.drop_last());
        assert((a + b).last() == b.last());
    }
}

/// A filtered snapshot's sums never exceed the whole snapshot's.
proof fn lemma_sum_filter_le(s: Seq<WadChunk>, p: spec_fn(WadChunk) -> bool)
    ensures
        0 <= sum_comp(s.filter(p)) <= sum_comp(s),
        0 <= sum_unc(s.filter(p)) <= sum_unc(s),
    decreases s.len(),
{
    lemma_sum_nonneg(s);
    lemma_sum_nonneg(s.filter(p));
    if s.len() > 0 {
        let t = s.drop_last();
        let x = s.last();
        lemma_sum_filter_le(t, p);
        t.lemma_filter_push(x, p);
        assert(t.push(x) =~= s);
        if p(x) {
            assert(s.filter(p) == t.filter(p).push(x));
            assert(s.filter(p).drop_last() =~= t.filter(p));
        } else {
            assert(s.filter(p) == t.filter(p));
        }
    }
}


/// Collects the listed rows of the admitted chunks, in snapshot order, with
/// the admitted chunks' total sizes.
pub fn collect_chunk_infos(
    chunks: &Vec<WadChunk>,
    hashtable: &WadHashtable,
    path_filter: &PathFilter,
    filter_type: Option<&Vec<FileKind>>,
) -> (r: (Vec<ChunkInfo>, u64, u64))
    requires
        sum_comp(chunks@) <= u64::MAX,
        sum_unc(chunks@) <= u64::MAX,
    ensures
        r.0@.map_values(|rec: ChunkInfo| info_model(rec)) == chunks@.filter(
            |c: WadChunk| listed(hashtable.model(), path_filter.model(), filter_type, c),
        ).map_values(|c: WadChunk| chunk_model(hashtable.model(), c)),
        r.1 == sum_comp(
            chunks@.filter(
                |c: WadChunk| listed(hashtable.model(), path_filter.model(), filter_type, c),
            ),
        ),
        r.2 == sum_unc(
            chunks@.filter(
                |c: WadChunk| listed(hashtable.model(), path_filter.model(), filter_type, c),
            ),
        ),
{
    let ghost cl = |c: WadChunk| listed(hashtable.model(), path_filter.model(), filter_type, c);
    let ghost cm = |c: WadChunk| chunk_model(hashtable.model(), c);
    let ghost im = |rec: ChunkInfo| info_model(rec);
    let mut out: Vec<ChunkInfo> = Vec::new();
    let mut total_comp: u64 = 0;
    let mut total_unc: u64 = 0;
    let mut i: usize = 0;
    proof {
        assert(chunks@.take(0) =~= Seq::<WadChunk>::empty());
        assert(out@.map_values(im) =~= chunks@.take(0).filter(cl).map_values(cm));
    }
    while i < chunks.len()
        invariant
            0 <= i <= chunks@.len(),
            sum_comp(chunks@) <= u64::MAX,
            sum_unc(chunks@) <= u64::MAX,
            cl == (|c: WadChunk| listed(hashtable.model(), path_filter.model(), filter_type, c)),
            cm == (|c: WadChunk| chunk_model(hashtable.model(), c)),
            im == (|rec: ChunkInfo| info_model(rec)),
            out@.map_values(im) == chunks@.take(i as int).filter(cl).map_values(cm),
            total_comp == sum_comp(chunks@.take(i as int).filter(cl)),
            total_unc == sum_unc(chunks@.take(i as int).filter(cl)),
        decreases chunks@.len() - i,
    {
        let c = chunks[i];
        let ghost pre = chunks@.take(i as int);
        proof {
            assert(pre.push(c) =~= chunks@.take(i as int + 1));
            pre.lemma_filter_push(c, cl);
            lemma_sum_filter_le(chunks@.take(i as int + 1), cl);
            lemma_take_sum_le(chunks@, i as int + 1);
            if cl(c) {
                assert(chunks@.take(i as int + 1).filter(cl).drop_last() =~= pre.filter(cl));
            }
        }
        let path = hashtable.resolve_path(c.path_hash);
        let pattern_ok = path_filter.matches(path.as_str());
        let mut admitted = false;
        if pattern_ok {
            let ext = ext_of_path(path.as_str());
            let kind = FileKind::from_extension(ext.as_str());
            if crate::extract::kind_filter_admits(filter_type, kind) {
                admitted = true;
                let info = chunk_info_of(&c, hashtable);
                let ghost out_pre = out@;
                out.push(info);
                proof {
                    out_pre.lemma_push_map_commute(im, info);
                    assert(out@.map_values(im) =~= out_pre.map_values(im).push(im(info)));
                    pre.filter(cl).lemma_push_map_commute(cm, c);
                    assert(chunks@.take(i as int + 1).filter(cl).map_values(cm)
                        =~= pre.filter(cl).map_values(cm).push(cm(c)));
                }
                total_comp = total_comp + c.compressed_size;
                total_unc = total_unc + c.uncompressed_size;
            }
        }
        proof {
            assert(admitted == cl(c));
            if !cl(c) {
                assert(chunks@.take(i as int + 1).filter(cl) == pre.filter(cl));
            }
        }
        i = i + 1;
    }
    proof {
        assert(chunks@.take(chunks@.len() as int) =~= chunks@);
    }
    (out, total_comp, total_unc)
}

/// A prefix's sums never exceed the whole snapshot's.
proof fn lemma_take_sum_le(s: Seq<WadChunk>, i: int)
    requires
        0 <= i <= s.len(),
    ensures
        sum_comp(s.take(i)) <= sum_comp(s),
        sum_unc(s.take(i)) <= sum_unc(s),
{
    assert(s.take(i) + s.skip(i) =~= s);
    lemma_sum_concat(s.take(i), s.skip(i));
    lemma_sum_nonneg(s.skip(i));
}

pub open spec fn info_sorted_by_path(s: Seq<ChunkInfo>) -> bool {
    forall|i: int, j: int|
        0 <= i < j < s.len() ==> lex_le((#[trigger] s[i]).path@, (#[trigger] s[j]).path@)
}

/// Sorts the listed rows by path ascending; the rows themselves are kept,
/// only reordered.
pub fn sort_chunk_infos(records: Vec<ChunkInfo>) -> (r: Vec<ChunkInfo>)
    ensures
        info_sorted_by_path(r@),
        r@.to_multiset() == records@.to_multiset(),
{
    let ghost orig = records@;
    let mut work = records;
    let mut out: Vec<ChunkInfo> = Vec::new();
    proof {
        lemma_empty_infos_multiset(out@);
    }
    while work.len() > 0
        invariant
            info_sorted_by_path(out@),
            out@.to_multiset().add(work@.to_multiset()) =~= orig.to_multiset(),
        decreases work@.len(),
    {
        let ghost work_pre = work@;
        let x = work.remove(0);
        proof {
            vstd::seq_lib::to_multiset_remove(work_pre, 0);
            work_pre.to_multiset_ensures();
            assert(work_pre.contains(x)) by {
                assert(work_pre[0] == x);
            }
        }
        let mut p: usize = 0;
        while p < out.len() && str_le(out[p].path.as_str(), x.path.as_str())
            invariant
                0 <= p <= out@.len(),
                forall|q: int| 0 <= q < p ==> lex_le((#[trigger] out@[q]).path@, x.path@),
            decreases out@.len() - p,
        {
            p = p + 1;
        }
        proof {
            if p < out@.len() {
                lemma_lex_total(out@[p as int].path@, x.path@);
            }
        }
        let ghost out_pre = out@;
        out.insert(p, x);
        proof {
            vstd::seq_lib::to_multiset_insert(out_pre, p as int, x);
            assert forall|i: int, j: int|
                0 <= i < j < out@.len() implies lex_le(
                (#[trigger] out@[i]).path@,
                (#[trigger] out@[j]).path@,
            ) by {
                if j < p {
                    assert(out@[i] == out_pre[i] && out@[j] == out_pre[j]);
                } else if j == p {
                    assert(out@[i] == out_pre[i]);
                    assert(lex_le(out_pre[i].path@, x.path@));
                } else {
                    assert(out@[j] == out_pre[j - 1]);
                    if i < p {
                        assert(out@[i] == out_pre[i]);
                        assert(lex_le(out_pre[i].path@, out_pre[j - 1].path@));
                    } else if i == p {
                        assert(p < out_pre.len() ==> lex_le(x.path@, out_pre[p as int].path@));
                        if (p as int) < j - 1 {
                            assert(lex_le(out_pre[p as int].path@, out_pre[j - 1].path@));
                            lemma_lex_trans(x.path@, out_pre[p as int].path@, out_pre[j - 1].path@);
                        }
                    } else {
                        assert(out@[i] == out_pre[i - 1]);
                        assert(lex_le(out_pre[i - 1].path@, out_pre[j - 1].path@));
                    }
                }
            }
            assert(out@.to_multiset().add(work@.to_multiset()) =~= orig.to_multiset());
        }
    }
    proof {
        lemma_empty_infos_multiset(work@);
        assert(out@.to_multiset() =~= orig.to_multiset());
    }
    out
}

/// An empty row sequence carries the empty multiset.
proof fn lemma_empty_infos_multiset(s: Seq<ChunkInfo>)
    requires
        s.len() == 0,
    ensures
        s.to_multiset() =~= Multiset::<ChunkInfo>::empty(),
{
    s.to_multiset_ensures();
    assert forall|a: ChunkInfo|
        s.to_multiset().count(a) == Multiset::<ChunkInfo>::empty().count(a) by {
        assert(!s.contains(a));
    }
}

/// Two sequences holding one multiset of elements map to one multiset of
/// images.
proof fn lemma_map_values_multiset<A, B>(a: Seq<A>, b: Seq<A>, f: spec_fn(A) -> B)
    requires
        a.to_multiset() == b.to_multiset(),
    ensures
        a.map_values(f).to_multiset() == b.map_values(f).to_multiset(),
    decreases a.len(),
{
    a.to_multiset_ensures();
    b.to_multiset_ensures();
    a.map_values(f).to_multiset_ensures();
    b.map_values(f).to_multiset_ensures();
    if a.len() == 0 {
        assert(b.len() == 0);
        assert(a.map_values(f) =~= b.map_values(f));
    } else {
        let la = a.len() - 1;
        let x = a.last();
        assert(a.contains(x)) by {
            assert(a[la] == x);
        }
        assert(b.to_multiset().count(x) > 0);
        assert(b.contains(x));
        let j = choose|j: int| 0 <= j < b.len() && b[j] == x;
        vstd::seq_lib::to_multiset_remove(a, la);
        vstd::seq_lib::to_multiset_remove(b, j);
        assert(a.remove(la) =~= a.drop_last());
        assert(a.drop_last().to_multiset() == b.remove(j).to_multiset());
        lemma_map_values_multiset(a.drop_last(), b.remove(j), f);
        assert(a.drop_last().map_values(f) =~= a.map_values(f).remove(la));
        assert(b.remove(j).map_values(f) =~= b.map_values(f).remove(j));
        vstd::seq_lib::to_multiset_remove(a.map_values(f), la);
        vstd::seq_lib::to_multiset_remove(b.map_values(f), j);
        assert(a.map_values(f)[la] == f(x));
        assert(b.map_values(f)[j] == f(x));
        assert(a.map_values(f).contains(f(x))) by {
            assert(a.map_values(f)[la] == f(x));
        }
        assert(b.map_values(f).contains(f(x))) by {
            assert(b.map_values(f)[j] == f(x));
        }
        assert forall|y: B|
            a.map_values(f).to_multiset().count(y) == b.map_values(f).to_multiset().count(
                y,
            ) by {
            assert(a.map_values(f).to_multiset().remove(f(x)).count(y) == b.map_values(
                f,
            ).to_multiset().remove(f(x)).count(y));
        }
        assert(a.map_values(f).to_multiset() =~= b.map_values(f).to_multiset());
    }
}

/// The listing's output format.
#[derive(Clone, Copy, Debug)]
pub enum ListOutputFormat {
    /// Default human-readable table format.
    Table,
    /// Structured output for scripting.
    Json,
    /// Tabular output for spreadsheets.
    Csv,
    /// Simple flat list of paths only.
    Flat,
}

impl Default for ListOutputFormat {
    /// The default format: the table.
    fn default() -> (r: Self)
        ensures
            r == ListOutputFormat::Table,
    {
        ListOutputFormat::Table
    }
}

/// The listing report: the admitted chunks' rows, sorted by path, and the
/// container-level totals.
#[derive(Debug)]
pub struct ListOutput {
    pub wad_path: String,
    pub total_chunks: usize,
    pub matched_chunks: usize,
    pub total_compressed_size: u64,
    pub total_uncompressed_size: u64,
    pub overall_compression_ratio_pct: u64,
    pub chunks: Vec<ChunkInfo>,
}

/// Builds the whole listing report: one row per admitted chunk, sorted by
/// resolved path ascending, with the admitted chunks' total sizes and the
/// overall compression ratio over those totals.
pub fn build_list_output(
    wad_path: &str,
    chunks: &Vec<WadChunk>,
    hashtable: &WadHashtable,
    path_filter: &PathFilter,
    filter_type: Option<&Vec<FileKind>>,
) -> (r: ListOutput)
    requires
        sum_comp(chunks@) <= u64::MAX,
        sum_unc(chunks@) <= u64::MAX,
    ensures
        r.wad_path@ == wad_path@,
        r.total_chunks == chunks@.len(),
        r.matched_chunks == chunks@.filter(
            |c: WadChunk| listed(hashtable.model(), path_filter.model(), filter_type, c),
        ).len(),
        r.total_compressed_size == sum_comp(
            chunks@.filter(
                |c: WadChunk| listed(hashtable.model(), path_filter.model(), filter_type, c),
            ),
        ),
        r.total_uncompressed_size == sum_unc(
            chunks@.filter(
                |c: WadChunk| listed(hashtable.model(), path_filter.model(), filter_type, c),
            ),
        ),
        r.overall_compression_ratio_pct == ratio_pct(
            r.total_compressed_size,
            r.total_uncompressed_size,
        ),
        info_sorted_by_path(r.chunks@),
        r.chunks@.map_values(|rec: ChunkInfo| info_model(rec)).to_multiset() == chunks@.filter(
            |c: WadChunk| listed(hashtable.model(), path_filter.model(), filter_type, c),
        ).map_values(|c: WadChunk| chunk_model(hashtable.model(), c)).to_multiset(),
{
    let (infos, total_comp, total_unc) = collect_chunk_infos(
        chunks,
        hashtable,
        path_filter,
        filter_type,
    );
    let ghost infos_pre = infos@;
    let matched = infos.len();
    proof {
        let cl = |c: WadChunk| listed(hashtable.model(), path_filter.model(), filter_type, c);
        let cm = |c: WadChunk| chunk_model(hashtable.model(), c);
        let im = |rec: ChunkInfo| info_model(rec);
        assert(infos_pre.map_values(im).len() == chunks@.filter(cl).map_values(cm).len());
    }
    let sorted = sort_chunk_infos(infos);
    proof {
        let im = |rec: ChunkInfo| info_model(rec);
        lemma_map_values_multiset(sorted@, infos_pre, im);
        infos_pre.map_values(im).to_multiset_ensures();
    }
    let ratio = compression_ratio_pct(total_comp, total_unc);
    ListOutput {
        wad_path: wad_path.to_owned(),
        total_chunks: chunks.len(),
        matched_chunks: matched,
        total_compressed_size: total_comp,
        total_uncompressed_size: total_unc,
        overall_compression_ratio_pct: ratio,
        chunks: sorted,
    }
}


pub const KB: u64 = 1024;

pub const MB: u64 = 1048576;

pub const GB: u64 = 1073741824;

/// A byte count scaled by a unit, rounded half-up to two decimals:
/// the whole part, a dot, and the two-digit fraction.
pub open spec fn scaled_str(b: u64, unit: u64) -> Seq<char>
    recommends
        unit >= 1024,
{
    let s = (b * 100 + unit / 2) / (unit as int);
    dec_str_of((s / 100) as u64) + "."@ + dec2_str_of((s % 100) as u64)
}

/// The human-readable size: scaled to the largest unit the count reaches,
/// with two decimals, or the plain byte count below one kilobyte.
pub open spec fn size_str_of(bytes: u64) -> Seq<char> {
    if bytes >= GB {
        scaled_str(bytes, GB) + " GB"@
    } else if bytes >= MB {
        scaled_str(bytes, MB) + " MB"@
    } else if bytes >= KB {
        scaled_str(bytes, KB) + " KB"@
    } else {
        dec_str_of(bytes) + " B"@
    }
}

fn scaled_exec(b: u64, unit: u64) -> (r: String)
    requires
        1024 <= unit,
    ensures
        r@ == scaled_str(b, unit),
{
    let num: u128 = (b as u128) * 100 + ((unit / 2) as u128);
    let s: u128 = num / (unit as u128);
    proof {
        assert(s < 0x10000000000000000) by (nonlinear_arith)
            requires
                s == num / (unit as u128),
                num < 0x10000000000000000u128 * 100 + unit,
                unit as u128 >= 1024,
                num >= 0,
        ;
    }
    let whole: u64 = (s / 100) as u64;
    let frac: u64 = (s % 100) as u64;
    let mut out = u64_to_dec(whole);
    out.append(".");
    let f = u64_to_dec2(frac);
    out.append(f.as_str());
    proof {
        assert(out@ =~= scaled_str(b, unit));
    }
    out
}

/// Formats a byte count for humans: two decimals of the largest reached
/// unit, or the plain count below one kilobyte.
pub fn format_size(bytes: u64) -> (r: String)
    ensures
        r@ == size_str_of(bytes),
{
    if bytes >= GB {
        let mut s = scaled_exec(bytes, GB);
        s.append(" GB");
        s
    } else if bytes >= MB {
        let mut s = scaled_exec(bytes, MB);
        s.append(" MB");
        s
    } else if bytes >= KB {
        let mut s = scaled_exec(bytes, KB);
        s.append(" KB");
        s
    } else {
        let mut s = u64_to_dec(bytes);
        s.append(" B");
        s
    }
}

} // verus!
