//! Skin-metadata pruning: dropping skins and chromas whose identifiers the
//! champion database does not know, and rewriting tile paths to their
//! public location.  Reading and writing the metadata files stays with the
//! caller.

use std::collections::HashSet;
use vstd::prelude::*;

use crate::strutil::{lower_all, replace_all, replace_all_spec, to_lower};

verus! {

broadcast use vstd::std_specs::hash::group_hash_axioms;

/// Raw champion metadata as read from disk.
#[derive(Debug)]
pub struct RawMetadata {
    pub id: i32,
    pub name: String,
    pub choose_vo_path: Option<String>,
    pub skins: Vec<RawSkin>,
}

#[derive(Debug)]
pub struct RawSkin {
    pub id: i32,
    pub is_base: bool,
    pub name: String,
    pub skin_classification: Option<String>,
    pub tile_path: Option<String>,
    pub rarity: Option<String>,
    pub chromas: Option<Vec<RawChroma>>,
}

#[derive(Debug)]
pub struct RawChroma {
    pub id: i32,
    pub name: String,
    pub tile_path: Option<String>,
}

/// Pruned champion metadata, ready to be written back.
#[derive(Debug)]
pub struct PrunedMetadata {
    pub id: i32,
    pub name: String,
    pub choose_vo_path: Option<String>,
    pub skins: Vec<PrunedSkin>,
}

#[derive(Debug)]
pub struct PrunedSkin {
    pub id: i32,
    pub is_base: bool,
    pub name: String,
    pub skin_classification: Option<String>,
    pub tile_path: Option<String>,
    pub rarity: Option<String>,
    pub chromas: Option<Vec<PrunedChroma>>,
}

#[derive(Debug)]
pub struct PrunedChroma {
    pub id: i32,
    pub name: String,
    pub tile_path: Option<String>,
}

/// Outcome of a whole pruning run over the metadata directory.
#[derive(Debug)]
pub struct PruneResult {
    pub success: bool,
    pub message: String,
    pub pruned_count: usize,
    pub deleted_count: usize,
}

pub open spec fn opt_view(o: Option<String>) -> Option<Seq<char>> {
    match o {
        Some(s) => Some(s@),
        None => None,
    }
}

/// A rewritten tile path: the game-data prefix replaced by its public
/// location, the whole path ASCII-folded to lowercase (tile paths are
/// ASCII; non-ASCII characters would be kept).
pub open spec fn transformed_tile(p: Seq<char>) -> Seq<char> {
    lower_all(
        replace_all_spec(
            p,
            "/lol-game-data/assets/"@,
            "https://raw.communitydragon.org/latest/plugins/rcp-be-lol-game-data/global/default/"@,
            false,
        ),
    )
}

pub open spec fn transformed_tile_opt(o: Option<Seq<char>>) -> Option<Seq<char>> {
    match o {
        Some(p) => Some(transformed_tile(p)),
        None => None,
    }
}

/// Rewrites a tile path, if one is there: the game-data prefix becomes the
/// public location and the path is folded to lowercase.
pub fn transform_tile_path(path: Option<String>) -> (r: Option<String>)
    ensures
        match r {
            Some(q) => path is Some && q@ == transformed_tile(path.unwrap()@),
            None => path is None,
        },
{
    match path {
        None => None,
        Some(p) => {
            proof {
                reveal_strlit("/lol-game-data/assets/");
            }
            let replaced = replace_all(
                p.as_str(),
                "/lol-game-data/assets/",
                "https://raw.communitydragon.org/latest/plugins/rcp-be-lol-game-data/global/default/",
                false,
            );
            Some(to_lower(replaced.as_str()))
        },
    }
}

pub open spec fn pruned_chroma_model(c: PrunedChroma) -> (int, Seq<char>, Option<Seq<char>>) {
    (c.id as int, c.name@, opt_view(c.tile_path))
}

/// What pruning makes of one kept chroma.
pub open spec fn chroma_expected(c: RawChroma) -> (int, Seq<char>, Option<Seq<char>>) {
    (c.id as int, c.name@, transformed_tile_opt(opt_view(c.tile_path)))
}

pub open spec fn pruned_skin_model(s: PrunedSkin) -> (
    int,
    bool,
    Seq<char>,
    Option<Seq<char>>,
    Option<Seq<char>>,
    Option<Seq<char>>,
    Option<Seq<(int, Seq<char>, Option<Seq<char>>)>>,
) {
    (
        s.id as int,
        s.is_base,
        s.name@,
        opt_view(s.skin_classification),
        opt_view(s.tile_path),
        opt_view(s.rarity),
        match s.chromas {
            Some(v) => Some(v@.map_values(|c: PrunedChroma| pruned_chroma_model(c))),
            None => None,
        },
    )
}

/// What pruning makes of one kept skin: its fields carried over, the tile
/// path rewritten, and only its valid chromas kept; an emptied chroma list
/// is dropped altogether.
pub open spec fn skin_expected(valid: Set<i32>, s: RawSkin) -> (
    int,
    bool,
    Seq<char>,
    Option<Seq<char>>,
    Option<Seq<char>>,
    Option<Seq<char>>,
    Option<Seq<(int, Seq<char>, Option<Seq<char>>)>>,
) {
    (
        s.id as int,
        s.is_base,
        s.name@,
        opt_view(s.skin_classification),
        transformed_tile_opt(opt_view(s.tile_path)),
        opt_view(s.rarity),
        match s.chromas {
            Some(v) => {
                let kept = v@.filter(|c: RawChroma| valid.contains(c.id)).map_values(
                    |c: RawChroma| chroma_expected(c),
                );
                if kept.len() == 0 {
                    None
                } else {
                    Some(kept)
                }
            },
            None => None,
        },
    )
}

/// Prunes one champion's metadata against the set of valid skin and chroma
/// identifiers: skins with unknown identifiers are dropped, kept skins keep
/// only their valid chromas (none at all when the list empties), and tile
/// paths are rewritten to their public location.
pub fn prune_metadata(raw: RawMetadata, valid_skin_ids: &HashSet<i32>) -> (r: PrunedMetadata)
    ensures
        r.id == raw.id,
        r.name@ == raw.name@,
        opt_view(r.choose_vo_path) == opt_view(raw.choose_vo_path),
        r.skins@.map_values(|s: PrunedSkin| pruned_skin_model(s)) == raw.skins@.filter(
            |s: RawSkin| valid_skin_ids@.contains(s.id),
        ).map_values(|s: RawSkin| skin_expected(valid_skin_ids@, s)),
{
    let ghost skins_orig = raw.skins@;
    let ghost keep = |s: RawSkin| valid_skin_ids@.contains(s.id);
    let ghost sexp = |s: RawSkin| skin_expected(valid_skin_ids@, s);
    let ghost smod = |s: PrunedSkin| pruned_skin_model(s);
    let mut skins_in = raw.skins;
    let total = skins_in.len();
    let mut out: Vec<PrunedSkin> = Vec::new();
    let mut i: usize = 0;
    proof {
        assert(skins_orig.take(0) =~= Seq::<RawSkin>::empty());
        assert(out@.map_values(smod) =~= skins_orig.take(0).filter(keep).map_values(sexp));
        assert(skins_in@ =~= skins_orig.skip(0));
    }
    while skins_in.len() > 0
        invariant
            keep == (|s: RawSkin| valid_skin_ids@.contains(s.id)),
            sexp == (|s: RawSkin| skin_expected(valid_skin_ids@, s)),
            smod == (|s: PrunedSkin| pruned_skin_model(s)),
            0 <= i,
            total == skins_orig.len(),
            i + skins_in@.len() == total,
            skins_in@ == skins_orig.skip(i as int),
            out@.map_values(smod) == skins_orig.take(i as int).filter(keep).map_values(sexp),
        decreases skins_in@.len(),
    {
        let s = skins_in.remove(0);
        proof {
            assert(s == skins_orig[i as int]);
            assert(skins_in@ =~= skins_orig.skip(i as int + 1));
            assert(skins_orig.take(i as int).push(s) =~= skins_orig.take(i as int + 1));
            skins_orig.take(i as int).lemma_filter_push(s, keep);
        }
        let valid_skin = valid_skin_ids.contains(&s.id);
        if valid_skin {
            let pruned = prune_skin(s, valid_skin_ids);
            let ghost out_pre = out@;
            out.push(pruned);
            proof {
                out_pre.lemma_push_map_commute(smod, pruned);
                skins_orig.take(i as int).filter(keep).lemma_push_map_commute(sexp, s);
                assert(out@.map_values(smod) =~= skins_orig.take(i as int + 1).filter(
                    keep,
                ).map_values(sexp));
            }
        }
        i = i + 1;
    }
    proof {
        assert(skins_orig.take(skins_orig.len() as int) =~= skins_orig);
    }
    PrunedMetadata {
        id: raw.id,
        name: raw.name,
        choose_vo_path: raw.choose_vo_path,
        skins: out,
    }
}

/// Prunes one kept skin: rewrites its tile path and keeps only its valid
/// chromas.
fn prune_skin(s: RawSkin, valid_skin_ids: &HashSet<i32>) -> (r: PrunedSkin)
    ensures
        pruned_skin_model(r) == skin_expected(valid_skin_ids@, s),
{
    let ghost keep = |c: RawChroma| valid_skin_ids@.contains(c.id);
    let ghost cexp = |c: RawChroma| chroma_expected(c);
    let ghost cmod = |c: PrunedChroma| pruned_chroma_model(c);
    let chromas: Option<Vec<PrunedChroma>> = match s.chromas {
        None => None,
        Some(cv) => {
            let ghost chromas_orig = cv@;
            let mut cin = cv;
            let ctotal = cin.len();
            let mut kept: Vec<PrunedChroma> = Vec::new();
            let mut i: usize = 0;
            proof {
                assert(chromas_orig.take(0) =~= Seq::<RawChroma>::empty());
                assert(kept@.map_values(cmod) =~= chromas_orig.take(0).filter(keep).map_values(
                    cexp,
                ));
                assert(cin@ =~= chromas_orig.skip(0));
            }
            while cin.len() > 0
                invariant
                    keep == (|c: RawChroma| valid_skin_ids@.contains(c.id)),
                    cexp == (|c: RawChroma| chroma_expected(c)),
                    cmod == (|c: PrunedChroma| pruned_chroma_model(c)),
                    0 <= i,
                    ctotal == chromas_orig.len(),
                    i + cin@.len() == ctotal,
                    cin@ == chromas_orig.skip(i as int),
                    kept@.map_values(cmod) == chromas_orig.take(i as int).filter(keep).map_values(
                        cexp,
                    ),
                decreases cin@.len(),
            {
                let c = cin.remove(0);
                proof {
                    assert(c == chromas_orig[i as int]);
                    assert(cin@ =~= chromas_orig.skip(i as int + 1));
                    assert(chromas_orig.take(i as int).push(c) =~= chromas_orig.take(i as int + 1));
                    chromas_orig.take(i as int).lemma_filter_push(c, keep);
                }
                if valid_skin_ids.contains(&c.id) {
                    let pc = PrunedChroma {
                        id: c.id,
                        name: c.name,
                        tile_path: transform_tile_path(c.tile_path),
                    };
                    let ghost kept_pre = kept@;
                    kept.push(pc);
                    proof {
                        kept_pre.lemma_push_map_commute(cmod, pc);
                        chromas_orig.take(i as int).filter(keep).lemma_push_map_commute(cexp, c);
                        assert(kept@.map_values(cmod) =~= chromas_orig.take(i as int + 1).filter(
                            keep,
                        ).map_values(cexp));
                    }
                }
                i = i + 1;
            }
            proof {
                assert(chromas_orig.take(chromas_orig.len() as int) =~= chromas_orig);
            }
            if kept.len() == 0 {
                None
            } else {
                Some(kept)
            }
        },
    };
    PrunedSkin {
        id: s.id,
        is_base: s.is_base,
        name: s.name,
        skin_classification: s.skin_classification,
        tile_path: transform_tile_path(s.tile_path),
        rarity: s.rarity,
        chromas,
    }
}

} // verus!
