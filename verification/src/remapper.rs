//! Path remapping for skin swapping: rewrites skin-numbered folder segments
//! and file-name prefixes from one skin number to another.

use vstd::prelude::*;

use vstd::string::StringExecFns;

use crate::strutil::{
    dec2_str_of, lower_all, normalize_separators, replace_all, replace_all_spec, slashes_of,
    str_eq, to_lower, u64_to_dec2,
};

verus! {

/// The folder segment to match, lowercase: `skins/skinNN/`.
pub open spec fn folder_pat(n: u32) -> Seq<char> {
    "skins/skin"@ + dec2_str_of(n as u64) + "/"@
}

/// The canonical folder segment written in: `Skins/SkinNN/`.
pub open spec fn folder_rep(n: u32) -> Seq<char> {
    "Skins/Skin"@ + dec2_str_of(n as u64) + "/"@
}

/// The file-name prefix to match, lowercase: the champion name folded, an
/// underscore and the skin token.
pub open spec fn name_pat(champion: Seq<char>, n: u32) -> Seq<char> {
    lower_all(champion) + "_skin"@ + dec2_str_of(n as u64)
}

/// The canonical file-name prefix written in: the champion name as given,
/// then `_Base` for the base skin and `_SkinNN` otherwise.
pub open spec fn name_rep(champion: Seq<char>, n: u32) -> Seq<char> {
    if n == 0 {
        champion + "_Base"@
    } else {
        champion + "_Skin"@ + dec2_str_of(n as u64)
    }
}

/// What remapping yields: with separators normalized, the skin folder
/// segment and the champion file-name prefix are rewritten, matching
/// case-insensitively, replacing with the canonical casing; when nothing
/// changes (same skin, or no occurrence), there is nothing to remap.
pub open spec fn remap_spec(
    champion: Seq<char>,
    from_skin: u32,
    to_skin: u32,
    path: Seq<char>,
) -> Option<Seq<char>> {
    if from_skin == to_skin {
        None
    } else {
        let norm = slashes_of(path);
        let folders = replace_all_spec(norm, folder_pat(from_skin), folder_rep(to_skin), true);
        let names = replace_all_spec(
            folders,
            name_pat(champion, from_skin),
            name_rep(champion, to_skin),
            true,
        );
        if names == norm {
            None
        } else {
            Some(names)
        }
    }
}

fn skin_dec2(n: u32) -> (s: String)
    ensures
        s@ == dec2_str_of(n as u64),
{
    u64_to_dec2(n as u64)
}

fn folder_pat_exec(n: u32) -> (s: String)
    ensures
        s@ == folder_pat(n),
{
    let mut s = String::from_str("skins/skin");
    let d = skin_dec2(n);
    s.append(d.as_str());
    s.append("/");
    proof {
        assert(s@ =~= folder_pat(n));
    }
    s
}

fn folder_rep_exec(n: u32) -> (s: String)
    ensures
        s@ == folder_rep(n),
{
    let mut s = String::from_str("Skins/Skin");
    let d = skin_dec2(n);
    s.append(d.as_str());
    s.append("/");
    proof {
        assert(s@ =~= folder_rep(n));
    }
    s
}

fn name_pat_exec(champion: &str, n: u32) -> (s: String)
    ensures
        s@ == name_pat(champion@, n),
{
    let mut s = to_lower(champion);
    s.append("_skin");
    let d = skin_dec2(n);
    s.append(d.as_str());
    proof {
        assert(s@ =~= name_pat(champion@, n));
    }
    s
}

fn name_rep_exec(champion: &str, n: u32) -> (s: String)
    ensures
        s@ == name_rep(champion@, n),
{
    let mut s = String::from_str(champion);
    if n == 0 {
        s.append("_Base");
        proof {
            assert(s@ =~= name_rep(champion@, n));
        }
        s
    } else {
        s.append("_Skin");
        let d = skin_dec2(n);
        s.append(d.as_str());
        proof {
            assert(s@ =~= name_rep(champion@, n));
        }
        s
    }
}

/// Handles path remapping for skin swapping.
pub struct Remapper;

impl Remapper {
    pub fn new() -> Self {
        Remapper
    }

    /// Remaps a file path from one skin number to another.
    ///
    /// Two rewrites happen, both matching ASCII case-insensitively and
    /// writing the canonical casing: the folder segment `Skins/SkinNN/`
    /// becomes the target skin's folder, and the file-name prefix
    /// `Champion_SkinNN` becomes `Champion_Base` (base skin) or
    /// `Champion_SkinMM`.  Yields nothing when source and target skin are
    /// the same or no rewrite applies.
    pub fn remap(&self, champion: &str, from_skin: u32, to_skin: u32, path: &str) -> (r: Option<
        String,
    >)
        ensures
            match r {
                Some(p) => remap_spec(champion@, from_skin, to_skin, path@) == Some(p@),
                None => remap_spec(champion@, from_skin, to_skin, path@) is None,
            },
    {
        if from_skin == to_skin {
            return None;
        }
        let norm = normalize_separators(path);
        let fpat = folder_pat_exec(from_skin);
        let frep = folder_rep_exec(to_skin);
        proof {
            reveal_strlit("skins/skin");
            assert(fpat@.len() > 0);
        }
        let folders = replace_all(norm.as_str(), fpat.as_str(), frep.as_str(), true);
        let npat = name_pat_exec(champion, from_skin);
        let nrep = name_rep_exec(champion, to_skin);
        proof {
            reveal_strlit("_skin");
            assert(npat@.len() > 0);
        }
        let names = replace_all(folders.as_str(), npat.as_str(), nrep.as_str(), true);
        if str_eq(names.as_str(), norm.as_str()) {
            None
        } else {
            Some(names)
        }
    }
}

/// The engine wrapping the remapper.
pub struct SwapEngine {
    remapper: Remapper,
}

impl SwapEngine {
    pub fn new() -> Self {
        SwapEngine { remapper: Remapper::new() }
    }

    /// Generates the destination path of one file for a skin swap, if the
    /// file needs remapping at all.
    pub fn remap_path(&self, champion: &str, from_skin: u32, to_skin: u32, file_path: &str) -> (r:
        Option<String>)
        ensures
            match r {
                Some(p) => remap_spec(champion@, from_skin, to_skin, file_path@) == Some(p@),
                None => remap_spec(champion@, from_skin, to_skin, file_path@) is None,
            },
    {
        self.remapper.remap(champion, from_skin, to_skin, file_path)
    }
}

/// Remaps a path without instantiating an engine.
pub fn remap_path(champion: &str, from_skin: u32, to_skin: u32, file_path: &str) -> (r: Option<
    String,
>)
    ensures
        match r {
            Some(p) => remap_spec(champion@, from_skin, to_skin, file_path@) == Some(p@),
            None => remap_spec(champion@, from_skin, to_skin, file_path@) is None,
        },
{
    let engine = SwapEngine::new();
    engine.remap_path(champion, from_skin, to_skin, file_path)
}

} // verus!
