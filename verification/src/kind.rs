//! File kinds of the assets a container holds: the classifier collaborator's
//! enumeration, its canonical extensions, and content sniffing.

use vstd::prelude::*;

verus! {

/// The kind of an asset file, as the classifier reports it.
#[derive(Clone, Copy, Debug, PartialEq, Eq, Structural)]
pub enum FileKind {
    Animation,
    Jpeg,
    LightGrid,
    LuaObj,
    MapGeometry,
    Png,
    Tga,
    Preload,
    PropertyBin,
    PropertyBinOverride,
    RiotStringTable,
    SimpleSkin,
    Skeleton,
    StaticMeshAscii,
    StaticMeshBinary,
    Svg,
    Texture,
    TextureDds,
    Unknown,
    WorldGeometry,
    WwiseBank,
    WwisePackage,
}

/// The canonical file extension of each kind; an unknown kind has none.
pub open spec fn extension_spec(k: FileKind) -> Option<Seq<char>> {
    match k {
        FileKind::Unknown => None,
        FileKind::Animation => Some("anm"@),
        FileKind::Jpeg => Some("jpg"@),
        FileKind::LightGrid => Some("lightgrid"@),
        FileKind::LuaObj => Some("luaobj"@),
        FileKind::MapGeometry => Some("mapgeo"@),
        FileKind::Png => Some("png"@),
        FileKind::Tga => Some("tga"@),
        FileKind::Preload => Some("preload"@),
        FileKind::PropertyBin => Some("bin"@),
        FileKind::PropertyBinOverride => Some("bin"@),
        FileKind::RiotStringTable => Some("stringtable"@),
        FileKind::SimpleSkin => Some("skn"@),
        FileKind::Skeleton => Some("skl"@),
        FileKind::StaticMeshAscii => Some("sco"@),
        FileKind::StaticMeshBinary => Some("scb"@),
        FileKind::Svg => Some("svg"@),
        FileKind::Texture => Some("tex"@),
        FileKind::TextureDds => Some("dds"@),
        FileKind::WorldGeometry => Some("wgeo"@),
        FileKind::WwiseBank => Some("bnk"@),
        FileKind::WwisePackage => Some("wpk"@),
    }
}

/// The kind a bare (dot-free, non-empty) extension names.
pub open spec fn kind_for_ext(e: Seq<char>) -> FileKind {
    if e == "anm"@ {
        FileKind::Animation
    } else if e == "bin"@ {
        FileKind::PropertyBin
    } else if e == "bnk"@ {
        FileKind::WwiseBank
    } else if e == "dds"@ {
        FileKind::TextureDds
    } else if e == "jpg"@ {
        FileKind::Jpeg
    } else if e == "luaobj"@ {
        FileKind::LuaObj
    } else if e == "mapgeo"@ {
        FileKind::MapGeometry
    } else if e == "png"@ {
        FileKind::Png
    } else if e == "tga"@ {
        FileKind::Tga
    } else if e == "preload"@ {
        FileKind::Preload
    } else if e == "scb"@ {
        FileKind::StaticMeshBinary
    } else if e == "sco"@ {
        FileKind::StaticMeshAscii
    } else if e == "skl"@ {
        FileKind::Skeleton
    } else if e == "skn"@ {
        FileKind::SimpleSkin
    } else if e == "stringtable"@ {
        FileKind::RiotStringTable
    } else if e == "svg"@ {
        FileKind::Svg
    } else if e == "tex"@ {
        FileKind::Texture
    } else if e == "wgeo"@ {
        FileKind::WorldGeometry
    } else if e == "wpk"@ {
        FileKind::WwisePackage
    } else {
        FileKind::Unknown
    }
}

/// The kind an extension names, with or without a leading dot; the empty
/// extension names no kind.
pub open spec fn from_extension_spec(e: Seq<char>) -> FileKind {
    if e.len() == 0 {
        FileKind::Unknown
    } else if e[0] == '.' {
        kind_for_ext(e.skip(1))
    } else {
        kind_for_ext(e)
    }
}

impl FileKind {
    /// The canonical extension for this kind of file.
    pub fn extension(&self) -> (r: Option<&'static str>)
        ensures
            match r {
                Some(e) => extension_spec(*self) == Some(e@),
                None => extension_spec(*self) is None,
            },
    {
        match self {
            FileKind::Unknown => None,
            FileKind::Animation => Some("anm"),
            FileKind::Jpeg => Some("jpg"),
            FileKind::LightGrid => Some("lightgrid"),
            FileKind::LuaObj => Some("luaobj"),
            FileKind::MapGeometry => Some("mapgeo"),
            FileKind::Png => Some("png"),
            FileKind::Tga => Some("tga"),
            FileKind::Preload => Some("preload"),
            FileKind::PropertyBin => Some("bin"),
            FileKind::PropertyBinOverride => Some("bin"),
            FileKind::RiotStringTable => Some("stringtable"),
            FileKind::SimpleSkin => Some("skn"),
            FileKind::Skeleton => Some("skl"),
            FileKind::StaticMeshAscii => Some("sco"),
            FileKind::StaticMeshBinary => Some("scb"),
            FileKind::Svg => Some("svg"),
            FileKind::Texture => Some("tex"),
            FileKind::TextureDds => Some("dds"),
            FileKind::WorldGeometry => Some("wgeo"),
            FileKind::WwiseBank => Some("bnk"),
            FileKind::WwisePackage => Some("wpk"),
        }
    }

    /// Infers the kind from a file extension, given with or without its
    /// leading dot.
    pub fn from_extension(extension: &str) -> (r: FileKind)
        ensures
            r == from_extension_spec(extension@),
    {
        let n = extension.unicode_len();
        if n == 0 {
            return FileKind::Unknown;
        }
        let bare: &str = if extension.get_char(0) == '.' {
            extension.substring_char(1, n)
        } else {
            extension.substring_char(0, n)
        };
        proof {
            if extension@[0] == '.' {
                assert(bare@ =~= extension@.skip(1));
            } else {
                assert(bare@ =~= extension@);
            }
        }
        Self::kind_for_ext_exec(bare)
    }

    fn kind_for_ext_exec(e: &str) -> (r: FileKind)
        ensures
            r == kind_for_ext(e@),
    {
        if crate::strutil::str_eq(e, "anm") {
            FileKind::Animation
        } else if crate::strutil::str_eq(e, "bin") {
            FileKind::PropertyBin
        } else if crate::strutil::str_eq(e, "bnk") {
            FileKind::WwiseBank
        } else if crate::strutil::str_eq(e, "dds") {
            FileKind::TextureDds
        } else if crate::strutil::str_eq(e, "jpg") {
            FileKind::Jpeg
        } else if crate::strutil::str_eq(e, "luaobj") {
            FileKind::LuaObj
        } else if crate::strutil::str_eq(e, "mapgeo") {
            FileKind::MapGeometry
        } else if crate::strutil::str_eq(e, "png") {
            FileKind::Png
        } else if crate::strutil::str_eq(e, "tga") {
            FileKind::Tga
        } else if crate::strutil::str_eq(e, "preload") {
            FileKind::Preload
        } else if crate::strutil::str_eq(e, "scb") {
            FileKind::StaticMeshBinary
        } else if crate::strutil::str_eq(e, "sco") {
            FileKind::StaticMeshAscii
        } else if crate::strutil::str_eq(e, "skl") {
            FileKind::Skeleton
        } else if crate::strutil::str_eq(e, "skn") {
            FileKind::SimpleSkin
        } else if crate::strutil::str_eq(e, "stringtable") {
            FileKind::RiotStringTable
        } else if crate::strutil::str_eq(e, "svg") {
            FileKind::Svg
        } else if crate::strutil::str_eq(e, "tex") {
            FileKind::Texture
        } else if crate::strutil::str_eq(e, "wgeo") {
            FileKind::WorldGeometry
        } else if crate::strutil::str_eq(e, "wpk") {
            FileKind::WwisePackage
        } else {
            FileKind::Unknown
        }
    }
}

/// The variant at one position of the classifier's declaration order.
pub open spec fn kind_from_index_spec(n: u8) -> FileKind {
    if n == 0 {
        FileKind::Animation
    } else if n == 1 {
        FileKind::Jpeg
    } else if n == 2 {
        FileKind::LightGrid
    } else if n == 3 {
        FileKind::LuaObj
    } else if n == 4 {
        FileKind::MapGeometry
    } else if n == 5 {
        FileKind::Png
    } else if n == 6 {
        FileKind::Tga
    } else if n == 7 {
        FileKind::Preload
    } else if n == 8 {
        FileKind::PropertyBin
    } else if n == 9 {
        FileKind::PropertyBinOverride
    } else if n == 10 {
        FileKind::RiotStringTable
    } else if n == 11 {
        FileKind::SimpleSkin
    } else if n == 12 {
        FileKind::Skeleton
    } else if n == 13 {
        FileKind::StaticMeshAscii
    } else if n == 14 {
        FileKind::StaticMeshBinary
    } else if n == 15 {
        FileKind::Svg
    } else if n == 16 {
        FileKind::Texture
    } else if n == 17 {
        FileKind::TextureDds
    } else if n == 18 {
        FileKind::Unknown
    } else if n == 19 {
        FileKind::WorldGeometry
    } else if n == 20 {
        FileKind::WwiseBank
    } else if n == 21 {
        FileKind::WwisePackage
    } else {
        FileKind::Unknown
    }
}

/// Maps a position in the classifier's declaration order to the kind
/// declared there.
pub fn kind_from_index(n: u8) -> (r: FileKind)
    ensures
        r == kind_from_index_spec(n),
{
    if n == 0 {
        FileKind::Animation
    } else if n == 1 {
        FileKind::Jpeg
    } else if n == 2 {
        FileKind::LightGrid
    } else if n == 3 {
        FileKind::LuaObj
    } else if n == 4 {
        FileKind::MapGeometry
    } else if n == 5 {
        FileKind::Png
    } else if n == 6 {
        FileKind::Tga
    } else if n == 7 {
        FileKind::Preload
    } else if n == 8 {
        FileKind::PropertyBin
    } else if n == 9 {
        FileKind::PropertyBinOverride
    } else if n == 10 {
        FileKind::RiotStringTable
    } else if n == 11 {
        FileKind::SimpleSkin
    } else if n == 12 {
        FileKind::Skeleton
    } else if n == 13 {
        FileKind::StaticMeshAscii
    } else if n == 14 {
        FileKind::StaticMeshBinary
    } else if n == 15 {
        FileKind::Svg
    } else if n == 16 {
        FileKind::Texture
    } else if n == 17 {
        FileKind::TextureDds
    } else if n == 18 {
        FileKind::Unknown
    } else if n == 19 {
        FileKind::WorldGeometry
    } else if n == 20 {
        FileKind::WwiseBank
    } else if n == 21 {
        FileKind::WwisePackage
    } else {
        FileKind::Unknown
    }
}

/// The kind the classifier sniffs from the leading bytes of a file; a
/// function of the bytes alone.  Never applied to three-byte data: see
/// `sniff_kind`.
pub uninterp spec fn kind_of(data: Seq<u8>) -> FileKind;

/// Relies on `league_toolkit`'s `LeagueFileKind::identify_from_bytes`: the
/// kind is inferred from the magic bytes at the start of the data, a pure
/// function of the bytes, and the variants of its fieldless enumeration
/// number `0` to `21` in declaration order.  Exactly three bytes of data are
/// left out: the classifier's jpeg pattern declares a minimum length of 3
/// but reads 4 bytes, so the scan aborts on (almost every) three-byte
/// input.
#[verifier::external_body]
fn identify_from_bytes(data: &[u8]) -> (k: FileKind)
    requires
        data@.len() != 3,
    ensures
        k == kind_of(data@),
{
    let outside = league_toolkit::file::LeagueFileKind::identify_from_bytes(data);
    kind_from_index(outside as u8)
}

/// The kind the library assigns to decompressed chunk bytes: the
/// classifier's sniffed kind, except that three-byte data — on which the
/// classifier's pattern scan aborts — is deliberately classified unknown.
pub open spec fn sniffed_kind(data: Seq<u8>) -> FileKind {
    if data.len() == 3 {
        FileKind::Unknown
    } else {
        kind_of(data)
    }
}

/// Sniffs the kind of a chunk's decompressed bytes.  Total over all inputs:
/// three-byte data, which the classifier cannot scan, is unknown.
pub fn sniff_kind(data: &[u8]) -> (k: FileKind)
    ensures
        k == sniffed_kind(data@),
{
    if data.len() == 3 {
        FileKind::Unknown
    } else {
        identify_from_bytes(data)
    }
}

} // verus!
