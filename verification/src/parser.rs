//! Which directories and files the scanner visits, and the decoding of the
//! tool tables of each program format.
use vstd::prelude::*;

use crate::data::{is_part_dir, names_part_dir, Program, Tool};
use crate::text::{lowercase, str_is, to_lowercase};

pub mod gcode;
pub mod h;
pub mod maz;
pub mod pbg;

verus! {

/// Size in bytes of one section of a Mazatrol program.
pub const SECTION_SIZE: usize = 0x64;

/// The little-endian `u16` at byte `i`.
pub open spec fn u16_le(d: Seq<u8>, i: int) -> nat {
    (d[i] + d[i + 1] * 256) as nat
}

/// The little-endian `u32` at byte `i`.
pub open spec fn u32_le(d: Seq<u8>, i: int) -> nat {
    (d[i] + d[i + 1] * 256 + d[i + 2] * 65536 + d[i + 3] * 16777216) as nat
}

/// Reads the little-endian `u16` at byte `i`, widened to `u32`.
pub fn read_u16_le(d: &[u8], i: usize) -> (r: u32)
    requires
        i + 1 < d@.len(),
    ensures
        r == u16_le(d@, i as int),
        r <= 65535,
{
    (d[i] as u32) + (d[i + 1] as u32) * 256
}

/// Reads the little-endian `u32` at byte `i`.
pub fn read_u32_le(d: &[u8], i: usize) -> (r: u32)
    requires
        i + 3 < d@.len(),
    ensures
        r == u32_le(d@, i as int),
{
    (d[i] as u32) + (d[i + 1] as u32) * 256 + (d[i + 2] as u32) * 65536 + (d[i + 3] as u32)
        * 16777216
}

/// The decoder that a program file gets, by its extension.
#[derive(Debug, Clone, Copy, PartialEq, Eq, Structural)]
pub enum FileFormat {
    /// `.pbg`: Mazatrol, binary.
    Pbg,
    /// `.maz`: Mazatrol, binary.
    Maz,
    /// `.h`: Heidenhain, text.
    Heidenhain,
    /// `.mpf`: Sinumerik, text.
    Sinumerik,
    /// Any other extension: G-code, text.
    Gcode,
}

/// The format of a lower-case extension.
pub open spec fn format_for(lower: Seq<char>) -> FileFormat {
    if lower == "pbg"@ {
        FileFormat::Pbg
    } else if lower == "maz"@ {
        FileFormat::Maz
    } else if lower == "h"@ {
        FileFormat::Heidenhain
    } else if lower == "mpf"@ {
        FileFormat::Sinumerik
    } else {
        FileFormat::Gcode
    }
}

/// The format of an extension that is already lower case.
pub fn format_of_lowercase(lower: &str) -> (r: FileFormat)
    ensures
        r == format_for(lower@),
{
    if str_is(lower, "pbg") {
        FileFormat::Pbg
    } else if str_is(lower, "maz") {
        FileFormat::Maz
    } else if str_is(lower, "h") {
        FileFormat::Heidenhain
    } else if str_is(lower, "mpf") {
        FileFormat::Sinumerik
    } else {
        FileFormat::Gcode
    }
}

/// The format of a file by its extension (`None` when the file has no
/// extension or it is not UTF-8), compared in lower case.
pub fn format_of_extension(ext: Option<&str>) -> (r: FileFormat)
    ensures
        r == format_for(
            lowercase(
                match ext {
                    Some(e) => e@,
                    None => ""@,
                },
            ),
        ),
{
    let e = match ext {
        Some(e) => e,
        None => "",
    };
    let lower = to_lowercase(e);
    format_of_lowercase(lower.as_str())
}

/// The extensions, in lower case, of files that hold no program.
pub open spec fn skipped_extensions() -> Seq<Seq<char>> {
    seq![
        "png"@, "jpg"@, "jpeg"@, "gif"@, "bmp"@, "ico"@, "tiff"@, "tif"@, "webp"@, "svg"@,
        "psd"@, "dwg"@, "dxf"@, "step"@, "stp"@, "iges"@, "igs"@, "stl"@, "mp4"@, "avi"@,
        "mov"@, "mkv"@, "wmv"@, "mp3"@, "wav"@, "flac"@, "aac"@, "zip"@, "rar"@, "7z"@,
        "tar"@, "gz"@, "exe"@, "dll"@, "db"@, "sqlite"@, "mdb"@, "accdb"@, "doc"@, "docx"@,
        "xls"@, "xlsx"@, "ppt"@, "pptx"@, "pdf"@, "ttf"@, "otf"@, "iso"@, "img"@, "pbn"@,
        "ezd"@, "lnk"@,
    ]
}

/// The skipped extensions, written out: images, drawings and 3D models,
/// media, archives, executables, databases, office documents, fonts, disk
/// images and shortcuts.
pub proof fn law_skipped_extensions(e: Seq<char>)
    ensures
        skipped_extensions().contains(e) <==> (e == "png"@
            || e == "jpg"@
            || e == "jpeg"@
            || e == "gif"@
            || e == "bmp"@
            || e == "ico"@
            || e == "tiff"@
            || e == "tif"@
            || e == "webp"@
            || e == "svg"@
            || e == "psd"@
            || e == "dwg"@
            || e == "dxf"@
            || e == "step"@
            || e == "stp"@
            || e == "iges"@
            || e == "igs"@
            || e == "stl"@
            || e == "mp4"@
            || e == "avi"@
            || e == "mov"@
            || e == "mkv"@
            || e == "wmv"@
            || e == "mp3"@
            || e == "wav"@
            || e == "flac"@
            || e == "aac"@
            || e == "zip"@
            || e == "rar"@
            || e == "7z"@
            || e == "tar"@
            || e == "gz"@
            || e == "exe"@
            || e == "dll"@
            || e == "db"@
            || e == "sqlite"@
            || e == "mdb"@
            || e == "accdb"@
            || e == "doc"@
            || e == "docx"@
            || e == "xls"@
            || e == "xlsx"@
            || e == "ppt"@
            || e == "pptx"@
            || e == "pdf"@
            || e == "ttf"@
            || e == "otf"@
            || e == "iso"@
            || e == "img"@
            || e == "pbn"@
            || e == "ezd"@
            || e == "lnk"@),
{
    if skipped_extensions().contains(e) {
        let k = choose|k: int| 0 <= k < skipped_extensions().len() && skipped_extensions()[k] == e;
    }
    if e == "png"@ {
        assert(skipped_extensions()[0] == e);
    }
    if e == "jpg"@ {
        assert(skipped_extensions()[1] == e);
    }
    if e == "jpeg"@ {
        assert(skipped_extensions()[2] == e);
    }
    if e == "gif"@ {
        assert(skipped_extensions()[3] == e);
    }
    if e == "bmp"@ {
        assert(skipped_extensions()[4] == e);
    }
    if e == "ico"@ {
        assert(skipped_extensions()[5] == e);
    }
    if e == "tiff"@ {
        assert(skipped_extensions()[6] == e);
    }
    if e == "tif"@ {
        assert(skipped_extensions()[7] == e);
    }
    if e == "webp"@ {
        assert(skipped_extensions()[8] == e);
    }
    if e == "svg"@ {
        assert(skipped_extensions()[9] == e);
    }
    if e == "psd"@ {
        assert(skipped_extensions()[10] == e);
    }
    if e == "dwg"@ {
        assert(skipped_extensions()[11] == e);
    }
    if e == "dxf"@ {
        assert(skipped_extensions()[12] == e);
    }
    if e == "step"@ {
        assert(skipped_extensions()[13] == e);
    }
    if e == "stp"@ {
        assert(skipped_extensions()[14] == e);
    }
    if e == "iges"@ {
        assert(skipped_extensions()[15] == e);
    }
    if e == "igs"@ {
        assert(skipped_extensions()[16] == e);
    }
    if e == "stl"@ {
        assert(skipped_extensions()[17] == e);
    }
    if e == "mp4"@ {
        assert(skipped_extensions()[18] == e);
    }
    if e == "avi"@ {
        assert(skipped_extensions()[19] == e);
    }
    if e == "mov"@ {
        assert(skipped_extensions()[20] == e);
    }
    if e == "mkv"@ {
        assert(skipped_extensions()[21] == e);
    }
    if e == "wmv"@ {
        assert(skipped_extensions()[22] == e);
    }
    if e == "mp3"@ {
        assert(skipped_extensions()[23] == e);
    }
    if e == "wav"@ {
        assert(skipped_extensions()[24] == e);
    }
    if e == "flac"@ {
        assert(skipped_extensions()[25] == e);
    }
    if e == "aac"@ {
        assert(skipped_extensions()[26] == e);
    }
    if e == "zip"@ {
        assert(skipped_extensions()[27] == e);
    }
    if e == "rar"@ {
        assert(skipped_extensions()[28] == e);
    }
    if e == "7z"@ {
        assert(skipped_extensions()[29] == e);
    }
    if e == "tar"@ {
        assert(skipped_extensions()[30] == e);
    }
    if e == "gz"@ {
        assert(skipped_extensions()[31] == e);
    }
    if e == "exe"@ {
        assert(skipped_extensions()[32] == e);
    }
    if e == "dll"@ {
        assert(skipped_extensions()[33] == e);
    }
    if e == "db"@ {
        assert(skipped_extensions()[34] == e);
    }
    if e == "sqlite"@ {
        assert(skipped_extensions()[35] == e);
    }
    if e == "mdb"@ {
        assert(skipped_extensions()[36] == e);
    }
    if e == "accdb"@ {
        assert(skipped_extensions()[37] == e);
    }
    if e == "doc"@ {
        assert(skipped_extensions()[38] == e);
    }
    if e == "docx"@ {
        assert(skipped_extensions()[39] == e);
    }
    if e == "xls"@ {
        assert(skipped_extensions()[40] == e);
    }
    if e == "xlsx"@ {
        assert(skipped_extensions()[41] == e);
    }
    if e == "ppt"@ {
        assert(skipped_extensions()[42] == e);
    }
    if e == "pptx"@ {
        assert(skipped_extensions()[43] == e);
    }
    if e == "pdf"@ {
        assert(skipped_extensions()[44] == e);
    }
    if e == "ttf"@ {
        assert(skipped_extensions()[45] == e);
    }
    if e == "otf"@ {
        assert(skipped_extensions()[46] == e);
    }
    if e == "iso"@ {
        assert(skipped_extensions()[47] == e);
    }
    if e == "img"@ {
        assert(skipped_extensions()[48] == e);
    }
    if e == "pbn"@ {
        assert(skipped_extensions()[49] == e);
    }
    if e == "ezd"@ {
        assert(skipped_extensions()[50] == e);
    }
    if e == "lnk"@ {
        assert(skipped_extensions()[51] == e);
    }
}

/// Whether a lower-case extension is one of the skipped ones.
pub fn is_skipped_lowercase(lower: &str) -> (r: bool)
    ensures
        r == skipped_extensions().contains(lower@),
{
    let list: Vec<&str> = vec![
        "png", "jpg", "jpeg", "gif", "bmp", "ico", "tiff", "tif", "webp", "svg",
        "psd", "dwg", "dxf", "step", "stp", "iges", "igs", "stl", "mp4", "avi",
        "mov", "mkv", "wmv", "mp3", "wav", "flac", "aac", "zip", "rar", "7z",
        "tar", "gz", "exe", "dll", "db", "sqlite", "mdb", "accdb", "doc", "docx",
        "xls", "xlsx", "ppt", "pptx", "pdf", "ttf", "otf", "iso", "img", "pbn",
        "ezd", "lnk",
    ];
    assert(list@.len() == skipped_extensions().len());
    assert(forall|k: int| 0 <= k < list@.len() ==> (#[trigger] list@[k])@ == skipped_extensions()[k]);
    let mut k: usize = 0;
    while k < list.len()
        invariant
            k <= list.len(),
            list@.len() == skipped_extensions().len(),
            forall|t: int| 0 <= t < list@.len() ==> (#[trigger] list@[t])@ == skipped_extensions()[t],
            forall|t: int| 0 <= t < k ==> skipped_extensions()[t] != lower@,
        decreases list.len() - k,
    {
        if str_is(lower, list[k]) {
            assert(skipped_extensions()[k as int] == lower@);
            return true;
        }
        k = k + 1;
    }
    false
}

/// A file is skipped when it has a UTF-8 extension whose lower-case form is
/// one of the skipped extensions.
pub fn should_skip(ext: Option<&str>) -> (r: bool)
    ensures
        r == match ext {
            Some(e) => skipped_extensions().contains(lowercase(e@)),
            None => false,
        },
{
    match ext {
        Some(e) => {
            let lower = to_lowercase(e);
            is_skipped_lowercase(lower.as_str())
        },
        None => false,
    }
}

/// `tools` is what the decoder of `format` gives for `data`. No decoder of
/// `.mpf` programs is part of this crate, so they yield no tools.
pub open spec fn is_tools_of(format: FileFormat, data: Seq<u8>, tools: Seq<Tool>) -> bool {
    match format {
        FileFormat::Pbg => pbg::is_parse_of(data, tools),
        FileFormat::Maz => maz::is_parse_of(data, tools),
        FileFormat::Heidenhain => h::is_parse_of(data, tools),
        FileFormat::Sinumerik => tools.len() == 0,
        FileFormat::Gcode => gcode::is_parse_of(data, tools),
    }
}

/// The tools of a program file of the given format and contents.
pub fn parse_tools(format: FileFormat, data: &[u8]) -> (r: Vec<Tool>)
    ensures
        is_tools_of(format, data@, r@),
{
    match format {
        FileFormat::Pbg => pbg::parse(data),
        FileFormat::Maz => maz::parse(data),
        FileFormat::Heidenhain => h::parse(data),
        FileFormat::Sinumerik => Vec::new(),
        FileFormat::Gcode => gcode::parse(data),
    }
}

/// A walked entry is read as a program when it is a file that is not skipped.
pub fn is_program_file(is_file: bool, ext: Option<&str>) -> (r: bool)
    ensures
        r == (is_file && !match ext {
            Some(e) => skipped_extensions().contains(lowercase(e@)),
            None => false,
        }),
{
    is_file && !should_skip(ext)
}

/// A program file counts only when it calls at least one tool.
pub fn program_of(name: String, tools: Vec<Tool>) -> (r: Option<Program>)
    ensures
        tools@.len() == 0 ==> r is None,
        tools@.len() > 0 ==> (r matches Some(p) && p.name == name && p.tools@ == tools@),
{
    if tools.len() == 0 {
        None
    } else {
        Some(Program { name, tools })
    }
}

/// A child of a group directory is a part when it is a directory whose
/// name marks a part.
pub fn is_part_entry(is_dir: bool, name: &str) -> (r: bool)
    ensures
        r == (is_dir && names_part_dir(name@)),
{
    is_dir && is_part_dir(name)
}

/// A directory entry met while looking for groups: its name, and whether
/// it is a directory.
pub struct DirEntryInfo {
    pub name: String,
    pub is_dir: bool,
}

/// Some child is a part directory.
pub fn has_part_children(children: &Vec<DirEntryInfo>) -> (r: bool)
    ensures
        r == exists|i: int|
            0 <= i < children@.len() && (#[trigger] children@[i]).is_dir && names_part_dir(
                children@[i].name@,
            ),
{
    let mut i: usize = 0;
    while i < children.len()
        invariant
            i <= children.len(),
            forall|t: int|
                0 <= t < i ==> !((#[trigger] children@[t]).is_dir && names_part_dir(
                    children@[t].name@,
                )),
        decreases children.len() - i,
    {
        if is_part_entry(children[i].is_dir, children[i].name.as_str()) {
            return true;
        }
        i = i + 1;
    }
    false
}

/// An entry below a machine can be a group, or hold groups deeper down,
/// only when it is a directory that is not itself a part: it is then a
/// group when some child is a part, and is searched further otherwise.
pub fn is_group_candidate(is_dir: bool, name: &str) -> (r: bool)
    ensures
        r == (is_dir && !names_part_dir(name@)),
{
    is_dir && !is_part_dir(name)
}

} // verus!
