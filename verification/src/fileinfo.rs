//! Name helpers of the first layout of the listing: a file's name, the
//! directory it is in, its extension and the group of that extension.

use vstd::prelude::*;

use crate::file::name::{ext_seq, filename_seq, opt_seq, parent_of, path_parent};
use crate::text::str_eq;

verus! {

/// The final component of `path`, or the path itself when it has none.
pub fn filename(path: &str) -> (r: String)
    ensures
        r@ == filename_seq(path@, None),
{
    crate::file::name::filename(path, None)
}

/// The path of the directory that holds `path` (its parent), empty when it has none.
pub open spec fn basepath_seq(path: Seq<char>) -> Seq<char> {
    match path_parent(path) {
        Some(p) => p,
        None => seq![],
    }
}

pub fn basepath(path: &str) -> (r: String)
    ensures
        r@ == basepath_seq(path@),
{
    match parent_of(path) {
        Some(p) => p,
        None => String::new(),
    }
}

/// The extension of `path` in lower case, empty when there is none.
pub fn ext(path: &str) -> (r: String)
    ensures
        r@ == ext_seq(path@),
{
    crate::file::name::ext(path)
}

pub open spec fn is_img(e: Seq<char>) -> bool {
    e == "png"@ || e == "jpg"@ || e == "jpeg"@ || e == "gif"@ || e == "svg"@ || e == "webp"@
        || e == "ico"@ || e == "bmp"@
}

pub open spec fn is_zip(e: Seq<char>) -> bool {
    e == "7z"@ || e == "zip"@ || e == "tar"@ || e == "gz"@ || e == "bz2"@ || e == "rar"@ || e == "tgz"@
        || e == "xz"@ || e == "txz"@
}

pub open spec fn is_doc(e: Seq<char>) -> bool {
    e == "djvu"@ || e == "doc"@ || e == "docx"@ || e == "dotx"@ || e == "odp"@ || e == "odt"@
        || e == "pdf"@ || e == "ppt"@ || e == "pptx"@ || e == "rtf"@ || e == "xls"@ || e == "xlsx"@
}

pub open spec fn is_src(e: Seq<char>) -> bool {
    e == "html"@ || e == "css"@ || e == "scss"@ || e == "sass"@ || e == "js"@ || e == "jsx"@
        || e == "ts"@ || e == "tsx"@ || e == "go"@ || e == "rs"@ || e == "java"@
}

pub open spec fn is_data(e: Seq<char>) -> bool {
    e == "json"@ || e == "txt"@ || e == "md"@ || e == "csv"@ || e == "yaml"@
}

pub open spec fn is_video(e: Seq<char>) -> bool {
    e == "avi"@ || e == "flv"@ || e == "mkv"@ || e == "mov"@ || e == "mp4"@ || e == "mpeg"@
        || e == "mpg"@ || e == "vob"@ || e == "wmv"@ || e == "webm"@
}

pub open spec fn is_audio(e: Seq<char>) -> bool {
    e == "aac"@ || e == "mp3"@ || e == "ogg"@ || e == "opus"@ || e == "wma"@ || e == "flac"@
        || e == "wav"@
}

pub open spec fn is_tmp(e: Seq<char>) -> bool {
    e == "tmp"@ || e == "swp"@ || e == "swo"@ || e == "swn"@ || e == "bak"@ || e == "bkp"@
        || e == "bk"@ || e == "parts"@
}

/// The sort key and colour group of an extension (the first, smaller tables):
/// images 1, archives 2, documents 3, sources and data 4, video 5, audio 6,
/// temporary files 9, anything else 0.
pub open spec fn ext_group_seq(e: Seq<char>) -> (Seq<char>, u8) {
    if is_img(e) {
        ("1_"@ + e, 1)
    } else if is_zip(e) {
        ("2_"@ + e, 2)
    } else if is_doc(e) {
        ("3_"@ + e, 3)
    } else if is_src(e) {
        ("4a_"@ + e, 4)
    } else if is_data(e) {
        ("4b_"@ + e, 4)
    } else if is_video(e) {
        ("5a_"@ + e, 5)
    } else if is_audio(e) {
        ("5b_"@ + e, 6)
    } else if is_tmp(e) {
        ("zzz_"@ + e, 9)
    } else {
        (e, 0)
    }
}

fn prefixed(prefix: &str, e: &str) -> (r: String)
    ensures
        r@ == prefix@ + e@,
{
    let mut s = String::from_str(prefix);
    s.append(e);
    s
}

pub fn ext_group(ext: String) -> (r: (String, u8))
    ensures
        r.0@ == ext_group_seq(ext@).0,
        r.1 == ext_group_seq(ext@).1,
{
    let e = ext.as_str();
    if str_eq(e, "png") || str_eq(e, "jpg") || str_eq(e, "jpeg") || str_eq(e, "gif") || str_eq(e, "svg")
        || str_eq(e, "webp") || str_eq(e, "ico") || str_eq(e, "bmp") {
        (prefixed("1_", e), 1)
    } else if str_eq(e, "7z") || str_eq(e, "zip") || str_eq(e, "tar") || str_eq(e, "gz")
        || str_eq(e, "bz2") || str_eq(e, "rar") || str_eq(e, "tgz") || str_eq(e, "xz")
        || str_eq(e, "txz") {
        (prefixed("2_", e), 2)
    } else if str_eq(e, "djvu") || str_eq(e, "doc") || str_eq(e, "docx") || str_eq(e, "dotx")
        || str_eq(e, "odp") || str_eq(e, "odt") || str_eq(e, "pdf") || str_eq(e, "ppt")
        || str_eq(e, "pptx") || str_eq(e, "rtf") || str_eq(e, "xls") || str_eq(e, "xlsx") {
        (prefixed("3_", e), 3)
    } else if str_eq(e, "html") || str_eq(e, "css") || str_eq(e, "scss") || str_eq(e, "sass")
        || str_eq(e, "js") || str_eq(e, "jsx") || str_eq(e, "ts") || str_eq(e, "tsx") || str_eq(e, "go")
        || str_eq(e, "rs") || str_eq(e, "java") {
        (prefixed("4a_", e), 4)
    } else if str_eq(e, "json") || str_eq(e, "txt") || str_eq(e, "md") || str_eq(e, "csv")
        || str_eq(e, "yaml") {
        (prefixed("4b_", e), 4)
    } else if str_eq(e, "avi") || str_eq(e, "flv") || str_eq(e, "mkv") || str_eq(e, "mov")
        || str_eq(e, "mp4") || str_eq(e, "mpeg") || str_eq(e, "mpg") || str_eq(e, "vob")
        || str_eq(e, "wmv") || str_eq(e, "webm") {
        (prefixed("5a_", e), 5)
    } else if str_eq(e, "aac") || str_eq(e, "mp3") || str_eq(e, "ogg") || str_eq(e, "opus")
        || str_eq(e, "wma") || str_eq(e, "flac") || str_eq(e, "wav") {
        (prefixed("5b_", e), 6)
    } else if str_eq(e, "tmp") || str_eq(e, "swp") || str_eq(e, "swo") || str_eq(e, "swn")
        || str_eq(e, "bak") || str_eq(e, "bkp") || str_eq(e, "bk") || str_eq(e, "parts") {
        (prefixed("zzz_", e), 9)
    } else {
        (ext, 0)
    }
}

} // verus!
