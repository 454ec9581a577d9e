//! Names of files: their parts taken from a path, the group of an
//! extension, and the coloured form of a name.

use vstd::prelude::*;

use crate::color::{BLUE_L, CYAN, GREEN_H, WHITE};
use crate::color::{AVI, CFG, DOC, IMG, MP3, SRC, TMP, ZIP};
use crate::text::str_eq;

verus! {

/// What `Path::file_name` gives for the path `p`: its final component, unless
/// that is `..`, `.` or a root.
pub uninterp spec fn path_file_name(p: Seq<char>) -> Option<Seq<char>>;

/// What `Path::parent` gives for the path `p`: the path without its final
/// component, `None` for a root or the empty path.
pub uninterp spec fn path_parent(p: Seq<char>) -> Option<Seq<char>>;

/// What `str::to_lowercase` gives for `s`.
pub uninterp spec fn lowercase(s: Seq<char>) -> Seq<char>;

pub open spec fn opt_seq(o: Option<String>) -> Option<Seq<char>> {
    match o {
        Some(s) => Some(s@),
        None => None,
    }
}

/// Number of characters of `s` after its last `c` (all of them when there is none).
pub open spec fn after_last(s: Seq<char>, c: char) -> nat
    decreases s.len(),
{
    if s.len() == 0 || s.last() == c {
        0
    } else {
        1 + after_last(s.drop_last(), c)
    }
}

/// A characterisation of `after_last`: at most the whole length; the
/// character before the counted tail is `c`, which does not occur in it;
/// counting everything means there is no `c`.
pub proof fn lemma_after_last(s: Seq<char>, c: char)
    ensures
        after_last(s, c) <= s.len(),
        after_last(s, c) < s.len() ==> s[s.len() - after_last(s, c) - 1] == c,
        forall|i: int| s.len() - after_last(s, c) <= i < s.len() ==> #[trigger] s[i] != c,
        after_last(s, c) == s.len() ==> !s.contains(c),
    decreases s.len(),
{
    if s.len() > 0 && s.last() != c {
        let t = s.drop_last();
        lemma_after_last(t, c);
        assert forall|i: int| s.len() - after_last(s, c) <= i < s.len() implies #[trigger] s[i] != c by {
            if i < t.len() {
                assert(s[i] == t[i]);
            }
        }
        if after_last(s, c) == s.len() {
            assert forall|i: int| 0 <= i < s.len() implies s[i] != c by {
                if i < t.len() {
                    assert(s[i] == t[i]);
                }
            }
        }
        if after_last(s, c) < s.len() {
            assert(s[s.len() - after_last(s, c) - 1] == t[t.len() - after_last(t, c) - 1]);
        }
    }
}

/// `p` is a relative path of plain components (none empty, `.` or `..`)
/// separated by single `/`.
pub open spec fn plain_path(p: Seq<char>) -> bool
    decreases p.len(),
{
    let k = after_last(p, '/');
    if k == 0 || k > p.len() || p.skip(p.len() - k) == "."@ || p.skip(p.len() - k) == ".."@ {
        false
    } else if k < p.len() {
        plain_path(p.take(p.len() - k - 1))
    } else {
        true
    }
}

/// The last component of a plain path.
pub open spec fn path_name(p: Seq<char>) -> Seq<char> {
    p.skip(p.len() - after_last(p, '/'))
}

/// The directory part of a plain path, with its trailing `/`.
pub open spec fn path_dir(p: Seq<char>) -> Seq<char> {
    p.take(p.len() - after_last(p, '/'))
}

/// A plain path is its directory part followed by its last component, and
/// the directory part is empty or ends with `/`.
pub proof fn lemma_plain_path_split(p: Seq<char>)
    requires
        plain_path(p),
    ensures
        path_dir(p) + path_name(p) == p,
        path_dir(p).len() == 0 || path_dir(p).last() == '/',
        path_name(p).len() > 0,
{
    lemma_after_last(p, '/');
    assert(path_dir(p) + path_name(p) =~= p);
}

/// The extension of a file name, as `Path::extension` documents it: none
/// without a name, none without a `.`, none when the only `.` begins the
/// name, else the part after the last `.`.
pub open spec fn extension_of(name: Option<Seq<char>>) -> Option<Seq<char>> {
    match name {
        None => None,
        Some(n) => {
            let k = after_last(n, '.');
            if !n.contains('.') || k + 1 == n.len() {
                None
            } else {
                Some(n.skip(n.len() - k))
            }
        },
    }
}

/// `Path::file_name` of `p`, as a string. The name is a component of the
/// path, so it is no longer than the path; a component of a path that is
/// valid UTF-8 is valid UTF-8 too, so the conversion loses nothing. Of a
/// plain relative path (see `plain_path`) the final component is the part
/// after the last `/`.
#[verifier::external_body]
fn file_name_of(p: &str) -> (r: Option<String>)
    ensures
        opt_seq(r) == path_file_name(p@),
        r matches Some(n) ==> n@.len() <= p@.len(),
        plain_path(p@) ==> opt_seq(r) == Some(path_name(p@)),
{
    match std::path::Path::new(p).file_name() {
        Some(n) => Some(n.to_string_lossy().into_owned()),
        None => None,
    }
}

/// `Path::extension` of `p`, as a string. Its documentation defines it from
/// the file name: this contract states that definition over `path_file_name`.
#[verifier::external_body]
fn extension_of_path(p: &str) -> (r: Option<String>)
    ensures
        opt_seq(r) == extension_of(path_file_name(p@)),
{
    match std::path::Path::new(p).extension() {
        Some(e) => Some(e.to_string_lossy().into_owned()),
        None => None,
    }
}

/// `Path::parent` of `p`, as a string. Of a plain relative path (see
/// `plain_path`) it is the part before the last `/`, and empty for a single
/// component.
#[verifier::external_body]
pub(crate) fn parent_of(p: &str) -> (r: Option<String>)
    ensures
        opt_seq(r) == path_parent(p@),
        plain_path(p@) ==> opt_seq(r) == Some(
            if after_last(p@, '/') < p@.len() { p@.take(p@.len() - after_last(p@, '/') - 1) } else { seq![] },
        ),
{
    match std::path::Path::new(p).parent() {
        Some(d) => Some(d.to_string_lossy().into_owned()),
        None => None,
    }
}

/// `str::to_lowercase` of `s`.
#[verifier::external_body]
fn to_lowercase(s: &str) -> (r: String)
    ensures
        r@ == lowercase(s@),
{
    s.to_lowercase()
}

/// The directory part of a path, followed by `/` when it is not empty.
pub open spec fn parent_path_seq(path: Seq<char>) -> Seq<char> {
    match path_parent(path) {
        Some(p) => if p.len() > 0 { p + "/"@ } else { p },
        None => seq![],
    }
}

pub fn parent_path(path: &str) -> (r: String)
    ensures
        r@ == parent_path_seq(path@),
        plain_path(path@) ==> r@ == path_dir(path@),
{
    proof {
        reveal_strlit("/");
        let p = path@;
        let k = after_last(p, '/');
        lemma_after_last(p, '/');
        if plain_path(p) && k < p.len() {
            let q = p.take(p.len() - k - 1);
            assert(plain_path(q));
            if q.len() == 0 {
                assert(after_last(q, '/') == 0);
                assert(!plain_path(q));
            }
            assert(q + "/"@ =~= path_dir(p));
        }
        if plain_path(p) && k == p.len() {
            assert(path_dir(p) =~= Seq::<char>::empty());
        }
    }
    match parent_of(path) {
        Some(p) => {
            let mut p = p;
            if p.as_str().unicode_len() > 0 {
                p.append("/");
            }
            p
        },
        None => String::new(),
    }
}

/// The extension of a path in lower case, empty when there is none.
pub open spec fn ext_seq(path: Seq<char>) -> Seq<char> {
    match extension_of(path_file_name(path)) {
        Some(e) => lowercase(e),
        None => seq![],
    }
}

pub fn ext(path: &str) -> (r: String)
    ensures
        r@ == ext_seq(path@),
{
    match extension_of_path(path) {
        Some(e) => to_lowercase(e.as_str()),
        None => String::new(),
    }
}

pub open spec fn is_img(e: Seq<char>) -> bool {
    e == "png"@ || e == "jpg"@ || e == "jpeg"@ || e == "gif"@ || e == "svg"@ || e == "webp"@
        || e == "ico"@ || e == "bmp"@ || e == "tiff"@ || e == "fig"@ || e == "psd"@ || e == "sketch"@
}

pub open spec fn is_zip(e: Seq<char>) -> bool {
    e == "7z"@ || e == "zip"@ || e == "xz"@ || e == "gz"@ || e == "rar"@ || e == "bz2"@ || e == "tar"@
        || e == "tgz"@ || e == "tbz"@ || e == "txz"@
}

pub open spec fn is_doc(e: Seq<char>) -> bool {
    e == "djvu"@ || e == "doc"@ || e == "docx"@ || e == "dotx"@ || e == "odp"@ || e == "odt"@
        || e == "pdf"@ || e == "ppt"@ || e == "pptx"@ || e == "rtf"@ || e == "xls"@ || e == "xlsx"@
        || e == "fb2"@
}

pub open spec fn is_src(e: Seq<char>) -> bool {
    e == "html"@ || e == "css"@ || e == "scss"@ || e == "sass"@ || e == "js"@ || e == "jsx"@
        || e == "ts"@ || e == "tsx"@ || e == "go"@ || e == "rs"@ || e == "java"@ || e == "sql"@
        || e == "py"@ || e == "c"@ || e == "cpp"@ || e == "hs"@ || e == "dart"@ || e == "mjs"@
        || e == "cjs"@ || e == "sh"@
}

pub open spec fn is_cfg(e: Seq<char>) -> bool {
    e == "json"@ || e == "txt"@ || e == "md"@ || e == "csv"@ || e == "yaml"@ || e == "toml"@
        || e == "cfg"@ || e == "conf"@ || e == "ini"@ || e == "xml"@ || e == "reg"@
}

pub open spec fn is_video(e: Seq<char>) -> bool {
    e == "avi"@ || e == "flv"@ || e == "mkv"@ || e == "mov"@ || e == "mp4"@ || e == "mpeg"@
        || e == "mpg"@ || e == "vob"@ || e == "wmv"@ || e == "webm"@
}

pub open spec fn is_audio(e: Seq<char>) -> bool {
    e == "aac"@ || e == "mp3"@ || e == "ogg"@ || e == "opus"@ || e == "wma"@ || e == "flac"@
        || e == "wav"@
}

pub open spec fn is_tmp(e: Seq<char>) -> bool {
    e == "tmp"@ || e == "swp"@ || e == "swo"@ || e == "swn"@ || e == "bak"@ || e == "bkp"@
        || e == "bk"@ || e == "parts"@ || e == "lock"@
}

/// The sort key and the colour group of an extension: images 1, archives 2,
/// documents 3, data 4, video 5, audio 6, sources 7, temporary files 9,
/// anything else 0 (with the extension itself as the key).
pub open spec fn ext_group_seq(e: Seq<char>) -> (Seq<char>, u8) {
    if is_img(e) {
        ("1_"@ + e, 1)
    } else if is_zip(e) {
        ("2_"@ + e, 2)
    } else if is_doc(e) {
        ("3_"@ + e, 3)
    } else if is_src(e) {
        ("4a_"@ + e, 7)
    } else if is_cfg(e) {
        ("4b_"@ + e, 4)
    } else if is_video(e) {
        ("5a_"@ + e, 5)
    } else if is_audio(e) {
        ("5b_"@ + e, 6)
    } else if is_tmp(e) {
        ("zzz_"@ + e, 9)
    } else {
        (e, 0)
    }
}

fn prefixed(prefix: &str, e: &str) -> (r: String)
    ensures
        r@ == prefix@ + e@,
{
    let mut s = String::from_str(prefix);
    s.append(e);
    s
}

pub fn ext_group(ext: String) -> (r: (String, u8))
    ensures
        r.0@ == ext_group_seq(ext@).0,
        r.1 == ext_group_seq(ext@).1,
{
    let e = ext.as_str();
    if str_eq(e, "png") || str_eq(e, "jpg") || str_eq(e, "jpeg") || str_eq(e, "gif") || str_eq(e, "svg")
        || str_eq(e, "webp") || str_eq(e, "ico") || str_eq(e, "bmp") || str_eq(e, "tiff")
        || str_eq(e, "fig") || str_eq(e, "psd") || str_eq(e, "sketch") {
        (prefixed("1_", e), 1)
    } else if str_eq(e, "7z") || str_eq(e, "zip") || str_eq(e, "xz") || str_eq(e, "gz") || str_eq(e, "rar")
        || str_eq(e, "bz2") || str_eq(e, "tar") || str_eq(e, "tgz") || str_eq(e, "tbz") || str_eq(e, "txz") {
        (prefixed("2_", e), 2)
    } else if str_eq(e, "djvu") || str_eq(e, "doc") || str_eq(e, "docx") || str_eq(e, "dotx")
        || str_eq(e, "odp") || str_eq(e, "odt") || str_eq(e, "pdf") || str_eq(e, "ppt")
        || str_eq(e, "pptx") || str_eq(e, "rtf") || str_eq(e, "xls") || str_eq(e, "xlsx")
        || str_eq(e, "fb2") {
        (prefixed("3_", e), 3)
    } else if str_eq(e, "html") || str_eq(e, "css") || str_eq(e, "scss") || str_eq(e, "sass")
        || str_eq(e, "js") || str_eq(e, "jsx") || str_eq(e, "ts") || str_eq(e, "tsx") || str_eq(e, "go")
        || str_eq(e, "rs") || str_eq(e, "java") || str_eq(e, "sql") || str_eq(e, "py") || str_eq(e, "c")
        || str_eq(e, "cpp") || str_eq(e, "hs") || str_eq(e, "dart") || str_eq(e, "mjs")
        || str_eq(e, "cjs") || str_eq(e, "sh") {
        (prefixed("4a_", e), 7)
    } else if str_eq(e, "json") || str_eq(e, "txt") || str_eq(e, "md") || str_eq(e, "csv")
        || str_eq(e, "yaml") || str_eq(e, "toml") || str_eq(e, "cfg") || str_eq(e, "conf")
        || str_eq(e, "ini") || str_eq(e, "xml") || str_eq(e, "reg") {
        (prefixed("4b_", e), 4)
    } else if str_eq(e, "avi") || str_eq(e, "flv") || str_eq(e, "mkv") || str_eq(e, "mov")
        || str_eq(e, "mp4") || str_eq(e, "mpeg") || str_eq(e, "mpg") || str_eq(e, "vob")
        || str_eq(e, "wmv") || str_eq(e, "webm") {
        (prefixed("5a_", e), 5)
    } else if str_eq(e, "aac") || str_eq(e, "mp3") || str_eq(e, "ogg") || str_eq(e, "opus")
        || str_eq(e, "wma") || str_eq(e, "flac") || str_eq(e, "wav") {
        (prefixed("5b_", e), 6)
    } else if str_eq(e, "tmp") || str_eq(e, "swp") || str_eq(e, "swo") || str_eq(e, "swn")
        || str_eq(e, "bak") || str_eq(e, "bkp") || str_eq(e, "bk") || str_eq(e, "parts")
        || str_eq(e, "lock") {
        (prefixed("zzz_", e), 9)
    } else {
        (ext, 0)
    }
}

/// The name of the file at `path`: its final component; for a path that has
/// none (such as `.` or `..`), the final component of `canonical`, the
/// resolved form of the path when the caller has one; else the path itself.
pub open spec fn filename_seq(path: Seq<char>, canonical: Option<Seq<char>>) -> Seq<char> {
    match path_file_name(path) {
        Some(n) => n,
        None => match canonical {
            Some(c) => match path_file_name(c) {
                Some(n) => n,
                None => path,
            },
            None => path,
        },
    }
}

pub fn filename(path: &str, canonical: Option<&str>) -> (r: String)
    ensures
        plain_path(path@) ==> r@ == path_name(path@),
        r@ == filename_seq(path@, match canonical { Some(c) => Some(c@), None => None }),
        r@.len() <= path@.len() || (canonical matches Some(c) && r@.len() <= c@.len()),
{
    match file_name_of(path) {
        Some(n) => n,
        None => match canonical {
            Some(c) => match file_name_of(c) {
                Some(n) => n,
                None => String::from_str(path),
            },
            None => String::from_str(path),
        },
    }
}

/// The colour that `filename_fmt` gives a plain file of extension group
/// `egrp` and extension `ext`.
pub open spec fn name_color(ext: Seq<char>, egrp: u8) -> Seq<char> {
    if egrp > 0 {
        if egrp == 1 { IMG@ }
        else if egrp == 2 { ZIP@ }
        else if egrp == 3 { DOC@ }
        else if egrp == 4 { CFG@ }
        else if egrp == 5 { AVI@ }
        else if egrp == 6 { MP3@ }
        else if egrp == 7 { SRC@ }
        else if egrp == 9 { TMP@ }
        else { WHITE@ }
    } else if ext == "exe"@ {
        GREEN_H@
    } else {
        WHITE@
    }
}

/// `name` in the colour of its kind: links cyan, directories blue,
/// executables green, else by extension group.
pub open spec fn filename_fmt_seq(name: Seq<char>, ext: Seq<char>, egrp: u8, dir: bool, exe: bool, lnk: bool) -> Seq<char> {
    if lnk {
        CYAN@ + name
    } else if dir {
        BLUE_L@ + name
    } else if exe {
        GREEN_H@ + name
    } else {
        name_color(ext, egrp) + name
    }
}

pub fn filename_fmt(name: &str, ext: &str, egrp: u8, dir: bool, exe: bool, lnk: bool) -> (r: String)
    ensures
        r@ == filename_fmt_seq(name@, ext@, egrp, dir, exe, lnk),
{
    let color: &str = if lnk {
        CYAN
    } else if dir {
        BLUE_L
    } else if exe {
        GREEN_H
    } else if egrp > 0 {
        if egrp == 1 {
            IMG
        } else if egrp == 2 {
            ZIP
        } else if egrp == 3 {
            DOC
        } else if egrp == 4 {
            CFG
        } else if egrp == 5 {
            AVI
        } else if egrp == 6 {
            MP3
        } else if egrp == 7 {
            SRC
        } else if egrp == 9 {
            TMP
        } else {
            WHITE
        }
    } else if str_eq(ext, "exe") {
        GREEN_H
    } else {
        WHITE
    };
    let mut out = String::from_str(color);
    out.append(name);
    out
}

} // verus!
