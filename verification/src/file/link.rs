//! The target of a symbolic link, as the long listing shows it.

use vstd::prelude::*;

use crate::color::{CYAN, RED, WHITE};
use crate::file::name::{
    ext, ext_group, ext_group_seq, ext_seq, filename, filename_fmt, filename_fmt_seq, filename_seq,
    parent_path, parent_path_seq,
};

verus! {

/// What reading a symbolic link gave: the path it holds, that path taken
/// relative to the link's directory, whether the target is an executable or
/// a directory, and whether reading the link or its target failed. The two
/// resolved forms are those of the target and of the path it holds, when
/// resolving them succeeded.
#[derive(Debug)]
pub struct LinkInfo {
    pub read_link_path: String,
    pub full_path: String,
    pub exe: bool,
    pub dir: bool,
    pub error: bool,
    pub full_canonical: Option<String>,
    pub read_link_canonical: Option<String>,
}

pub open spec fn opt_view(o: Option<String>) -> Option<Seq<char>> {
    match o {
        Some(s) => Some(s@),
        None => None,
    }
}

/// The text after a link's name (` -> ` and its target, coloured by the
/// target's kind; the directory part absolute with `abs`), and whether the
/// target is a directory. A broken link shows the path it holds in red.
pub open spec fn ref_fmt_seq(info: LinkInfo, abs: bool) -> (Seq<char>, bool) {
    let path = info.read_link_path@;
    if info.error {
        (RED@ + " -> "@ + path, false)
    } else {
        let e = ext_group_seq(ext_seq(path));
        let name = filename_seq(path, opt_view(info.read_link_canonical));
        let path_to = if abs {
            match info.full_canonical {
                Some(c) => parent_path_seq(c@),
                None => parent_path_seq(path),
            }
        } else {
            parent_path_seq(path)
        };
        (WHITE@ + " -> "@ + CYAN@ + path_to + filename_fmt_seq(name, e.0, e.1, info.dir, info.exe, false), info.dir)
    }
}

pub fn ref_fmt(info: &LinkInfo, abs: bool) -> (r: (String, bool))
    ensures
        r.0@ == ref_fmt_seq(*info, abs).0,
        r.1 == ref_fmt_seq(*info, abs).1,
{
    let path = info.read_link_path.as_str();
    if info.error {
        let mut s = String::from_str(RED);
        s.append(" -> ");
        s.append(path);
        return (s, false);
    }
    let (e, egrp) = ext_group(ext(path));
    let canonical = match &info.read_link_canonical {
        Some(c) => Some(c.as_str()),
        None => None,
    };
    let name = filename(path, canonical);
    let path_to = if abs {
        match &info.full_canonical {
            Some(c) => parent_path(c.as_str()),
            None => parent_path(path),
        }
    } else {
        parent_path(path)
    };
    let mut s = String::from_str(WHITE);
    s.append(" -> ");
    s.append(CYAN);
    s.append(path_to.as_str());
    s.append(filename_fmt(name.as_str(), e.as_str(), egrp, info.dir, info.exe, false).as_str());
    (s, info.dir)
}

/// A path is relative when it does not begin at the root (`/`).
pub open spec fn is_relative(p: Seq<char>) -> bool {
    !(p.len() > 0 && p[0] == '/')
}

/// `Path::is_relative` of `p`. Its documentation: on Unix a path is
/// absolute when it has a root, and has a root when it begins with `/`.
#[verifier::external_body]
fn path_is_relative(p: &str) -> (r: bool)
    ensures
        r == is_relative(p@),
{
    std::path::Path::new(p).is_relative()
}

/// Where the path `target` that the link at `link` holds leads: a relative
/// target is taken from the link's directory.
pub open spec fn link_full_path_seq(link: Seq<char>, target: Seq<char>) -> Seq<char> {
    if is_relative(target) {
        parent_path_seq(link) + "/"@ + target
    } else {
        target
    }
}

pub fn link_full_path(link: &str, target: &str) -> (r: String)
    ensures
        r@ == link_full_path_seq(link@, target@),
{
    if path_is_relative(target) {
        let mut s = parent_path(link);
        s.append("/");
        s.append(target);
        s
    } else {
        String::from_str(target)
    }
}

} // verus!
