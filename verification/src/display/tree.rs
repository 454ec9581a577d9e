//! The tree layout: each entry under its parent, with branch lines.

use vstd::prelude::*;

use crate::args::Flags;
use crate::color::{RESET, WHITE};
use crate::file::{starts, File, FileLine};
use crate::sort::{sort_files, sorted_by, SortKey};
use crate::text::starts_with;

verus! {

/// Branch to the last entry of a directory.
pub const END: &'static str = "└──";
/// Branch to an entry that has siblings after it.
pub const LEAF: &'static str = "├──";
/// Continuation of a branch that has entries further down.
pub const TRUNK: &'static str = "│  ";
/// Indent below the last entry of a directory.
pub const HOLLOW: &'static str = "   ";

/// The order of the entries of one directory of the tree: by size with
/// `-S`, by time with `-t`, by name with `-N`, else directories first by
/// extension and name.
pub open spec fn tree_key_of(fl: Flags) -> SortKey {
    if fl.size_sort {
        SortKey::Size
    } else if fl.time_sort {
        SortKey::Time
    } else if fl.name_sort {
        SortKey::Name
    } else {
        SortKey::Kind
    }
}

pub fn tree_key(fl: &Flags) -> (r: SortKey)
    ensures
        r == tree_key_of(*fl),
{
    if fl.size_sort {
        SortKey::Size
    } else if fl.time_sort {
        SortKey::Time
    } else if fl.name_sort {
        SortKey::Name
    } else {
        SortKey::Kind
    }
}

/// Whether the entries of a directory at depth `lvl` are listed.
pub fn within_depth(fl: &Flags, lvl: usize) -> (r: bool)
    ensures
        r == (lvl < fl.lvl),
{
    lvl < fl.lvl
}

/// The displayed name of an entry of the tree: the trunk of its parents,
/// its branch (the end one for the last entry of a directory), then its name.
pub open spec fn branch_seq(trunk: Seq<char>, last: bool, name: Seq<char>) -> Seq<char> {
    WHITE@ + trunk + (if last { END@ } else { LEAF@ }) + " "@ + name
}

/// The trunk under an entry: its parents' trunk, then a line down unless
/// it is the last entry of its directory.
pub open spec fn sub_trunk_seq(trunk: Seq<char>, last: bool) -> Seq<char> {
    trunk + if last { HOLLOW@ } else { TRUNK@ }
}

pub fn branch_name(trunk: &str, last: bool, name: &str) -> (r: String)
    ensures
        r@ == branch_seq(trunk@, last, name@),
{
    let mut out = String::from_str(WHITE);
    out.append(trunk);
    out.append(if last { END } else { LEAF });
    out.append(" ");
    out.append(name);
    out
}

pub fn sub_trunk(trunk: &str, last: bool) -> (r: String)
    ensures
        r@ == sub_trunk_seq(trunk@, last),
{
    let mut out = String::from_str(trunk);
    out.append(if last { HOLLOW } else { TRUNK });
    out
}

/// One entry of a directory of the tree, as listed: the entry with its
/// branch in front of its name, and for a directory the trunk that its own
/// entries are listed under.
pub struct Branch {
    pub file: File,
    pub below: Option<String>,
}

/// The branch of entry `i` of `s`, the entries of one directory in order.
pub open spec fn branch_ok(b: Branch, s: Seq<File>, i: int, trunk: Seq<char>) -> bool {
    let f = s[i];
    let last = i == s.len() - 1;
    &&& b.file.name@ == branch_seq(trunk, last, f.name@)
    &&& b.file.sname == f.sname
    &&& b.file.ext == f.ext
    &&& b.file.len == f.len
    &&& b.file.dir == f.dir
    &&& b.file.line == f.line
    &&& match b.below {
        Some(t) => f.dir && t@ == sub_trunk_seq(trunk, last),
        None => !f.dir,
    }
}

/// The entries of one directory of the tree, once read: sorted as `fl`
/// asks, each with its branch, under `trunk`.
pub fn tree_level(files: Vec<File>, fl: &Flags, trunk: &str) -> (r: Vec<Branch>)
    ensures
        r@.len() == files@.len(),
        forall|i: int| 0 <= i < r@.len() ==> branch_ok(#[trigger] r@[i], sorted_by(files@, tree_key_of(*fl)), i, trunk@),
{
    let ghost s = sorted_by(files@, tree_key_of(*fl));
    proof {
        crate::sort::lemma_sorted_permutation(files@, tree_key_of(*fl));
    }
    let mut sorted = sort_files(files, tree_key(fl));
    let n = sorted.len();
    let mut out: Vec<Branch> = Vec::new();
    let mut i: usize = 0;
    while i < n
        invariant
            n == s.len(),
            i <= n,
            sorted@ == s.skip(i as int),
            out@.len() == i,
            forall|k: int| 0 <= k < i ==> branch_ok(#[trigger] out@[k], s, k, trunk@),
        decreases n - i,
    {
        let f = sorted.remove(0);
        proof {
            assert(f == s[i as int]);
            assert(sorted@ =~= s.skip(i + 1));
        }
        let last = i == n - 1;
        let below = if f.dir { Some(sub_trunk(trunk, last)) } else { None };
        let name = branch_name(trunk, last, f.name.as_str());
        let File { sname, name: _, ext, len, dir, line } = f;
        out.push(Branch { file: File { sname, name, ext, len, dir, line }, below });
        proof {
            assert(branch_ok(out@[i as int], s, i as int, trunk@));
        }
        i = i + 1;
    }
    out
}

/// A directory of the tree as read: its entries, and for the
/// subdirectories that were read in turn, each name with what it holds.
pub struct Dir {
    pub files: Vec<File>,
    pub children: Vec<(String, Dir)>,
}

/// What the listing shows of an entry.
pub struct FileView {
    pub sname: Seq<char>,
    pub name: Seq<char>,
    pub ext: Seq<char>,
    pub len: usize,
    pub dir: bool,
    pub line: Option<Box<FileLine>>,
}

pub open spec fn fview(f: File) -> FileView {
    FileView { sname: f.sname@, name: f.name@, ext: f.ext@, len: f.len, dir: f.dir, line: f.line }
}

/// An entry of the tree with its branch in front of its name.
pub open spec fn branch_view(f: File, trunk: Seq<char>, last: bool) -> FileView {
    FileView { name: branch_seq(trunk, last, f.name@), ..fview(f) }
}

/// The top entry, when there is one.
pub open spec fn top_view(top: Option<File>) -> Seq<FileView> {
    match top {
        Some(t) => seq![fview(t)],
        None => seq![],
    }
}

/// The first child at or after `from` named `name`.
pub open spec fn first_child(ch: Seq<(String, Dir)>, name: Seq<char>, from: nat) -> Option<nat>
    decreases ch.len() - from,
{
    if from >= ch.len() {
        None
    } else if ch[from as int].0@ == name {
        Some(from)
    } else {
        first_child(ch, name, from + 1)
    }
}

/// The tree listing of the directory `d` at depth `lvl`, its entries under
/// `trunk`: nothing beyond the depth limit or for an empty directory; else
/// the top entry, then each entry in the order `fl` asks for, with its
/// branch, followed by the listing of the subdirectory of its name one
/// level down (each subdirectory is used once, the first of its name).
pub open spec fn tree_spec(d: Dir, fl: Flags, lvl: nat, trunk: Seq<char>, top: Option<File>) -> Seq<FileView>
    decreases 2 * (fl.lvl - lvl) + 1, 0int,
{
    if lvl >= fl.lvl || d.files@.len() == 0 {
        seq![]
    } else {
        top_view(top) + level_from(sorted_by(d.files@, tree_key_of(fl)), d.children@, fl, lvl, trunk, 0)
    }
}

/// The entries of one directory of the tree from position `i` on, each
/// followed by what is under it; `ch` holds the subdirectories not used yet.
pub open spec fn level_from(s: Seq<File>, ch: Seq<(String, Dir)>, fl: Flags, lvl: nat, trunk: Seq<char>, i: nat) -> Seq<FileView>
    decreases 2 * (fl.lvl - lvl), s.len() - i,
{
    if i >= s.len() || lvl >= fl.lvl {
        seq![]
    } else {
        let last = i == s.len() - 1;
        let head = seq![branch_view(s[i as int], trunk, last)];
        if s[i as int].dir {
            match first_child(ch, s[i as int].sname@, 0) {
                Some(j) => head + tree_spec(ch[j as int].1, fl, lvl + 1, sub_trunk_seq(trunk, last), None)
                    + level_from(s, ch.remove(j as int), fl, lvl, trunk, i + 1),
                None => head + level_from(s, ch, fl, lvl, trunk, i + 1),
            }
        } else {
            head + level_from(s, ch, fl, lvl, trunk, i + 1)
        }
    }
}

proof fn lemma_first_child(ch: Seq<(String, Dir)>, name: Seq<char>, from: nat)
    ensures
        first_child(ch, name, from) matches Some(j) ==> from <= j < ch.len(),
    decreases ch.len() - from,
{
    if from < ch.len() && ch[from as int].0@ != name {
        lemma_first_child(ch, name, from + 1);
    }
}

fn find_child(ch: &Vec<(String, Dir)>, name: &str) -> (r: Option<usize>)
    ensures
        match r {
            Some(j) => first_child(ch@, name@, 0) == Some(j as nat),
            None => first_child(ch@, name@, 0) is None,
        },
{
    let n = ch.len();
    let mut k: usize = 0;
    while k < n
        invariant
            n == ch@.len(),
            k <= n,
            first_child(ch@, name@, 0) == first_child(ch@, name@, k as nat),
        decreases n - k,
    {
        if crate::text::str_eq(ch[k].0.as_str(), name) {
            return Some(k);
        }
        k = k + 1;
    }
    None
}

/// The whole tree listing of `d` at depth `lvl` under `trunk`, with `top`
/// (the directory's own entry) first when anything is listed.
pub fn tree_list(d: Dir, fl: &Flags, lvl: usize, trunk: &str, top: Option<File>) -> (r: Vec<File>)
    ensures
        r@.map_values(|f: File| fview(f)) == tree_spec(d, *fl, lvl as nat, trunk@, top),
    decreases fl.lvl - lvl,
{
    let ghost d0 = d;
    if !within_depth(fl, lvl) || d.files.len() == 0 {
        let v: Vec<File> = Vec::new();
        proof {
            assert(v@.map_values(|f: File| fview(f)) =~= Seq::<FileView>::empty());
        }
        return v;
    }
    let Dir { files, children } = d;
    let ghost s = sorted_by(files@, tree_key_of(*fl));
    proof {
        crate::sort::lemma_sorted_permutation(files@, tree_key_of(*fl));
    }
    let mut level = tree_level(files, fl, trunk);
    let mut children = children;
    let mut out: Vec<File> = Vec::new();
    match top {
        Some(t) => out.push(t),
        None => {},
    }
    let n = level.len();
    let ghost lv0 = level@;
    let mut i: usize = 0;
    proof {
        assert(out@.map_values(|f: File| fview(f)) =~= top_view(top));
        assert(level@ =~= lv0.skip(0));
    }
    while i < n
        invariant
            n == s.len(),
            n == lv0.len(),
            lvl < fl.lvl,
            i <= n,
            level@ == lv0.skip(i as int),
            forall|k: int| 0 <= k < n ==> branch_ok(#[trigger] lv0[k], s, k, trunk@),
            out@.map_values(|f: File| fview(f)) + level_from(s, children@, *fl, lvl as nat, trunk@, i as nat)
                == tree_spec(d0, *fl, lvl as nat, trunk@, top),
        decreases n - i,
    {
        let b = level.remove(0);
        proof {
            assert(b == lv0[i as int]);
            assert(level@ =~= lv0.skip(i + 1));
            assert(branch_ok(b, s, i as int, trunk@));
        }
        let ghost ch = children@;
        let ghost before = out@.map_values(|f: File| fview(f));
        let Branch { file, below } = b;
        let sname = file.sname.clone();
        out.push(file);
        proof {
            assert(fview(file) == branch_view(s[i as int], trunk@, i == n - 1));
            assert(out@.map_values(|f: File| fview(f)) =~= before + seq![branch_view(s[i as int], trunk@, i == n - 1)]);
        }
        match below {
            Some(t) => {
                match find_child(&children, sname.as_str()) {
                    Some(j) => {
                        proof {
                            lemma_first_child(children@, sname@, 0);
                        }
                        let (_, child) = children.remove(j);
                        let mut sub = tree_list(child, fl, lvl + 1, t.as_str(), None);
                        let ghost mid = out@.map_values(|f: File| fview(f));
                        let ghost subv = sub@.map_values(|f: File| fview(f));
                        out.append(&mut sub);
                        proof {
                            assert(out@.map_values(|f: File| fview(f)) =~= mid + subv);
                        }
                    },
                    None => {},
                }
            },
            None => {},
        }
        proof {
            assert(out@.map_values(|f: File| fview(f)) + level_from(s, children@, *fl, lvl as nat, trunk@, (i + 1) as nat)
                =~= before + level_from(s, ch, *fl, lvl as nat, trunk@, i as nat));
        }
        i = i + 1;
    }
    proof {
        assert(out@.map_values(|f: File| fview(f)) + Seq::<FileView>::empty() =~= out@.map_values(|f: File| fview(f)));
    }
    out
}

/// The flags for the top of the tree: a hidden directory given by name is
/// shown even without `-a`.
pub fn root_flags(fl: &Flags, name: &str) -> (r: Flags)
    ensures
        r == (if !fl.all && starts(name@, "."@) { Flags { all: true, ..*fl } } else { *fl }),
{
    if !fl.all && starts_with(name, ".") {
        Flags { all: true, ..*fl }
    } else {
        *fl
    }
}

/// The top entry of the tree: its name after the directory it is in.
pub fn root_entry(f: File, parent: &str) -> (r: File)
    ensures
        r.name@ == WHITE@ + " "@ + parent@ + f.name@,
        r.sname == f.sname,
        r.ext == f.ext,
        r.len == f.len,
        r.dir == f.dir,
        r.line == f.line,
{
    let mut name = String::from_str(WHITE);
    name.append(" ");
    name.append(parent);
    name.append(f.name.as_str());
    let File { sname, name: _, ext, len, dir, line } = f;
    File { sname, name, ext, len, dir, line }
}

/// The first `k` names, one below the other.
pub open spec fn name_lines(s: Seq<File>, k: nat) -> Seq<char>
    decreases k,
{
    if k == 0 {
        seq![]
    } else if k == 1 {
        s[0].name@
    } else {
        name_lines(s, (k - 1) as nat) + "\n"@ + s[k - 1].name@
    }
}

/// What the tree listing prints: the names one below the other, then the
/// colour reset.
pub open spec fn tree_text(s: Seq<File>) -> Seq<char> {
    name_lines(s, s.len()) + RESET@
}

/// The text that the tree listing prints for `files`.
pub fn print(files: &Vec<File>) -> (r: String)
    ensures
        r@ == tree_text(files@),
{
    let n = files.len();
    let mut out = String::new();
    let mut k: usize = 0;
    while k < n
        invariant
            n == files@.len(),
            k <= n,
            out@ == name_lines(files@, k as nat),
        decreases n - k,
    {
        if k > 0 {
            out.append("\n");
        }
        out.append(files[k].name.as_str());
        proof {
            reveal_strlit("\n");
            if k == 0 {
                assert(out@ =~= name_lines(files@, 1));
            }
        }
        k = k + 1;
    }
    out.append(RESET);
    out
}

} // verus!
