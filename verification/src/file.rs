//! What the listing knows of one file, and how it is gathered from the
//! facts that were read from the file system.

pub mod attr;
pub mod link;
pub mod mode;
pub mod name;
pub mod size;
pub mod time;

use vstd::prelude::*;
use vstd::utf8::encode_utf8;

pub use self::attr::Xattr;

use crate::args::Flags;
use crate::color::{MAGENTA, RED, RESET, UNDERLINE};
use crate::display::GRID_GAP;
use crate::text::{dec, decimal, lemma_dec_len_u64, starts_with};
use crate::Width;
use self::attr::xattr_ok;
use self::link::{opt_view, ref_fmt, ref_fmt_seq, LinkInfo};
use self::mode::{has_bits, permissions_fmt, permissions_seq, underline, underlined, USER_EXE};
use self::size::size_text_seq;
use self::name::{
    ext, ext_group, ext_group_seq, ext_seq, filename, filename_fmt, filename_fmt_seq, filename_seq,
};
use self::time::{unix, unix_seq, FileTimes};

verus! {

/// One entry of a listing.
#[derive(Clone, Debug)]
pub struct File {
    /// The plain name.
    pub sname: String,
    /// The name as displayed (coloured, with a link's target).
    pub name: String,
    /// The sort key of the extension (see `name::ext_group`).
    pub ext: String,
    /// Columns taken in the grid: the name's length and the gap.
    pub len: usize,
    pub dir: bool,
    /// The columns of the long listing.
    pub line: Option<Box<FileLine>>,
}

/// The columns of one entry of the long listing.
#[derive(Clone, Debug)]
pub struct FileLine {
    pub time: u64,
    pub size: u64,
    pub size_str: String,
    pub size_suf: String,
    pub user: String,
    pub group: String,
    pub inode: String,
    pub perm: String,
    pub lnk: bool,
    pub attr: Option<Xattr>,
}

/// What the metadata of a file says (of the link itself for a symbolic link,
/// unless the listing follows links).
#[derive(Clone, Copy, Debug)]
pub struct Meta {
    pub is_dir: bool,
    pub is_symlink: bool,
    pub mode: u32,
    pub nlink: u64,
    pub size: u64,
    pub ino: u64,
    pub times: FileTimes,
}

/// Everything the listing reads from the file system about one path.
#[derive(Debug)]
pub struct FileFacts {
    /// The path as listed.
    pub path: String,
    /// The resolved form of the path, when resolving it succeeded.
    pub canonical: Option<String>,
    pub meta: Meta,
    /// Names of the owning user and group.
    pub user: String,
    pub group: String,
    /// For a symbolic link, what reading it gave.
    pub link: Option<LinkInfo>,
    /// Extended attributes and access control list, when there are any.
    pub attr: Option<Xattr>,
    /// The size in short form and its unit letter (see `size_to_string`).
    pub size_text: (String, String),
}

/// Bytes in the UTF-8 form of `s` (what `str::len` counts).
pub open spec fn byte_len(s: Seq<char>) -> nat {
    encode_utf8(s).len()
}

/// The facts hold together: a link comes with what reading it gave, and
/// the names fit the columns' arithmetic.
pub open spec fn facts_ok(facts: FileFacts) -> bool {
    &&& facts.meta.is_symlink ==> facts.link is Some
    &&& facts.path@.len() + GRID_GAP <= usize::MAX
    &&& facts.canonical matches Some(c) ==> c@.len() + GRID_GAP <= usize::MAX
    &&& xattr_ok(facts.attr)
    &&& byte_len(facts.user@) <= usize::MAX
    &&& byte_len(facts.group@) <= usize::MAX
    &&& byte_len(facts.size_text.0@) + byte_len(facts.size_text.1@) <= usize::MAX
    &&& size_text_ok(facts.meta.size, facts.size_text.0@, facts.size_text.1@)
}

/// `text` and `unit` are what `size::size_to_string` gives for `size`: the
/// unit by the size's magnitude, and below a kibibyte the numeral (above,
/// `text` is the short form of the size, which is computed elsewhere).
pub open spec fn size_text_ok(size: u64, text: Seq<char>, unit: Seq<char>) -> bool {
    (text, unit) == size_text_seq(size, text)
}

pub open spec fn is_exe(rwx: u32) -> bool {
    rwx & USER_EXE == USER_EXE
}

/// The extension key and group of an entry: none for a directory.
pub open spec fn entry_group(facts: FileFacts) -> (Seq<char>, u8) {
    if facts.meta.is_dir { (seq![], 0) } else { ext_group_seq(ext_seq(facts.path@)) }
}

pub open spec fn with_underline(rwx: u32, name: Seq<char>) -> Seq<char> {
    if underlined(rwx) { UNDERLINE@ + name + RESET@ } else { name }
}

/// The name of the file at `facts.path`.
pub open spec fn sname_of(facts: FileFacts) -> Seq<char> {
    filename_seq(facts.path@, opt_view(facts.canonical))
}

/// The displayed name of a grid entry: coloured by kind and extension, red
/// for a broken link, underlined for special files.
pub open spec fn grid_name(facts: FileFacts, sname: Seq<char>) -> Seq<char> {
    let md = facts.meta;
    let g = entry_group(facts);
    let name = filename_fmt_seq(sname, g.0, g.1, md.is_dir, is_exe(md.mode), md.is_symlink);
    let name = if md.is_symlink && facts.link->0.error { RED@ + sname } else { name };
    with_underline(md.mode, name)
}

/// Whether a grid entry counts as a directory: a link by its target.
pub open spec fn grid_dir(facts: FileFacts) -> bool {
    if facts.meta.is_symlink { facts.link->0.dir } else { facts.meta.is_dir }
}

pub open spec fn grid_file(f: File, facts: FileFacts, sname: Seq<char>) -> bool {
    &&& f.sname@ == sname
    &&& f.name@ == grid_name(facts, sname)
    &&& f.ext@ == entry_group(facts).0
    &&& f.len == sname.len() + GRID_GAP
    &&& f.dir == grid_dir(facts)
    &&& f.line is None
}

fn grid_info(facts: FileFacts, sname: String) -> (r: File)
    requires
        facts_ok(facts),
        sname@.len() + GRID_GAP <= usize::MAX,
    ensures
        grid_file(r, facts, sname@),
{
    let md = facts.meta;
    let lnk = md.is_symlink;
    let rwx = md.mode;
    let exe = rwx & USER_EXE == USER_EXE;
    let mut dir = md.is_dir;
    let (ext, egrp) = if dir { (String::new(), 0) } else { ext_group(ext(facts.path.as_str())) };
    let mut name = filename_fmt(sname.as_str(), ext.as_str(), egrp, dir, exe, lnk);
    let len = sname.as_str().unicode_len() + GRID_GAP;
    if lnk {
        match &facts.link {
            Some(info) => {
                dir = info.dir;
                if info.error {
                    name = String::from_str(RED);
                    name.append(sname.as_str());
                }
            },
            None => {},
        }
    }
    if underline(rwx) {
        let mut u = String::from_str(UNDERLINE);
        u.append(name.as_str());
        u.append(RESET);
        name = u;
    }
    proof {
        assert(ext@ == entry_group(facts).0);
    }
    File { sname, name, ext, len, dir, line: None }
}

/// The size a long entry records: for a directory (not a link), its link
/// count less two (the entries it holds), else the size in bytes.
pub open spec fn entry_size(md: Meta) -> u64 {
    if md.is_dir && !md.is_symlink {
        if md.nlink < 3 { 0 } else { (md.nlink - 2) as u64 }
    } else {
        md.size
    }
}

/// Whether the short size text is used: for files when sizes are not in bytes.
pub open spec fn uses_size_text(facts: FileFacts, fl: Flags) -> bool {
    !facts.meta.is_dir && !fl.bytes
}

/// Characters the size column needs for this entry.
pub open spec fn size_width(facts: FileFacts, fl: Flags) -> nat {
    let size = entry_size(facts.meta);
    if facts.meta.is_dir {
        dec(size as nat).len() + 1
    } else if fl.bytes {
        dec(size as nat).len()
    } else {
        byte_len(facts.size_text.0@) + byte_len(facts.size_text.1@)
    }
}

/// The inode column: the serial number in magenta and two spaces, when asked for.
pub open spec fn inode_text(facts: FileFacts, fl: Flags) -> Seq<char> {
    if fl.inode { MAGENTA@ + dec(facts.meta.ino as nat) + "  "@ } else { seq![] }
}

pub open spec fn max(a: nat, b: nat) -> nat {
    if a < b { b } else { a }
}

/// The column widths after a long entry for `facts` is added.
pub open spec fn list_width(w: Width, facts: FileFacts, fl: Flags) -> Width {
    Width {
        szn: max(w.szn as nat, size_width(facts, fl)) as usize,
        uid: max(w.uid as nat, byte_len(facts.user@)) as usize,
        gid: if fl.group { max(w.gid as nat, byte_len(facts.group@)) as usize } else { w.gid },
        inode: if fl.inode { max(w.inode as nat, inode_text(facts, fl).len()) as usize } else { w.inode },
        xattr: w.xattr || facts.attr is Some,
    }
}

/// The columns of the long listing never shrink, and once an entry is
/// added each of them is wide enough for it.
pub proof fn lemma_list_width_grows(w: Width, facts: FileFacts, fl: Flags)
    requires
        facts_ok(facts),
    ensures
        list_width(w, facts, fl).szn >= w.szn,
        list_width(w, facts, fl).szn >= size_width(facts, fl),
        list_width(w, facts, fl).uid >= w.uid,
        list_width(w, facts, fl).uid >= byte_len(facts.user@),
        list_width(w, facts, fl).gid >= w.gid,
        fl.group ==> list_width(w, facts, fl).gid >= byte_len(facts.group@),
        list_width(w, facts, fl).inode >= w.inode,
        fl.inode ==> list_width(w, facts, fl).inode >= inode_text(facts, fl).len(),
        w.xattr ==> list_width(w, facts, fl).xattr,
        facts.attr is Some ==> list_width(w, facts, fl).xattr,
{
    lemma_dec_len_u64(entry_size(facts.meta));
    lemma_dec_len_u64(facts.meta.ino);
    reveal_strlit("  ");
    reveal_strlit("\x1b[0;35m");
}

/// The displayed name of a long entry: coloured by kind and extension, a
/// link's target after it, underlined for special files.
pub open spec fn list_name(facts: FileFacts, fl: Flags, sname: Seq<char>) -> Seq<char> {
    let md = facts.meta;
    let g = entry_group(facts);
    let name = filename_fmt_seq(sname, g.0, g.1, md.is_dir, is_exe(md.mode), md.is_symlink);
    let name = if md.is_symlink { name + ref_fmt_seq(facts.link->0, fl.full).0 } else { name };
    with_underline(md.mode, name)
}

/// Whether a long entry counts as a directory: a link by its target.
pub open spec fn list_dir(facts: FileFacts, fl: Flags) -> bool {
    if facts.meta.is_symlink { ref_fmt_seq(facts.link->0, fl.full).1 } else { facts.meta.is_dir }
}

pub open spec fn list_file(f: File, facts: FileFacts, fl: Flags, sname: Seq<char>) -> bool {
    &&& f.sname@ == sname
    &&& f.name@ == list_name(facts, fl, sname)
    &&& f.ext@ == entry_group(facts).0
    &&& f.len == sname.len() + GRID_GAP
    &&& f.dir == list_dir(facts, fl)
    &&& f.line matches Some(l) && {
        &&& l.time == unix_seq(facts.meta.times, fl)
        &&& l.size == entry_size(facts.meta)
        &&& l.size_str@ == (if uses_size_text(facts, fl) { facts.size_text.0@ } else { seq![] })
        &&& l.size_suf@ == (if uses_size_text(facts, fl) { facts.size_text.1@ } else { seq![] })
        &&& uses_size_text(facts, fl) ==> size_text_ok(l.size, l.size_str@, l.size_suf@)
        &&& l.user@ == facts.user@
        &&& l.group@ == (if fl.group { facts.group@ } else { seq![] })
        &&& l.inode@ == inode_text(facts, fl)
        &&& l.perm@ == permissions_seq(facts.meta.mode, facts.meta.nlink, fl.octal)
        &&& l.lnk == facts.meta.is_symlink
        &&& l.attr == facts.attr
    }
}

/// What a long entry shows: its plain name and width; for a directory
/// (not a link) its link count less two, at least zero, else the size in
/// bytes; for a file listed without `-b` the size text and unit as
/// `size::size_to_string` gives them (the unit by the size's magnitude, the
/// numeral below a kibibyte), and no size text otherwise; the group only
/// with `-g`; and whether it is a link.
pub proof fn lemma_long_entry(f: File, facts: FileFacts, fl: Flags, sname: Seq<char>)
    requires
        facts_ok(facts),
        list_file(f, facts, fl, sname),
    ensures
        f.sname@ == sname,
        f.len == sname.len() + GRID_GAP,
        f.line is Some,
        f.line->0.size == if facts.meta.is_dir && !facts.meta.is_symlink {
            if facts.meta.nlink <= 2 { 0 } else { facts.meta.nlink - 2 }
        } else {
            facts.meta.size as int
        },
        !facts.meta.is_dir && !fl.bytes ==> (f.line->0.size_str@, f.line->0.size_suf@)
            == size_text_seq(f.line->0.size, f.line->0.size_str@),
        facts.meta.is_dir || fl.bytes ==> f.line->0.size_str@.len() == 0 && f.line->0.size_suf@.len() == 0,
        !fl.group ==> f.line->0.group@.len() == 0,
        f.line->0.lnk == facts.meta.is_symlink,
{
}

fn grow(w: usize, n: usize) -> (r: usize)
    ensures
        r == max(w as nat, n as nat),
{
    if w < n { n } else { w }
}

fn list_info(facts: FileFacts, sname: String, wh: &mut Width, fl: &Flags) -> (r: File)
    requires
        facts_ok(facts),
        sname@.len() + GRID_GAP <= usize::MAX,
    ensures
        list_file(r, facts, *fl, sname@),
        *final(wh) == list_width(*old(wh), facts, *fl),
{
    let ghost f0 = facts;
    let FileFacts { path, canonical: _, meta, user, group, link, attr, size_text } = facts;
    let md = meta;
    let mut dir = md.is_dir;
    let lnk = md.is_symlink;
    let rwx = md.mode;
    let exe = rwx & USER_EXE == USER_EXE;
    let (ext, egrp) = if dir { (String::new(), 0) } else { ext_group(ext(path.as_str())) };
    let mut name = filename_fmt(sname.as_str(), ext.as_str(), egrp, dir, exe, lnk);

    let size: u64 = if dir && !lnk {
        if md.nlink < 3 { 0 } else { md.nlink - 2 }
    } else {
        md.size
    };

    let (text, suffix) = size_text;
    let mut size_str = String::new();
    let mut size_suf = String::new();
    proof {
        lemma_dec_len_u64(size);
        lemma_dec_len_u64(md.ino);
    }
    let sn: usize = if dir {
        decimal(size).as_str().unicode_len() + 1
    } else if fl.bytes {
        decimal(size).as_str().unicode_len()
    } else {
        size_str = text;
        size_suf = suffix;
        size_str.as_str().len() + size_suf.as_str().len()
    };
    wh.szn = grow(wh.szn, sn);

    let mut group = group;
    wh.uid = grow(wh.uid, user.as_str().len());
    if !fl.group {
        group = String::new();
    } else {
        wh.gid = grow(wh.gid, group.as_str().len());
    }

    let mut inode = String::new();
    if fl.inode {
        inode = String::from_str(MAGENTA);
        inode.append(decimal(md.ino).as_str());
        inode.append("  ");
        wh.inode = grow(wh.inode, inode.as_str().unicode_len());
    }

    if lnk {
        match &link {
            Some(info) => {
                let (fname, d) = ref_fmt(info, fl.full);
                dir = d;
                name.append(fname.as_str());
            },
            None => {},
        }
    }
    if underline(rwx) {
        let mut u = String::from_str(UNDERLINE);
        u.append(name.as_str());
        u.append(RESET);
        name = u;
    }
    let len = sname.as_str().unicode_len() + GRID_GAP;

    if attr.is_some() {
        wh.xattr = true;
    }

    proof {
        assert(ext@ == entry_group(f0).0);
    }
    File {
        sname,
        name,
        ext,
        len,
        dir,
        line: Some(Box::new(FileLine {
            time: unix(&md.times, fl),
            size,
            size_str,
            size_suf,
            user,
            group,
            perm: permissions_fmt(rwx, md.nlink, fl),
            lnk,
            inode,
            attr,
        })),
    }
}

/// Whether an entry of this name is listed: names that begin with a dot
/// only with `-a`.
pub open spec fn visible(sname: Seq<char>, fl: Flags) -> bool {
    !starts(sname, "."@) || fl.all
}

pub open spec fn starts(s: Seq<char>, prefix: Seq<char>) -> bool {
    prefix.len() <= s.len() && s.take(prefix.len() as int) == prefix
}

/// The entry for the file that `facts` describe: its grid or long form by
/// the layout, or none when it is hidden (a dot name without `-a`) or is not
/// a directory while only directories are listed. The column widths grow
/// for every long entry built.
pub fn info(facts: FileFacts, fl: &Flags, wh: &mut Width) -> (r: Option<File>)
    requires
        facts_ok(facts),
    ensures
        ({
            let sname = sname_of(facts);
            let shown = visible(sname, *fl);
            let dir = if fl.list_format { list_dir(facts, *fl) } else { grid_dir(facts) };
            &&& *final(wh) == if shown && fl.list_format { list_width(*old(wh), facts, *fl) } else { *old(wh) }
            &&& match r {
                Some(f) => shown && !(fl.dir_only && !dir) && if fl.list_format {
                    list_file(f, facts, *fl, sname)
                } else {
                    grid_file(f, facts, sname)
                },
                None => !shown || (fl.dir_only && !dir),
            }
        }),
{
    let sname = match &facts.canonical {
        Some(c) => filename(facts.path.as_str(), Some(c.as_str())),
        None => filename(facts.path.as_str(), None),
    };
    let dot = starts_with(sname.as_str(), ".");
    if !dot || fl.all {
        let file = if fl.list_format {
            list_info(facts, sname, wh, fl)
        } else {
            grid_info(facts, sname)
        };
        if fl.dir_only && !file.dir {
            return None;
        }
        return Some(file);
    }
    None
}

} // verus!
