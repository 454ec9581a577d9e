//! The long listing: one line of columns per entry.

use vstd::prelude::*;

use crate::args::Flags;
use crate::color::{RESET, WHITE};
use crate::datetime::{date_time_seq, EPOCH_OFFSET};
use crate::file::attr::{ext_attr_fmt, ext_attr_seq, xattr_ok};
use crate::file::size::{size_fmt, size_fmt_ok, size_fmt_seq};
use crate::file::time::{date_time_fmt, TIMEZONE};
use crate::file::File;
use crate::text::{pad_left, push_pad_left};
use crate::Width;

verus! {

/// Width of the user column: the widest name and a space.
pub open spec fn user_width(w: Width) -> nat {
    (w.uid + 1) as nat
}

/// Width of the group column: the widest name and a space, when shown.
pub open spec fn group_width(fl: Flags, w: Width) -> nat {
    if fl.group { (w.gid + 1) as nat } else { 0 }
}

/// Where the lines below an entry (its attributes) are indented to.
pub open spec fn attr_width(fl: Flags, w: Width) -> nat {
    (32 + user_width(w) + group_width(fl, w) + w.szn + if fl.octal { 8nat } else { 0 }) as nat
}

/// The widths add up within `usize`.
pub open spec fn width_ok(w: Width) -> bool {
    w.uid + w.gid + w.szn + 42 <= usize::MAX
}

/// An entry can be shown in the long listing: it has long columns, a time
/// that can be dated, a size column that fits, and attribute lists that
/// are not empty.
pub open spec fn line_ok(f: File, fl: Flags, w: Width) -> bool {
    &&& f.line is Some
    &&& f.line->0.time <= u64::MAX - TIMEZONE - EPOCH_OFFSET
    &&& size_fmt_ok(f, w, fl.bytes)
    &&& xattr_ok(f.line->0.attr)
}

/// The clock reading can date files: late enough for the half-year
/// window, and far from overflowing.
pub open spec fn clock_ok(clock: u64) -> bool {
    clock <= u64::MAX - TIMEZONE && clock + TIMEZONE >= 15768000
}

/// The line of an entry: inode, permissions, attribute mark, user, group,
/// date, size and name, then the attribute lines with `-@`.
pub open spec fn line_seq(f: File, fl: Flags, w: Width, clock: u64) -> Seq<char> {
    match f.line {
        Some(l) => {
            let attr = ext_attr_seq(l.attr, w.xattr, fl.xattr && !fl.tree_format, attr_width(fl, w));
            pad_left(l.inode@, w.inode as nat) + l.perm@ + WHITE@ + attr.0
                + pad_left(l.user@, user_width(w)) + pad_left(l.group@, group_width(fl, w))
                + "  "@ + date_time_seq((l.time + TIMEZONE) as u64, clock)
                + "  "@ + size_fmt_seq(f, w, fl.bytes)
                + "  "@ + f.name@ + attr.1
        },
        None => seq![],
    }
}

/// The line of `f` in the long listing, dated at `clock`.
pub fn line_fmt(f: &File, fl: &Flags, w: &Width, clock: u64) -> (r: String)
    requires
        line_ok(*f, *fl, *w),
        width_ok(*w),
        clock_ok(clock),
    ensures
        r@ == line_seq(*f, *fl, *w, clock),
{
    match &f.line {
        Some(l) => {
            let usr_width = w.uid + 1;
            let grp_width = if fl.group { w.gid + 1 } else { 0 };
            let x_width = 32 + usr_width + grp_width + w.szn + if fl.octal { 8 } else { 0 };
            let (attr, exattr) = ext_attr_fmt(&l.attr, w.xattr, fl.xattr && !fl.tree_format, x_width);
            let mut out = String::new();
            push_pad_left(&mut out, l.inode.as_str(), w.inode);
            out.append(l.perm.as_str());
            out.append(WHITE);
            out.append(attr);
            push_pad_left(&mut out, l.user.as_str(), usr_width);
            push_pad_left(&mut out, l.group.as_str(), grp_width);
            out.append("  ");
            out.append(date_time_fmt(l.time + TIMEZONE, clock).as_str());
            out.append("  ");
            out.append(size_fmt(f, w, fl.bytes).as_str());
            out.append("  ");
            out.append(f.name.as_str());
            out.append(exattr.as_str());
            proof {
                let a = ext_attr_seq(l.attr, w.xattr, fl.xattr && !fl.tree_format, attr_width(*fl, *w));
                assert(attr@ == a.0 && exattr@ == a.1);
                assert(out@ =~= line_seq(*f, *fl, *w, clock));
            }
            out
        },
        None => String::new(),
    }
}

/// The first `k` lines of the long listing, one below the other.
pub open spec fn list_lines(s: Seq<File>, fl: Flags, w: Width, clock: u64, k: nat) -> Seq<char>
    decreases k,
{
    if k == 0 {
        seq![]
    } else if k == 1 {
        line_seq(s[0], fl, w, clock)
    } else {
        list_lines(s, fl, w, clock, (k - 1) as nat) + "\n"@ + line_seq(s[k - 1], fl, w, clock)
    }
}

/// What the long listing prints for `s`: the lines, then the colour reset.
pub open spec fn list_text(s: Seq<File>, fl: Flags, w: Width, clock: u64) -> Seq<char> {
    list_lines(s, fl, w, clock, s.len()) + RESET@
}

/// The text that the long listing prints for `files`, dated at `clock`.
pub fn print(files: &Vec<File>, fl: &Flags, w: &Width, clock: u64) -> (r: String)
    requires
        forall|i: int| 0 <= i < files@.len() ==> line_ok(#[trigger] files@[i], *fl, *w),
        width_ok(*w),
        clock_ok(clock),
    ensures
        r@ == list_text(files@, *fl, *w, clock),
{
    let n = files.len();
    let mut out = String::new();
    let mut k: usize = 0;
    while k < n
        invariant
            n == files@.len(),
            k <= n,
            forall|i: int| 0 <= i < files@.len() ==> line_ok(#[trigger] files@[i], *fl, *w),
            width_ok(*w),
            clock_ok(clock),
            out@ == list_lines(files@, *fl, *w, clock, k as nat),
        decreases n - k,
    {
        if k > 0 {
            out.append("\n");
        }
        let line = line_fmt(&files[k], fl, w, clock);
        out.append(line.as_str());
        proof {
            reveal_strlit("\n");
            if k == 0 {
                assert(out@ =~= list_lines(files@, *fl, *w, clock, 1));
            } else {
                assert(out@ =~= list_lines(files@, *fl, *w, clock, (k + 1) as nat));
            }
        }
        k = k + 1;
    }
    out.append(RESET);
    out
}

} // verus!
