//! File kinds and permission bits, as the long listing shows them.

use vstd::prelude::*;

use crate::args::Flags;
use crate::color::{bit, BLACK_H, BLUE_H, CYAN, GREEN, GREEN_H, MAGENTA, MAGENTA_H, OCT, RED, RED_H, YELLOW};
use crate::text::{dec, decimal, oct, octal, pad_left, push_pad_left};

verus! {

pub const BLOCK_DEV: u32 = 0o060000;
pub const DIR: u32 = 0o040000;
pub const CHAR_DEV: u32 = 0o020000;
/// `S_IFIFO`.
pub const PIPE: u32 = 0o010000;
/// `S_IFREG`.
pub const FILE: u32 = 0o100000;

pub const STICKY_UID: u32 = 0o004000;
pub const STICKY_GID: u32 = 0o002000;
pub const STICKY_DIR: u32 = 0o001000;

/// `S_IXUSR`: executable by its owner.
pub const USER_EXE: u32 = 0o000100;

/// All bits of `bits` are set in `rwx`.
pub open spec fn has_bits(rwx: u32, bits: u32) -> bool {
    rwx & bits == bits
}

pub fn has_bit(rwx: u32, bits: u32) -> (r: bool)
    ensures
        r == has_bits(rwx, bits),
{
    rwx & bits == bits
}

/// Whether the name of a file of mode `rwx` is underlined: devices, sockets,
/// pipes, and files with a set-id or sticky bit.
pub open spec fn underlined(rwx: u32) -> bool {
    has_bits(rwx, BLOCK_DEV) || (has_bits(rwx, DIR) && has_bits(rwx, FILE)) || (has_bits(rwx, CHAR_DEV) && !has_bits(rwx, FILE))
        || has_bits(rwx, PIPE) || has_bits(rwx, STICKY_UID) || has_bits(rwx, STICKY_GID) || has_bits(rwx, STICKY_DIR)
}

pub fn underline(rwx: u32) -> (r: bool)
    ensures
        r == underlined(rwx),
{
    has_bit(rwx, BLOCK_DEV) || (has_bit(rwx, DIR) && has_bit(rwx, FILE)) || (has_bit(rwx, CHAR_DEV)
        && !has_bit(rwx, FILE)) || has_bit(rwx, PIPE) || has_bit(rwx, STICKY_UID) || has_bit(
        rwx,
        STICKY_GID,
    ) || has_bit(rwx, STICKY_DIR)
}

/// The first column of the permissions: the kind of file, or for plain files
/// the number of hard links (`*` for more than nine).
pub open spec fn kind_seq(rwx: u32, nlink: u64) -> Seq<char> {
    if has_bits(rwx, BLOCK_DEV) {
        GREEN_H@ + "b"@
    } else if has_bits(rwx, DIR) {
        if has_bits(rwx, FILE) { RED_H@ + "s"@ } else { BLUE_H@ + "d"@ }
    } else if has_bits(rwx, CHAR_DEV) {
        if has_bits(rwx, FILE) { CYAN@ + "l"@ } else { MAGENTA_H@ + "c"@ }
    } else if has_bits(rwx, PIPE) {
        GREEN_H@ + "│"@
    } else if nlink > 9 {
        MAGENTA@ + "*"@
    } else if nlink > 1 {
        MAGENTA@ + dec(nlink as nat)
    } else {
        " "@
    }
}

/// The bits of a mode that give the kind of file.
pub const TYPE_MASK: u32 = 0o170000;

/// The first column of the permissions shows the kind of file by its type
/// bits: `b` for a block device, `d` for a directory, `s` for a socket, `l`
/// for a symbolic link, `c` for a character device, `│` for a pipe, and for
/// a regular file the number of its links.
pub proof fn lemma_kind_by_type(rwx: u32, nlink: u64)
    ensures
        rwx & TYPE_MASK == 0o060000 ==> kind_seq(rwx, nlink) == GREEN_H@ + "b"@,
        rwx & TYPE_MASK == 0o040000 ==> kind_seq(rwx, nlink) == BLUE_H@ + "d"@,
        rwx & TYPE_MASK == 0o140000 ==> kind_seq(rwx, nlink) == RED_H@ + "s"@,
        rwx & TYPE_MASK == 0o120000 ==> kind_seq(rwx, nlink) == CYAN@ + "l"@,
        rwx & TYPE_MASK == 0o020000 ==> kind_seq(rwx, nlink) == MAGENTA_H@ + "c"@,
        rwx & TYPE_MASK == 0o010000 ==> kind_seq(rwx, nlink) == GREEN_H@ + "│"@,
        rwx & TYPE_MASK == 0o100000 ==> kind_seq(rwx, nlink) == if nlink > 9 {
            MAGENTA@ + "*"@
        } else if nlink > 1 {
            MAGENTA@ + dec(nlink as nat)
        } else {
            " "@
        },
        permissions_seq(rwx, nlink, false) == kind_seq(rwx, nlink) + mode_parts(rwx, 9),
{
    let t = rwx & 0o170000u32;
    assert(t == 0o060000 ==> (rwx & 0o060000u32) == 0o060000u32) by (bit_vector)
        requires t == rwx & 0o170000u32;
    assert(t == 0o040000 ==> (rwx & 0o060000u32) != 0o060000u32 && (rwx & 0o040000u32) == 0o040000u32
        && (rwx & 0o100000u32) != 0o100000u32) by (bit_vector)
        requires t == rwx & 0o170000u32;
    assert(t == 0o140000 ==> (rwx & 0o060000u32) != 0o060000u32 && (rwx & 0o040000u32) == 0o040000u32
        && (rwx & 0o100000u32) == 0o100000u32) by (bit_vector)
        requires t == rwx & 0o170000u32;
    assert(t == 0o120000 ==> (rwx & 0o060000u32) != 0o060000u32 && (rwx & 0o040000u32) != 0o040000u32
        && (rwx & 0o020000u32) == 0o020000u32 && (rwx & 0o100000u32) == 0o100000u32) by (bit_vector)
        requires t == rwx & 0o170000u32;
    assert(t == 0o020000 ==> (rwx & 0o060000u32) != 0o060000u32 && (rwx & 0o040000u32) != 0o040000u32
        && (rwx & 0o020000u32) == 0o020000u32 && (rwx & 0o100000u32) != 0o100000u32) by (bit_vector)
        requires t == rwx & 0o170000u32;
    assert(t == 0o010000 ==> (rwx & 0o060000u32) != 0o060000u32 && (rwx & 0o040000u32) != 0o040000u32
        && (rwx & 0o020000u32) != 0o020000u32 && (rwx & 0o010000u32) == 0o010000u32) by (bit_vector)
        requires t == rwx & 0o170000u32;
    assert(t == 0o100000 ==> (rwx & 0o060000u32) != 0o060000u32 && (rwx & 0o040000u32) != 0o040000u32
        && (rwx & 0o020000u32) != 0o020000u32 && (rwx & 0o010000u32) != 0o010000u32) by (bit_vector)
        requires t == rwx & 0o170000u32;
}

fn join2(a: &str, b: &str) -> (r: String)
    ensures
        r@ == a@ + b@,
{
    let mut s = String::from_str(a);
    s.append(b);
    s
}

fn kind(rwx: u32, nlink: u64) -> (r: String)
    ensures
        r@ == kind_seq(rwx, nlink),
{
    if has_bit(rwx, BLOCK_DEV) {
        return join2(GREEN_H, "b");
    }
    if has_bit(rwx, DIR) {
        return if has_bit(rwx, FILE) { join2(RED_H, "s") } else { join2(BLUE_H, "d") };
    }
    if has_bit(rwx, CHAR_DEV) {
        return if has_bit(rwx, FILE) { join2(CYAN, "l") } else { join2(MAGENTA_H, "c") };
    }
    if has_bit(rwx, PIPE) {
        return join2(GREEN_H, "│");
    }
    if nlink > 9 {
        join2(MAGENTA, "*")
    } else if nlink > 1 {
        join2(MAGENTA, decimal(nlink).as_str())
    } else {
        String::from_str(" ")
    }
}

/// Permission column `i` (1 to 9: owner, group, others, each read, write,
/// execute), with the set-id and sticky bits shown over the execute columns.
pub open spec fn mode_part(rwx: u32, i: int) -> Seq<char> {
    if i == 3 && has_bits(rwx, STICKY_UID) {
        MAGENTA_H@ + "S"@
    } else if i == 6 && has_bits(rwx, STICKY_GID) {
        MAGENTA_H@ + "S"@
    } else if i == 9 && has_bits(rwx, STICKY_DIR) {
        MAGENTA_H@ + "t"@
    } else if bit(rwx, (9 - i) as u32) {
        let c = (i - 1) % 3;
        if c == 0 { GREEN@ + "r"@ } else if c == 1 { YELLOW@ + "w"@ } else { RED@ + "x"@ }
    } else {
        BLACK_H@ + "-"@
    }
}

/// Columns `1..=n` of the permissions.
pub open spec fn mode_parts(rwx: u32, n: int) -> Seq<char>
    decreases n,
{
    if n <= 0 {
        seq![]
    } else {
        mode_parts(rwx, n - 1) + mode_part(rwx, n)
    }
}

/// The permission column of the long listing; with `octal`, the mode in
/// octal before it (the first three of six places dark, the rest coloured).
pub open spec fn permissions_seq(rwx: u32, nlink: u64, octal: bool) -> Seq<char> {
    let vp = kind_seq(rwx, nlink) + mode_parts(rwx, 9);
    if octal {
        let o = pad_left(oct(rwx as nat), 6);
        BLACK_H@ + o.take(3) + OCT@ + o.skip(3) + "  "@ + vp
    } else {
        vp
    }
}

fn mode_part_str(rwx: u32, i: u32) -> (r: (&'static str, &'static str))
    requires
        1 <= i <= 9,
    ensures
        r.0@ + r.1@ == mode_part(rwx, i as int),
{
    if i == 3 && has_bit(rwx, STICKY_UID) {
        (MAGENTA_H, "S")
    } else if i == 6 && has_bit(rwx, STICKY_GID) {
        (MAGENTA_H, "S")
    } else if i == 9 && has_bit(rwx, STICKY_DIR) {
        (MAGENTA_H, "t")
    } else if (rwx >> (9 - i)) & 1 == 1 {
        let c = (i - 1) % 3;
        if c == 0 { (GREEN, "r") } else if c == 1 { (YELLOW, "w") } else { (RED, "x") }
    } else {
        (BLACK_H, "-")
    }
}

pub fn permissions_fmt(rwx: u32, nlink: u64, fl: &Flags) -> (r: String)
    ensures
        r@ == permissions_seq(rwx, nlink, fl.octal),
{
    let mut vp = kind(rwx, nlink);
    let ghost k = vp@;
    let mut i: u32 = 1;
    while i <= 9
        invariant
            1 <= i <= 10,
            vp@ == k + mode_parts(rwx, i - 1),
        decreases 10 - i,
    {
        let part = mode_part_str(rwx, i);
        vp.append(part.0);
        vp.append(part.1);
        proof {
            assert(mode_parts(rwx, i as int) == mode_parts(rwx, i - 1) + mode_part(rwx, i as int));
            assert(vp@ =~= k + mode_parts(rwx, i as int));
        }
        i = i + 1;
    }
    if fl.octal {
        let mut o = String::new();
        push_pad_left(&mut o, octal(rwx as u64).as_str(), 6);
        proof {
            assert(o@ =~= pad_left(oct(rwx as nat), 6));
        }
        let n = o.as_str().unicode_len();
        let mut out = String::from_str(BLACK_H);
        out.append(o.as_str().substring_char(0, 3));
        out.append(OCT);
        out.append(o.as_str().substring_char(3, n));
        out.append("  ");
        out.append(vp.as_str());
        proof {
            assert(o@.subrange(0, 3) =~= o@.take(3));
            assert(o@.subrange(3, n as int) =~= o@.skip(3));
        }
        return out;
    }
    vp
}

} // verus!
