//! Terminal colours, and the coloured forms of names, sizes and permission bits.

use vstd::prelude::*;

use crate::display::spaces;
use crate::text::{dec, decimal, spaces_seq};

verus! {

pub const RED: &'static str = "\x1b[0;31m";
pub const GREEN: &'static str = "\x1b[0;32m";
pub const YELLOW: &'static str = "\x1b[0;33m";
pub const MAGENTA: &'static str = "\x1b[0;35m";
pub const CYAN: &'static str = "\x1b[0;36m";
pub const WHITE: &'static str = "\x1b[0;37m";
pub const BLACK_H: &'static str = "\x1b[1;30m";
pub const RED_H: &'static str = "\x1b[1;31m";
pub const GREEN_H: &'static str = "\x1b[1;32m";
pub const BLUE_H: &'static str = "\x1b[1;34m";
pub const MAGENTA_H: &'static str = "\x1b[1;35m";
pub const BLACK_L: &'static str = "\x1b[0;90m";
pub const RED_L: &'static str = "\x1b[0;91m";
pub const GREEN_L: &'static str = "\x1b[0;92m";
pub const YELLOW_L: &'static str = "\x1b[0;93m";
pub const BLUE_L: &'static str = "\x1b[0;94m";
pub const MAGENTA_L: &'static str = "\x1b[0;95m";
pub const CYAN_L: &'static str = "\x1b[0;96m";
pub const XT22: &'static str = "\x1b[38;5;22m";
pub const XT36: &'static str = "\x1b[38;5;36m";

/// Back to the terminal's default attributes.
pub const RESET: &'static str = "\x1b[0m";
/// Underlined text.
pub const UNDERLINE: &'static str = "\x1b[4m";
/// The last three octal digits of a mode.
pub const OCT: &'static str = "\x1b[0;96m";
/// Sizes of a megabyte and more.
pub const SIZE: &'static str = "\x1b[1;32m";
/// The unit letter after a size.
pub const SUFFIX: &'static str = "\x1b[0;32m";

/// Times within the last day.
pub const DAY1: &'static str = "\x1b[1;33m";
/// Times within the last two days.
pub const DAY2: &'static str = "\x1b[0;93m";
/// Times within the last week.
pub const WEK1: &'static str = "\x1b[0;33m";
/// Times within the last four weeks.
pub const WEK4: &'static str = "\x1b[38;5;136m";
/// Older times.
pub const YEAR: &'static str = "\x1b[0;90m";

/// Names of images.
pub const IMG: &'static str = "\x1b[0;95m";
/// Names of archives.
pub const ZIP: &'static str = "\x1b[0;33m";
/// Names of documents.
pub const DOC: &'static str = "\x1b[38;5;22m";
/// Names of configuration and data files.
pub const CFG: &'static str = "\x1b[38;5;36m";
/// Names of videos.
pub const AVI: &'static str = "\x1b[38;5;135m";
/// Names of sound files.
pub const MP3: &'static str = "\x1b[38;5;141m";
/// Names of source files.
pub const SRC: &'static str = "\x1b[38;5;37m";
/// Names of temporary files.
pub const TMP: &'static str = "\x1b[0;90m";

/// Width of the size column of `size_fmt`.
pub const SIZE_WIDTH: usize = 12;

/// The colour that `colorise` gives a plain file of extension group `egrp`
/// and extension `ext`.
pub open spec fn group_color(ext: Seq<char>, egrp: u8) -> Seq<char> {
    if egrp > 0 {
        if egrp == 1 { MAGENTA_L@ }
        else if egrp == 2 { YELLOW@ }
        else if egrp == 3 { XT22@ }
        else if egrp == 4 { XT36@ }
        else { WHITE@ }
    } else if ext == "exe"@ {
        GREEN_H@
    } else {
        WHITE@
    }
}

/// `name` in the colour of its kind: links, directories, executables,
/// then by extension group.
pub open spec fn colorise_seq(name: Seq<char>, ext: Seq<char>, egrp: u8, dir: bool, exe: bool, lnk: bool) -> Seq<char> {
    if lnk {
        CYAN@ + name
    } else if dir {
        BLUE_L@ + name
    } else if exe {
        GREEN_H@ + name
    } else {
        group_color(ext, egrp) + name
    }
}

pub fn colorise(name: &str, ext: &str, egrp: u8, dir: bool, exe: bool, lnk: bool) -> (r: String)
    ensures
        r@ == colorise_seq(name@, ext@, egrp, dir, exe, lnk),
{
    let color: &str = if lnk {
        CYAN
    } else if dir {
        BLUE_L
    } else if exe {
        GREEN_H
    } else if egrp > 0 {
        if egrp == 1 {
            MAGENTA_L
        } else if egrp == 2 {
            YELLOW
        } else if egrp == 3 {
            XT22
        } else if egrp == 4 {
            XT36
        } else {
            WHITE
        }
    } else if crate::text::str_eq(ext, "exe") {
        GREEN_H
    } else {
        WHITE
    };
    let mut out = String::from_str(color);
    out.append(name);
    out
}

/// `bytes` in units of `dimension`: the whole number of units, and when
/// there is a remainder and fewer than a hundred units, a point and the
/// first digit of the remainder.
pub open spec fn short_size_seq(bytes: nat, dimension: nat) -> Seq<char> {
    let n = bytes / dimension;
    let m = bytes % dimension;
    if m > 0 && n < 100 {
        dec(n) + "."@ + seq![dec(m)[0]]
    } else {
        dec(n)
    }
}

fn short_size(bytes: u64, dimension: u64) -> (r: String)
    requires
        dimension > 0,
    ensures
        r@ == short_size_seq(bytes as nat, dimension as nat),
{
    let n = bytes / dimension;
    let m = bytes % dimension;
    if m > 0 && n < 100 {
        let mut s = decimal(n);
        s.append(".");
        let digits = decimal(m);
        proof {
            crate::text::lemma_dec_len(m as nat);
        }
        let first = digits.as_str().substring_char(0, 1);
        proof {
            assert(first@ =~= seq![dec(m as nat)[0]]);
        }
        s.append(first);
        s
    } else {
        decimal(n)
    }
}

/// A size in the size column: right-aligned in `SIZE_WIDTH` characters, the
/// number in light green and the unit in green.
pub open spec fn color_size_seq(size: Seq<char>, suffix: Seq<char>) -> Seq<char> {
    GREEN_L@ + spaces_seq((SIZE_WIDTH - size.len() - suffix.len()) as nat) + size + GREEN@ + suffix
}

fn color_size(size: String, suffix: &str) -> (r: String)
    requires
        size@.len() + suffix@.len() <= SIZE_WIDTH,
    ensures
        r@ == color_size_seq(size@, suffix@),
{
    let sp = spaces(SIZE_WIDTH - size.as_str().unicode_len() - suffix.unicode_len());
    let mut out = String::from_str(GREEN_L);
    out.append(sp.as_str());
    out.append(size.as_str());
    out.append(GREEN);
    out.append(suffix);
    out
}

/// Bytes in a gibibyte, a mebibyte and a kibibyte.
pub const GIB: u64 = 1073741824;
pub const MIB: u64 = 1048576;
pub const KIB: u64 = 1024;

/// The size column for `bytes`: gibibytes, mebibytes or kibibytes with one
/// letter of unit, plain bytes below a kibibyte, and a lone `0` for nothing.
pub open spec fn size_fmt_seq(bytes: nat) -> Seq<char> {
    if bytes >= GIB {
        color_size_seq(short_size_seq(bytes, GIB as nat), "G"@)
    } else if bytes >= MIB {
        color_size_seq(short_size_seq(bytes, MIB as nat), "M"@)
    } else if bytes >= KIB {
        color_size_seq(short_size_seq(bytes, KIB as nat), "k"@)
    } else if bytes >= 1 {
        color_size_seq(dec(bytes), ""@)
    } else {
        GREEN_L@ + spaces_seq((SIZE_WIDTH - 1) as nat) + "0"@ + GREEN@
    }
}

/// The short form of a size has at most eleven characters: the quotient of
/// a `u64` by a kibibyte or more has at most eleven digits.
proof fn lemma_short_size_len(bytes: nat, dimension: nat)
    requires
        dimension > 0,
        bytes / dimension < 100000000000nat,
    ensures
        short_size_seq(bytes, dimension).len() <= 11,
{
    reveal_strlit(".");
    let n = bytes / dimension;
    assert(crate::text::pow10(11) == 100000000000nat) by {
        reveal_with_fuel(crate::text::pow10, 12);
    }
    crate::text::lemma_dec_len(n);
    crate::text::lemma_dec_len_pow(n, 11);
}

proof fn lemma_dec_len_4(n: nat)
    requires
        n < 10000,
    ensures
        dec(n).len() <= 4,
{
    if n >= 10 {
        crate::text::lemma_dec_len(n / 10);
        if n / 10 >= 100 {
            crate::text::lemma_dec_len(n / 100);
            assert(dec(n / 10).len() == dec(n / 100).len() + 1);
        }
    }
}

/// The size column for `bytes` (what the long listing shows), `SIZE_WIDTH`
/// characters wide: room for the largest `u64` in gibibytes and its unit.
pub fn size_fmt(bytes: u64) -> (r: String)
    ensures
        r@ == size_fmt_seq(bytes as nat),
{
    proof {
        reveal_strlit("G");
        reveal_strlit("M");
        reveal_strlit("k");
        reveal_strlit("");
    }
    if bytes >= 1073741824 {
        proof {
            assert((bytes as nat) / 1073741824nat < 100000000000nat) by (nonlinear_arith)
                requires bytes <= 18446744073709551615u64;
            lemma_short_size_len(bytes as nat, GIB as nat);
        }
        color_size(short_size(bytes, 1073741824), "G")
    } else if bytes >= 1048576 {
        proof {
            assert((bytes as nat) / 1048576nat < 100000000000nat) by (nonlinear_arith)
                requires bytes < 1073741824u64;
            lemma_short_size_len(bytes as nat, MIB as nat);
        }
        color_size(short_size(bytes, 1048576), "M")
    } else if bytes >= 1024 {
        proof {
            assert((bytes as nat) / 1024nat < 100000000000nat) by (nonlinear_arith)
                requires bytes < 1048576u64;
            lemma_short_size_len(bytes as nat, KIB as nat);
        }
        color_size(short_size(bytes, 1024), "k")
    } else if bytes >= 1 {
        proof {
            lemma_dec_len_4(bytes as nat);
        }
        color_size(decimal(bytes), "")
    } else {
        let mut out = String::from_str(GREEN_L);
        out.append(spaces(SIZE_WIDTH - 1).as_str());
        out.append("0");
        out.append(GREEN);
        out
    }
}

/// Bit `k` of `rwx` (bit 0 the least significant).
pub open spec fn bit(rwx: u32, k: u32) -> bool {
    (rwx >> k) & 1 == 1
}

/// The lowest `n` bits of `rwx`, the most significant first.
fn bits(rwx: u32, n: u8) -> (r: Vec<bool>)
    requires
        n <= 32,
    ensures
        r@.len() == n,
        forall|i: int| 0 <= i < n ==> r@[i] == bit(rwx, (n - 1 - i) as u32),
{
    let mut v: Vec<bool> = Vec::new();
    let mut k: u8 = n;
    while k > 0
        invariant
            k <= n <= 32,
            v@.len() == n - k,
            forall|i: int| 0 <= i < n - k ==> v@[i] == bit(rwx, (n - 1 - i) as u32),
        decreases k,
    {
        k = k - 1;
        let shift: u32 = k as u32;
        v.push((rwx >> shift) & 1 == 1);
    }
    v
}

/// The character for permission bit `i` (0 the owner's read bit, 8 the
/// others' execute bit): its letter in its colour when set, else a dark `-`.
pub open spec fn perm_part(rwx: u32, i: int) -> Seq<char> {
    if bit(rwx, (8 - i) as u32) {
        let c = i % 3;
        let color = if i < 3 {
            if c == 0 { YELLOW_L@ } else if c == 1 { RED_L@ } else { GREEN_L@ }
        } else {
            if c == 0 { YELLOW@ } else if c == 1 { RED@ } else { GREEN@ }
        };
        color + seq![if c == 0 { 'r' } else if c == 1 { 'w' } else { 'x' }]
    } else {
        BLACK_H@ + seq!['-']
    }
}

/// The parts `0..n` of the permission string.
pub open spec fn perm_prefix(rwx: u32, n: int) -> Seq<char>
    decreases n,
{
    if n <= 0 {
        seq![]
    } else {
        perm_prefix(rwx, n - 1) + perm_part(rwx, n - 1)
    }
}

/// The colour and the letter of permission bit `i`, when it is `set`.
fn perm_part_str(set: bool, i: usize) -> (r: (&'static str, &'static str))
    requires
        i < 9,
    ensures
        forall|rwx: u32| bit(rwx, (8 - i) as u32) == set ==> r.0@ + r.1@ == perm_part(rwx, i as int),
{
    proof {
        reveal_strlit("r");
        reveal_strlit("w");
        reveal_strlit("x");
        reveal_strlit("-");
        assert("r"@ =~= seq!['r']);
        assert("w"@ =~= seq!['w']);
        assert("x"@ =~= seq!['x']);
        assert("-"@ =~= seq!['-']);
    }
    if !set {
        return (BLACK_H, "-");
    }
    if i == 0 { (YELLOW_L, "r") }
    else if i == 1 { (RED_L, "w") }
    else if i == 2 { (GREEN_L, "x") }
    else if i % 3 == 0 { (YELLOW, "r") }
    else if i % 3 == 1 { (RED, "w") }
    else { (GREEN, "x") }
}

/// The nine permission bits of `rwx` as coloured `rwx` letters.
pub fn permissions_fmt(rwx: u32) -> (r: String)
    ensures
        r@ == perm_prefix(rwx, 9),
{
    proof {
        reveal_strlit("r");
        reveal_strlit("w");
        reveal_strlit("x");
        reveal_strlit("-");
        assert("r"@ =~= seq!['r']);
        assert("w"@ =~= seq!['w']);
        assert("x"@ =~= seq!['x']);
        assert("-"@ =~= seq!['-']);
    }
    let b = bits(rwx, 9);
    let mut out = String::new();
    let mut i: usize = 0;
    while i < 9
        invariant
            i <= 9,
            b@.len() == 9,
            forall|k: int| 0 <= k < 9 ==> b@[k] == bit(rwx, (9 - 1 - k) as u32),
            out@ == perm_prefix(rwx, i as int),
        decreases 9 - i,
    {
        let ghost before = out@;
        let part = perm_part_str(b[i], i);
        out.append(part.0);
        out.append(part.1);
        proof {
            assert(out@ == before + (part.0@ + part.1@));
        }
        proof {
            assert(perm_prefix(rwx, i as int + 1) == perm_prefix(rwx, i as int) + perm_part(rwx, i as int));
            assert(b@[i as int] == bit(rwx, (8 - i) as u32));
            assert(out@ =~= perm_prefix(rwx, i as int + 1));
        }
        i = i + 1;
    }
    out
}

} // verus!
