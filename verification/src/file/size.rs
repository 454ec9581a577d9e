//! The size column of the long listing.

use vstd::prelude::*;

use crate::color::{BLACK_H, GIB, GREEN, KIB, MIB, SIZE, SUFFIX, WHITE};
use crate::file::File;
use crate::text::{dec, decimal, pad_left, push_pad_left};
use crate::Width;

verus! {

/// The size column of an entry: a dark `-` for links to directories and
/// empty directories, the entry count and a dark `f` for other directories,
/// the size in bytes with `bitsize`, else the short size and its unit.
pub open spec fn size_fmt_seq(f: File, w: Width, bitsize: bool) -> Seq<char> {
    let line = f.line->0;
    if f.dir && (line.lnk || line.size == 0) {
        BLACK_H@ + pad_left("-"@, w.szn as nat)
    } else if f.dir {
        WHITE@ + pad_left(dec(line.size as nat), (w.szn - 1) as nat) + BLACK_H@ + "f"@
    } else if bitsize {
        WHITE@ + pad_left(dec(line.size as nat), w.szn as nat)
    } else if line.size_suf@ == "M"@ || line.size_suf@ == "G"@ {
        SIZE@ + pad_left(line.size_str@, (w.szn - 1) as nat) + SUFFIX@ + line.size_suf@
    } else if line.size_suf@ == "k"@ {
        GREEN@ + pad_left(line.size_str@, (w.szn - 1) as nat) + SUFFIX@ + line.size_suf@
    } else {
        GREEN@ + pad_left(line.size_str@, w.szn as nat)
    }
}

/// The size column of a file shown without `-b`: a size with a unit (`k`
/// green, `M` and `G` bright) is right-aligned one narrower than the column
/// and followed by the unit, so the column always ends with the unit; a size
/// without one is right-aligned in the whole column, in green.
pub proof fn lemma_size_column_unit(f: File, w: Width)
    requires
        f.line is Some,
        !f.dir,
    ensures
        ({
            let l = f.line->0;
            let col = size_fmt_seq(f, w, false);
            &&& l.size_suf@ == "k"@ ==> col == GREEN@ + pad_left(l.size_str@, (w.szn - 1) as nat) + SUFFIX@ + "k"@
            &&& (l.size_suf@ == "M"@ || l.size_suf@ == "G"@) ==> col == SIZE@ + pad_left(l.size_str@, (w.szn - 1) as nat)
                + SUFFIX@ + l.size_suf@
            &&& (l.size_suf@ == "k"@ || l.size_suf@ == "M"@ || l.size_suf@ == "G"@) ==> col.len() >= 1
                && col.last() == l.size_suf@[0]
            &&& l.size_suf@.len() == 0 ==> col == GREEN@ + pad_left(l.size_str@, w.szn as nat)
        }),
{
    reveal_strlit("k");
    reveal_strlit("M");
    reveal_strlit("G");
    let l = f.line->0;
    let col = size_fmt_seq(f, w, false);
    assert("k"@ != "M"@) by { assert("k"@[0] != "M"@[0]); }
    assert("k"@ != "G"@) by { assert("k"@[0] != "G"@[0]); }
    if l.size_suf@ == "k"@ || l.size_suf@ == "M"@ || l.size_suf@ == "G"@ {
        let c = if l.size_suf@ == "k"@ { GREEN@ } else { SIZE@ };
        let front = c + pad_left(l.size_str@, (w.szn - 1) as nat) + SUFFIX@;
        assert(col == front + l.size_suf@);
        assert(l.size_suf@.len() == 1);
        assert((front + l.size_suf@).last() == l.size_suf@[0]);
    }
    if l.size_suf@.len() == 0 {
        assert(l.size_suf@ != "k"@ && l.size_suf@ != "M"@ && l.size_suf@ != "G"@);
    }
}

/// The column is one narrower for the unit letter, so it must be at least
/// one wide where a unit follows.
pub open spec fn size_fmt_ok(f: File, w: Width, bitsize: bool) -> bool {
    &&& f.line is Some
    &&& {
        let line = f.line->0;
        let needs_one = if f.dir {
            !(line.lnk || line.size == 0)
        } else {
            !bitsize && (line.size_suf@ == "M"@ || line.size_suf@ == "G"@ || line.size_suf@ == "k"@)
        };
        needs_one ==> w.szn >= 1
    }
}

pub fn size_fmt(f: &File, w: &Width, bitsize: bool) -> (r: String)
    requires
        size_fmt_ok(*f, *w, bitsize),
    ensures
        r@ == size_fmt_seq(*f, *w, bitsize),
{
    let line = match &f.line {
        Some(l) => l,
        None => {
            return String::new();
        },
    };
    if f.dir && (line.lnk || line.size == 0) {
        let mut out = String::from_str(BLACK_H);
        push_pad_left(&mut out, "-", w.szn);
        return out;
    }
    if f.dir {
        let mut out = String::from_str(WHITE);
        push_pad_left(&mut out, decimal(line.size).as_str(), w.szn - 1);
        out.append(BLACK_H);
        out.append("f");
        return out;
    }
    if bitsize {
        let mut out = String::from_str(WHITE);
        push_pad_left(&mut out, decimal(line.size).as_str(), w.szn);
        return out;
    }
    let suf = line.size_suf.as_str();
    if crate::text::str_eq(suf, "M") || crate::text::str_eq(suf, "G") {
        let mut out = String::from_str(SIZE);
        push_pad_left(&mut out, line.size_str.as_str(), w.szn - 1);
        out.append(SUFFIX);
        out.append(suf);
        out
    } else if crate::text::str_eq(suf, "k") {
        let mut out = String::from_str(GREEN);
        push_pad_left(&mut out, line.size_str.as_str(), w.szn - 1);
        out.append(SUFFIX);
        out.append(suf);
        out
    } else {
        let mut out = String::from_str(GREEN);
        push_pad_left(&mut out, line.size_str.as_str(), w.szn);
        out
    }
}

/// The size text of `bytes` and its unit letter: from a kibibyte on, the
/// short form `short` (the size in its unit, to three significant digits)
/// with `G`, `M` or `k`; below that the number of bytes and no unit.
pub open spec fn size_text_seq(bytes: u64, short: Seq<char>) -> (Seq<char>, Seq<char>) {
    if bytes >= GIB {
        (short, "G"@)
    } else if bytes >= MIB {
        (short, "M"@)
    } else if bytes >= KIB {
        (short, "k"@)
    } else {
        (dec(bytes as nat), seq![])
    }
}

/// The size text and unit of `bytes`; `short` is the short form of the size
/// in its unit (only used from a kibibyte on).
pub fn size_to_string(bytes: u64, short: &str) -> (r: (String, String))
    ensures
        r.0@ == size_text_seq(bytes, short@).0,
        r.1@ == size_text_seq(bytes, short@).1,
{
    if bytes >= GIB {
        (String::from_str(short), String::from_str("G"))
    } else if bytes >= MIB {
        (String::from_str(short), String::from_str("M"))
    } else if bytes >= KIB {
        (String::from_str(short), String::from_str("k"))
    } else {
        (decimal(bytes), String::new())
    }
}

} // verus!
