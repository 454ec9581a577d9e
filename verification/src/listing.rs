//! What the program prints for a group of entries (the files named on the
//! command line, or the contents of one directory), and the short messages
//! around it.

use vstd::prelude::*;

use crate::args::Flags;
use crate::color::{BLUE_L, RED, WHITE};
use crate::display::grid::{grid_print_ok, grid_text, lemma_grid_ok_sorted, lemma_widths_sorted};
use crate::display::list::{clock_ok, line_ok, list_text, width_ok};
use crate::display::tree::tree_text;
use crate::display::{grid, list, tree, GRID_GAP};
use crate::file::name::opt_seq;
use crate::file::File;
use crate::sort::{lemma_sorted_member, sort_files, sorted_by, SortKey};
use crate::text::{pad_right, push_pad_right};
use crate::Width;

verus! {

/// Whether the group is shown as a long listing: with the long format, or
/// when sorted by size or time (which only the long listing shows).
pub open spec fn uses_list(fl: Flags, n: nat) -> bool {
    fl.list_format || (!fl.tree_format && n > 1 && (fl.size_sort || fl.time_sort))
}

/// Whether a group of `n` entries is shown in the grid (which is laid out
/// for the terminal's width).
pub fn uses_grid(n: usize, fl: &Flags) -> (r: bool)
    ensures
        r == (n > 0 && !uses_list(*fl, n as nat) && !fl.tree_format),
{
    n > 0 && !(fl.list_format || (!fl.tree_format && n > 1 && (fl.size_sort || fl.time_sort)))
        && !fl.tree_format
}

/// The entries in the order shown: sorted by size, time, or by kind,
/// extension and name, except in a tree (whose levels are sorted already)
/// and for a single entry.
pub open spec fn arranged(s: Seq<File>, fl: Flags) -> Seq<File> {
    if !fl.tree_format && s.len() > 1 {
        if fl.size_sort {
            sorted_by(s, SortKey::Size)
        } else if fl.time_sort {
            sorted_by(s, SortKey::Time)
        } else {
            sorted_by(s, SortKey::Kind)
        }
    } else {
        s
    }
}

/// The entries are shown in the order asked for: by size with `-S`, by
/// time with `-t`, else directories first by extension and name; each
/// entry shown as often as it was given (outside a tree, where each level
/// is sorted as it is read).
pub proof fn lemma_arranged_order(s: Seq<File>, fl: Flags)
    ensures
        arranged(s, fl).to_multiset() == s.to_multiset(),
        arranged(s, fl).len() == s.len(),
        !fl.tree_format && fl.size_sort ==> crate::sort::in_order(arranged(s, fl), SortKey::Size),
        !fl.tree_format && !fl.size_sort && fl.time_sort ==> crate::sort::in_order(arranged(s, fl), SortKey::Time),
        !fl.tree_format && !fl.size_sort && !fl.time_sort ==> crate::sort::in_order(arranged(s, fl), SortKey::Kind),
{
    let key = if fl.size_sort { SortKey::Size } else if fl.time_sort { SortKey::Time } else { SortKey::Kind };
    crate::sort::lemma_sorted_in_order(s, key);
    crate::sort::lemma_sorted_permutation(s, key);
    if fl.tree_format || s.len() <= 1 {
        if s.len() == 1 {
            crate::sort::lemma_file_le_total(s[0], s[0], SortKey::Size);
            crate::sort::lemma_file_le_total(s[0], s[0], SortKey::Time);
            crate::sort::lemma_file_le_total(s[0], s[0], SortKey::Kind);
        }
    }
}

/// The group can be shown: every entry fits the long listing, or the
/// entries fit the grid of a terminal `term_width` wide.
pub open spec fn print_ok(s: Seq<File>, fl: Flags, w: Width, term_width: nat, clock: u64) -> bool {
    s.len() == 0 || if uses_list(fl, s.len()) {
        &&& forall|i: int| 0 <= i < s.len() ==> line_ok(#[trigger] s[i], fl, w)
        &&& width_ok(w)
        &&& clock_ok(clock)
    } else if fl.tree_format {
        true
    } else {
        grid_print_ok(s, term_width)
    }
}

/// The heading of a group: a blank line and the directory's name.
pub open spec fn heading(title: Option<Seq<char>>) -> Seq<char> {
    match title {
        Some(t) => "\n"@ + WHITE@ + t + ":\n"@,
        None => seq![],
    }
}

/// What the program prints for the group: its heading, then the long
/// listing, the tree or the grid of its entries; for an empty group of the
/// grid, the dot entries.
pub open spec fn vec_print_text(
    title: Option<Seq<char>>,
    s: Seq<File>,
    fl: Flags,
    w: Width,
    term_width: nat,
    clock: u64,
) -> Seq<char> {
    if s.len() == 0 {
        heading(title) + if !fl.list_format && !fl.tree_format { BLUE_L@ + ".   ..\n"@ } else { seq![] }
    } else {
        let t = arranged(s, fl);
        let body = if uses_list(fl, s.len()) {
            list_text(t, fl, w, clock)
        } else if fl.tree_format {
            tree_text(t)
        } else {
            grid_text(t, term_width)
        };
        heading(title) + body + "\n"@
    }
}

/// The text that the program prints for a group of entries, titled with
/// the directory's name when there are several groups; the grid is laid
/// out for a terminal `term_width` columns wide, and dates are relative
/// to `clock`.
pub fn file_vec_print(
    title: Option<String>,
    file_list: Vec<File>,
    fl: &Flags,
    w: &Width,
    term_width: usize,
    clock: u64,
) -> (r: String)
    requires
        print_ok(file_list@, *fl, *w, term_width as nat, clock),
    ensures
        r@ == vec_print_text(opt_seq(title), file_list@, *fl, *w, term_width as nat, clock),
{
    let ghost s = file_list@;
    let mut out = String::new();
    match &title {
        Some(pt) => {
            out.append("\n");
            out.append(WHITE);
            out.append(pt.as_str());
            out.append(":\n");
        },
        None => {},
    }
    proof {
        assert(out@ =~= heading(opt_seq(title)));
    }
    let fl_len = file_list.len();
    if fl_len == 0 {
        if !fl.list_format && !fl.tree_format {
            out.append(BLUE_L);
            out.append(".   ..\n");
        }
        return out;
    }
    let arranged_list = if !fl.tree_format && fl_len > 1 {
        let key = if fl.size_sort {
            SortKey::Size
        } else if fl.time_sort {
            SortKey::Time
        } else {
            SortKey::Kind
        };
        proof {
            if uses_list(*fl, s.len()) {
                assert forall|i: int| 0 <= i < sorted_by(s, key).len() implies line_ok(
                    #[trigger] sorted_by(s, key)[i],
                    *fl,
                    *w,
                ) by {
                    lemma_sorted_member(s, key, i);
                }
            } else if !fl.tree_format {
                lemma_grid_ok_sorted(s, term_width as nat, key);
                lemma_widths_sorted(s, key);
            }
        }
        sort_files(file_list, key)
    } else {
        file_list
    };
    let body = if fl.list_format || (!fl.tree_format && fl_len > 1 && (fl.size_sort || fl.time_sort)) {
        list::print(&arranged_list, fl, w, clock)
    } else if fl.tree_format {
        tree::print(&arranged_list)
    } else {
        grid::print(&arranged_list, term_width)
    };
    out.append(body.as_str());
    out.append("\n");
    out
}

/// An entry named on the command line: its name shown after the directory
/// part of the path `bp`, and as wide as both.
pub fn standalone_entry(f: File, bp: &str) -> (r: File)
    requires
        bp@.len() + f.sname@.len() + GRID_GAP <= usize::MAX,
    ensures
        r.name@ == WHITE@ + bp@ + f.name@,
        r.len == bp@.len() + f.sname@.len() + GRID_GAP,
        r.sname == f.sname,
        r.ext == f.ext,
        r.dir == f.dir,
        r.line == f.line,
{
    let mut name = String::from_str(WHITE);
    name.append(bp);
    name.append(f.name.as_str());
    let len = bp.unicode_len() + f.sname.as_str().unicode_len() + GRID_GAP;
    let File { sname, name: _, ext, len: _, dir, line } = f;
    File { sname, name, ext, len, dir, line }
}

/// The title of the group of a directory named on the command line: none
/// in a tree, nor when it is all there is to show.
pub fn folder_title(name: String, folders: usize, standalone: usize, fl: &Flags) -> (r: Option<String>)
    ensures
        r == (if fl.tree_format || (folders == 1 && standalone == 0) { None } else { Some(name) }),
{
    if fl.tree_format || (folders == 1 && standalone == 0) {
        None
    } else {
        Some(name)
    }
}

/// The message for a name on the command line that is no file.
pub fn missing_message(name: &str) -> (r: String)
    ensures
        r@ == RED@ + name@ + WHITE@ + ": No such file or directory\n\n"@,
{
    let mut out = String::from_str(RED);
    out.append(name);
    out.append(WHITE);
    out.append(": No such file or directory\n\n");
    out
}

/// The message for a directory that could not be read: its path in a field
/// of 80 characters, then the reason.
pub fn read_error_message(path: &str, reason: &str) -> (r: String)
    ensures
        r@ == "read path: "@ + RED@ + pad_right(path@, 80) + WHITE@ + "  "@ + reason@ + "\n"@,
{
    let mut out = String::from_str("read path: ");
    out.append(RED);
    push_pad_right(&mut out, path, 80);
    out.append(WHITE);
    out.append("  ");
    out.append(reason);
    out.append("\n");
    out
}

} // verus!
