//! The grid layout: names down columns, with as few lines as fit the
//! terminal.

use vstd::prelude::*;

use crate::color::RESET;
use crate::display::GRID_GAP;
use crate::file::File;
use crate::sort::{lemma_sorted_member, lemma_sorted_permutation, sorted_by, SortKey};
use crate::text::{push_spaces, spaces_seq};

verus! {

/// The largest `len` of the entries (0 for none).
pub open spec fn len_max(s: Seq<File>) -> nat
    decreases s.len(),
{
    if s.len() == 0 {
        0
    } else {
        let m = len_max(s.drop_last());
        if m < s.last().len { s.last().len as nat } else { m }
    }
}

/// The sum of the `len` of the entries.
pub open spec fn len_sum(s: Seq<File>) -> nat
    decreases s.len(),
{
    if s.len() == 0 { 0 } else { len_sum(s.drop_last()) + s.last().len as nat }
}

pub open spec fn nat_sum(s: Seq<nat>) -> nat
    decreases s.len(),
{
    if s.len() == 0 { 0 } else { nat_sum(s.drop_last()) + s.last() }
}

pub open spec fn min(a: nat, b: nat) -> nat {
    if a < b { a } else { b }
}

/// Widths of the columns when the entries from `start` on go down columns
/// of `lines` entries: each the largest `len` of its entries.
pub open spec fn columns(s: Seq<File>, lines: nat, start: nat) -> Seq<nat>
    decreases s.len() - start,
{
    if lines == 0 || start >= s.len() {
        seq![]
    } else {
        seq![len_max(s.subrange(start as int, min(start + lines, s.len()) as int))]
            + columns(s, lines, min(start + lines, s.len()))
    }
}

/// The width of the grid of `lines` lines.
pub open spec fn col_sum(s: Seq<File>, lines: nat) -> nat {
    nat_sum(columns(s, lines, 0))
}

/// The entries are set for the grid: there are some, each at least one
/// column wide, none wider than the terminal, and their widths add up
/// within `usize`.
pub open spec fn grid_ok(s: Seq<File>, term_width: nat) -> bool {
    &&& s.len() > 0
    &&& forall|i: int| 0 <= i < s.len() ==> #[trigger] s[i].len > 0
    &&& len_max(s) <= term_width
    &&& len_sum(s) <= usize::MAX
}

/// The entries can be printed in the grid: set for it, and padding the
/// widest to the next column stays within `usize`.
pub open spec fn grid_print_ok(s: Seq<File>, term_width: nat) -> bool {
    grid_ok(s, term_width) && len_max(s) + GRID_GAP <= usize::MAX
}

/// The first guess at the number of lines: as many entries as would fit
/// across if all were as wide as the widest.
pub open spec fn first_lines(s: Seq<File>, term_width: nat) -> nat {
    s.len() / (term_width / len_max(s))
}

/// Going up from `lines0`, `l` is the first number of lines whose grid fits.
pub open spec fn first_fit_above(s: Seq<File>, term_width: nat, lines0: nat, l: nat) -> bool {
    &&& lines0 < l
    &&& col_sum(s, l) <= term_width
    &&& forall|k: nat| lines0 < k < l ==> col_sum(s, k) > term_width
}

/// Going down from `lines0`, `l` (at least 2) is the first number of lines
/// whose grid is at least as wide as the terminal.
pub open spec fn first_full_below(s: Seq<File>, term_width: nat, lines0: nat, l: nat) -> bool {
    &&& 2 <= l < lines0
    &&& col_sum(s, l) >= term_width
    &&& forall|k: nat| l < k < lines0 ==> col_sum(s, k) < term_width
}

/// The layout of the grid: `(1, [])` for one line that holds all names;
/// else the number of lines and the widths of the columns. From the first
/// guess, it grows the lines until the grid fits, or shrinks them, down to
/// two, while the grid stays narrower than the terminal.
pub open spec fn grid_layout(s: Seq<File>, term_width: nat) -> (nat, Seq<nat>) {
    let lines0 = first_lines(s, term_width);
    if lines0 < 3 && len_sum(s) <= term_width {
        (1, seq![])
    } else if col_sum(s, lines0) > term_width {
        let l = choose|l: nat| first_fit_above(s, term_width, lines0, l);
        (l, columns(s, l, 0))
    } else if col_sum(s, lines0) < term_width && lines0 > 2 {
        if exists|l: nat| first_full_below(s, term_width, lines0, l) {
            let l = choose|l: nat| first_full_below(s, term_width, lines0, l);
            if col_sum(s, l) == term_width {
                (l, columns(s, l, 0))
            } else {
                ((l + 1) as nat, columns(s, (l + 1) as nat, 0))
            }
        } else {
            (2, columns(s, 2, 0))
        }
    } else {
        (lines0, columns(s, lines0, 0))
    }
}

proof fn lemma_len_sum_concat(a: Seq<File>, b: Seq<File>)
    ensures
        len_sum(a + b) == len_sum(a) + len_sum(b),
    decreases b.len(),
{
    if b.len() == 0 {
        assert(a + b =~= a);
    } else {
        lemma_len_sum_concat(a, b.drop_last());
        assert((a + b).drop_last() =~= a + b.drop_last());
    }
}

proof fn lemma_len_max_le_sum(s: Seq<File>)
    ensures
        len_max(s) <= len_sum(s),
    decreases s.len(),
{
    if s.len() > 0 {
        lemma_len_max_le_sum(s.drop_last());
    }
}

/// The widest entry of a part is no wider than the widest of all.
proof fn lemma_len_max_sub(s: Seq<File>, a: int, b: int)
    requires
        0 <= a <= b <= s.len(),
    ensures
        len_max(s.subrange(a, b)) <= len_max(s),
    decreases s.len(),
{
    if b < s.len() {
        lemma_len_max_sub(s.drop_last(), a, b);
        assert(s.drop_last().subrange(a, b) =~= s.subrange(a, b));
    } else if a < b {
        let t = s.subrange(a, b);
        lemma_len_max_sub(s.drop_last(), a, b - 1);
        assert(s.drop_last().subrange(a, b - 1) =~= t.drop_last());
    }
}

/// The columns never add up to more than the entries do.
proof fn lemma_columns_sum(s: Seq<File>, lines: nat, start: nat)
    requires
        start <= s.len(),
    ensures
        nat_sum(columns(s, lines, start)) <= len_sum(s.subrange(start as int, s.len() as int)),
    decreases s.len() - start,
{
    if lines > 0 && start < s.len() {
        let next = min(start + lines, s.len());
        lemma_columns_sum(s, lines, next);
        let c = columns(s, lines, start);
        let chunk = s.subrange(start as int, next as int);
        let tail = columns(s, lines, next);
        lemma_nat_sum_front(len_max(chunk), tail);
        lemma_len_max_le_sum(chunk);
        lemma_len_sum_concat(chunk, s.subrange(next as int, s.len() as int));
        assert(chunk + s.subrange(next as int, s.len() as int) =~= s.subrange(start as int, s.len() as int));
    }
}

proof fn lemma_nat_sum_front(x: nat, t: Seq<nat>)
    ensures
        nat_sum(seq![x] + t) == x + nat_sum(t),
    decreases t.len(),
{
    if t.len() == 0 {
        assert(seq![x] + t =~= seq![x]);
        assert(seq![x].drop_last() =~= Seq::<nat>::empty());
        assert(nat_sum(Seq::<nat>::empty()) == 0);
        assert(seq![x].last() == x);
    } else {
        lemma_nat_sum_front(x, t.drop_last());
        assert((seq![x] + t).drop_last() =~= seq![x] + t.drop_last());
        assert((seq![x] + t).last() == t.last());
    }
}

/// With at least as many lines as entries, the grid is one column as wide
/// as the widest entry.
proof fn lemma_one_column(s: Seq<File>, lines: nat)
    requires
        s.len() > 0,
        lines >= s.len(),
    ensures
        col_sum(s, lines) == len_max(s),
{
    assert(s.subrange(0, s.len() as int) =~= s);
    assert(columns(s, lines, s.len()) == Seq::<nat>::empty());
    lemma_nat_sum_front(len_max(s), Seq::<nat>::empty());
    assert(seq![len_max(s)] + Seq::<nat>::empty() =~= seq![len_max(s)]);
}

/// Widths of the columns of the grid of `lines` lines, and their sum.
fn columns_width(files: &Vec<File>, lines: usize) -> (r: (usize, Vec<usize>))
    requires
        lines > 0,
        len_sum(files@) <= usize::MAX,
    ensures
        r.1@.map_values(|w: usize| w as nat) == columns(files@, lines as nat, 0),
        r.0 == col_sum(files@, lines as nat),
{
    let ghost s = files@;
    let n = files.len();
    let mut col_sizes: Vec<usize> = Vec::new();
    let mut total: usize = 0;
    let mut start: usize = 0;
    proof {
        lemma_columns_sum(s, lines as nat, 0);
        assert(s.subrange(0, n as int) =~= s);
        assert(col_sizes@.map_values(|w: usize| w as nat) + columns(s, lines as nat, 0) =~= columns(s, lines as nat, 0));
    }
    while start < n
        invariant
            n == s.len(),
            s == files@,
            lines > 0,
            start <= n,
            len_sum(s) <= usize::MAX,
            col_sizes@.map_values(|w: usize| w as nat) + columns(s, lines as nat, start as nat)
                == columns(s, lines as nat, 0),
            total + nat_sum(columns(s, lines as nat, start as nat)) == col_sum(s, lines as nat),
            col_sum(s, lines as nat) <= len_sum(s),
        decreases n - start,
    {
        let end = if n - start < lines { n } else { start + lines };
        let mut maximum: usize = 0;
        let mut k = start;
        proof {
            assert(s.subrange(start as int, start as int) =~= Seq::<File>::empty());
        }
        while k < end
            invariant
                start <= k <= end <= n,
                n == s.len(),
                s == files@,
                maximum == len_max(s.subrange(start as int, k as int)),
            decreases end - k,
        {
            proof {
                assert(s.subrange(start as int, k + 1).drop_last() =~= s.subrange(start as int, k as int));
            }
            if files[k].len > maximum {
                maximum = files[k].len;
            }
            k = k + 1;
        }
        proof {
            let tail = columns(s, lines as nat, end as nat);
            assert(end == min((start + lines) as nat, s.len()));
            assert(columns(s, lines as nat, start as nat) == seq![maximum as nat] + tail);
            lemma_nat_sum_front(maximum as nat, tail);
            assert((col_sizes@.push(maximum)).map_values(|w: usize| w as nat)
                =~= col_sizes@.map_values(|w: usize| w as nat).push(maximum as nat));
            assert(col_sizes@.map_values(|w: usize| w as nat).push(maximum as nat) + tail
                =~= col_sizes@.map_values(|w: usize| w as nat) + (seq![maximum as nat] + tail));
        }
        col_sizes.push(maximum);
        total = total + maximum;
        start = end;
    }
    proof {
        assert(col_sizes@.map_values(|w: usize| w as nat) + Seq::<nat>::empty()
            =~= col_sizes@.map_values(|w: usize| w as nat));
    }
    (total, col_sizes)
}

fn sum_and_max(files: &Vec<File>) -> (r: (usize, usize))
    requires
        len_sum(files@) <= usize::MAX,
    ensures
        r.0 == len_sum(files@),
        r.1 == len_max(files@),
{
    let n = files.len();
    let mut sum: usize = 0;
    let mut mx: usize = 0;
    let mut i: usize = 0;
    proof {
        assert(files@.take(0) =~= Seq::<File>::empty());
    }
    while i < n
        invariant
            n == files@.len(),
            i <= n,
            len_sum(files@) <= usize::MAX,
            sum == len_sum(files@.take(i as int)),
            mx == len_max(files@.take(i as int)),
        decreases n - i,
    {
        proof {
            assert(files@.take(i + 1).drop_last() =~= files@.take(i as int));
            lemma_len_sum_concat(files@.take(i + 1), files@.skip(i + 1));
            assert(files@.take(i + 1) + files@.skip(i + 1) =~= files@);
        }
        sum = sum + files[i].len;
        if files[i].len > mx {
            mx = files[i].len;
        }
        i = i + 1;
    }
    proof {
        assert(files@.take(n as int) =~= files@);
    }
    (sum, mx)
}

/// The layout of the grid for a terminal `term_width` columns wide: the
/// number of lines (1 for all names on one line) and the widths of the
/// columns. The grid it chooses fits the terminal.
pub fn grid_size(names: &Vec<File>, term_width: usize) -> (r: (usize, Vec<usize>))
    requires
        grid_ok(names@, term_width as nat),
    ensures
        (r.0 as nat, r.1@.map_values(|w: usize| w as nat)) == grid_layout(names@, term_width as nat),
        r.0 >= 1,
        r.0 == 1 ==> r.1@.len() == 0 && len_sum(names@) <= term_width,
        r.0 != 1 ==> r.1@.map_values(|w: usize| w as nat) == columns(names@, r.0 as nat, 0)
            && col_sum(names@, r.0 as nat) <= term_width,
{
    let ghost s = names@;
    let ghost tw = term_width as nat;
    let n = names.len();
    let (total, widest) = sum_and_max(names);
    proof {
        assert(s[0].len > 0);
        assert(len_max(s) >= s[0].len) by {
            lemma_len_max_sub(s, 0, 1);
            assert(s.subrange(0, 1).drop_last() =~= Seq::<File>::empty());
        }
    }
    assert(term_width / widest >= 1) by (nonlinear_arith)
        requires widest <= term_width, widest > 0;
    let across = term_width / widest;
    let mut lines = n / across;
    let ghost lines0 = lines as nat;
    if lines < 3 && total <= term_width {
        let v: Vec<usize> = Vec::new();
        proof {
            assert(v@.map_values(|w: usize| w as nat) =~= Seq::<nat>::empty());
        }
        return (1, v);
    }
    proof {
        if lines == 0 {
            assert(n < across) by (nonlinear_arith)
                requires lines == n / across, lines == 0, across > 0;
            assert(n * widest <= across * widest) by (nonlinear_arith)
                requires n < across;
            assert(across * widest <= term_width) by (nonlinear_arith)
                requires across == term_width / widest, widest > 0;
            lemma_len_sum_bound(s, widest as nat);
            assert(false);
        }
    }
    let (mut col_sum_now, mut column_vec) = columns_width(names, lines);
    if term_width < col_sum_now {
        loop
            invariant
                s == names@,
                n == s.len(),
                grid_ok(s, tw),
                tw == term_width,
                lines0 <= lines,
                lines0 == first_lines(s, tw),
                forall|k: nat| lines0 < k <= lines ==> col_sum(s, k) > tw,
                col_sum(s, lines as nat) > tw,
                col_sum(s, lines0) > tw,
                !(lines0 < 3 && len_sum(s) <= tw),
            decreases n - lines,
        {
            proof {
                if lines >= n {
                    lemma_one_column(s, lines as nat);
                }
            }
            lines = lines + 1;
            let (cs, cv) = columns_width(names, lines);
            col_sum_now = cs;
            column_vec = cv;
            if term_width >= col_sum_now {
                proof {
                    assert(first_fit_above(s, tw, lines0, lines as nat));
                    lemma_first_fit_unique(s, tw, lines0, lines as nat);
                }
                return (lines, column_vec);
            }
        }
    }
    if term_width > col_sum_now && lines > 2 {
        let mut column_bcup = column_vec;
        loop
            invariant
                s == names@,
                grid_ok(s, tw),
                tw == term_width,
                lines0 == first_lines(s, tw),
                !(lines0 < 3 && len_sum(s) <= tw),
                col_sum(s, lines0) < tw,
                lines0 > 2,
                2 <= lines < lines0 + 1,
                column_bcup@.map_values(|w: usize| w as nat) == columns(s, lines as nat, 0),
                forall|k: nat| lines <= k <= lines0 ==> col_sum(s, k) < tw,
            decreases lines,
        {
            lines = lines - 1;
            if lines < 2 {
                proof {
                    assert(!exists|l: nat| first_full_below(s, tw, lines0, l)) by {
                        if exists|l: nat| first_full_below(s, tw, lines0, l) {
                            let l = choose|l: nat| first_full_below(s, tw, lines0, l);
                            assert(col_sum(s, l) < tw);
                        }
                    }
                }
                return (2, column_bcup);
            }
            let (cs, cv) = columns_width(names, lines);
            if term_width == cs {
                proof {
                    assert(first_full_below(s, tw, lines0, lines as nat));
                    lemma_first_full_unique(s, tw, lines0, lines as nat);
                }
                return (lines, cv);
            }
            if term_width < cs {
                proof {
                    assert(first_full_below(s, tw, lines0, lines as nat));
                    lemma_first_full_unique(s, tw, lines0, lines as nat);
                }
                return (lines + 1, column_bcup);
            }
            column_bcup = cv;
        }
    }
    proof {
        if lines == 1 {
            lemma_single_lines(s, 0);
            assert(s.subrange(0, s.len() as int) =~= s);
            assert(lines as nat == lines0);
            assert(false);
        }
    }
    (lines, column_vec)
}

/// With one line, the grid's columns are the entries themselves.
proof fn lemma_single_lines(s: Seq<File>, start: nat)
    requires
        start <= s.len(),
    ensures
        nat_sum(columns(s, 1, start)) == len_sum(s.subrange(start as int, s.len() as int)),
    decreases s.len() - start,
{
    if start < s.len() {
        let next = (start + 1) as nat;
        lemma_single_lines(s, next);
        let chunk = s.subrange(start as int, next as int);
        assert(chunk.drop_last() =~= Seq::<File>::empty());
        assert(chunk.last() == s[start as int]);
        assert(len_max(chunk.drop_last()) == 0);
        assert(len_sum(chunk.drop_last()) == 0);
        assert(len_max(chunk) == s[start as int].len);
        assert(len_sum(chunk) == s[start as int].len);
        assert(min(start + 1, s.len()) == next);
        assert(columns(s, 1, start) == seq![len_max(chunk)] + columns(s, 1, next));
        lemma_nat_sum_front(len_max(chunk), columns(s, 1, next));
        lemma_len_sum_concat(chunk, s.subrange(next as int, s.len() as int));
        assert(chunk + s.subrange(next as int, s.len() as int) =~= s.subrange(start as int, s.len() as int));
    } else {
        assert(s.subrange(start as int, s.len() as int) =~= Seq::<File>::empty());
    }
}

/// With `n` entries none wider than `w`, they add up to at most `n * w`.
proof fn lemma_len_sum_bound(s: Seq<File>, w: nat)
    requires
        len_max(s) <= w,
    ensures
        len_sum(s) <= s.len() * w,
    decreases s.len(),
{
    if s.len() > 0 {
        lemma_len_max_sub(s, 0, s.len() - 1);
        assert(s.subrange(0, s.len() - 1) =~= s.drop_last());
        lemma_len_sum_bound(s.drop_last(), w);
        assert((s.len() - 1) * w + w == s.len() * w) by (nonlinear_arith);
    }
}

proof fn lemma_first_fit_unique(s: Seq<File>, tw: nat, lines0: nat, l: nat)
    requires
        first_fit_above(s, tw, lines0, l),
    ensures
        (choose|k: nat| first_fit_above(s, tw, lines0, k)) == l,
{
    let k = choose|k: nat| first_fit_above(s, tw, lines0, k);
    assert(first_fit_above(s, tw, lines0, k));
    if k < l {
        assert(col_sum(s, k) > tw);
    } else if l < k {
        assert(col_sum(s, l) > tw);
    }
}

proof fn lemma_first_full_unique(s: Seq<File>, tw: nat, lines0: nat, l: nat)
    requires
        first_full_below(s, tw, lines0, l),
    ensures
        exists|k: nat| first_full_below(s, tw, lines0, k),
        (choose|k: nat| first_full_below(s, tw, lines0, k)) == l,
{
    let k = choose|k: nat| first_full_below(s, tw, lines0, k);
    assert(first_full_below(s, tw, lines0, k));
    if k < l {
        assert(col_sum(s, l) < tw);
    } else if l < k {
        assert(col_sum(s, k) < tw);
    }
}

proof fn lemma_len_max_concat(a: Seq<File>, b: Seq<File>)
    ensures
        len_max(a + b) == if len_max(a) < len_max(b) { len_max(b) } else { len_max(a) },
    decreases b.len(),
{
    if b.len() == 0 {
        assert(a + b =~= a);
    } else {
        lemma_len_max_concat(a, b.drop_last());
        assert((a + b).drop_last() =~= a + b.drop_last());
    }
}

proof fn lemma_single(x: File)
    ensures
        len_max(seq![x]) == x.len,
        len_sum(seq![x]) == x.len,
{
    assert(seq![x].drop_last() =~= Seq::<File>::empty());
    assert(len_max(Seq::<File>::empty()) == 0);
    assert(len_sum(Seq::<File>::empty()) == 0);
}

/// Widths do not depend on the order of the entries.
pub proof fn lemma_widths_sorted(s: Seq<File>, key: SortKey)
    ensures
        len_sum(sorted_by(s, key)) == len_sum(s),
        len_max(sorted_by(s, key)) == len_max(s),
    decreases s.len(),
{
    if s.len() > 0 {
        lemma_widths_sorted(s.drop_last(), key);
        let t = sorted_by(s.drop_last(), key);
        let x = s.last();
        crate::sort::lemma_insert_pos(t, x, key);
        let p = crate::sort::insert_pos(t, x, key) as int;
        let a = t.take(p);
        let b = t.skip(p);
        assert(t =~= a + b);
        assert(t.insert(p, x) =~= a + (seq![x] + b));
        lemma_len_sum_concat(a, b);
        lemma_len_sum_concat(a, seq![x] + b);
        lemma_len_sum_concat(seq![x], b);
        lemma_len_max_concat(a, b);
        lemma_len_max_concat(a, seq![x] + b);
        lemma_len_max_concat(seq![x], b);
        lemma_single(x);
    }
}

/// Sorting keeps entries set for the grid.
pub proof fn lemma_grid_ok_sorted(s: Seq<File>, term_width: nat, key: SortKey)
    requires
        grid_ok(s, term_width),
    ensures
        grid_ok(sorted_by(s, key), term_width),
{
    let t = sorted_by(s, key);
    lemma_widths_sorted(s, key);
    lemma_sorted_permutation(s, key);
    assert forall|i: int| 0 <= i < t.len() implies #[trigger] t[i].len > 0 by {
        lemma_sorted_member(s, key, i);
    }
}

/// No column is wider than the widest entry.
proof fn lemma_columns_le_max(s: Seq<File>, lines: nat, start: nat)
    requires
        start <= s.len(),
    ensures
        forall|k: int| 0 <= k < columns(s, lines, start).len() ==> #[trigger] columns(s, lines, start)[k] <= len_max(s),
    decreases s.len() - start,
{
    if lines > 0 && start < s.len() {
        let next = min(start + lines, s.len());
        lemma_columns_le_max(s, lines, next);
        lemma_len_max_sub(s, start as int, next as int);
        let c = columns(s, lines, start);
        let tail = columns(s, lines, next);
        assert forall|k: int| 0 <= k < c.len() implies #[trigger] c[k] <= len_max(s) by {
            if k > 0 {
                assert(c[k] == tail[k - 1]);
            }
        }
    }
}

/// An entry in a column `width` wide: its name, then spaces up to the
/// next column.
pub open spec fn cell(f: File, width: nat) -> Seq<char> {
    if width >= f.len {
        f.name@ + spaces_seq((width - f.len + GRID_GAP) as nat)
    } else {
        f.name@
    }
}

/// Line `r` of a grid of `lines` lines, from column `c` on: the entries
/// `r + c * lines`, `r + (c + 1) * lines`, ... each in its column.
pub open spec fn grid_row(s: Seq<File>, cols: Seq<nat>, lines: nat, r: nat, c: nat) -> Seq<char>
    decreases cols.len() - c,
{
    if c >= cols.len() || r + c * lines >= s.len() {
        seq![]
    } else {
        cell(s[(r + c * lines) as int], cols[c as int]) + grid_row(s, cols, lines, r, c + 1)
    }
}

/// The first `k` lines of the grid, one below the other.
pub open spec fn grid_rows(s: Seq<File>, cols: Seq<nat>, lines: nat, k: nat) -> Seq<char>
    decreases k,
{
    if k == 0 {
        seq![]
    } else if k == 1 {
        grid_row(s, cols, lines, 0, 0)
    } else {
        grid_rows(s, cols, lines, (k - 1) as nat) + "\n"@ + grid_row(s, cols, lines, (k - 1) as nat, 0)
    }
}

/// The first `k` names, with the gap between them.
pub open spec fn names_line(s: Seq<File>, k: nat) -> Seq<char>
    decreases k,
{
    if k == 0 {
        seq![]
    } else if k == 1 {
        s[0].name@
    } else {
        names_line(s, (k - 1) as nat) + spaces_seq(GRID_GAP as nat) + s[k - 1].name@
    }
}

/// What the grid listing prints for `s` on a terminal `term_width` wide:
/// all names on one line, or the lines of the grid; then the colour reset.
pub open spec fn grid_text(s: Seq<File>, term_width: nat) -> Seq<char> {
    let layout = grid_layout(s, term_width);
    if layout.0 == 1 {
        names_line(s, s.len()) + RESET@
    } else {
        grid_rows(s, layout.1, layout.0, layout.0) + RESET@
    }
}

fn push_row(out: &mut String, files: &Vec<File>, cols: &Vec<usize>, lines: usize, r: usize)
    requires
        lines > 0,
        r < lines,
        forall|k: int| 0 <= k < files@.len() ==> #[trigger] files@[k].len > 0,
        forall|k: int| 0 <= k < cols@.len() ==> #[trigger] cols@[k] + GRID_GAP <= usize::MAX,
    ensures
        final(out)@ == old(out)@ + grid_row(files@, cols@.map_values(|w: usize| w as nat), lines as nat, r as nat, 0),
{
    let ghost cs = cols@.map_values(|w: usize| w as nat);
    let ghost start = out@;
    let n = files.len();
    let m = cols.len();
    let mut c: usize = 0;
    let mut i: usize = r;
    let mut more = r < n;
    proof {
        assert(r + 0 * lines == r) by (nonlinear_arith);
    }
    while more && c < m
        invariant
            n == files@.len(),
            m == cols@.len(),
            cs == cols@.map_values(|w: usize| w as nat),
            lines > 0,
            c <= m,
            forall|k: int| 0 <= k < files@.len() ==> #[trigger] files@[k].len > 0,
            forall|k: int| 0 <= k < cols@.len() ==> #[trigger] cols@[k] + GRID_GAP <= usize::MAX,
            more ==> i == r + c * lines && i < n,
            !more ==> r + c * lines >= n,
            out@ + grid_row(files@, cs, lines as nat, r as nat, c as nat)
                == start + grid_row(files@, cs, lines as nat, r as nat, 0),
        decreases m - c,
    {
        let f = &files[i];
        let w = cols[c];
        let ghost before = out@;
        out.append(f.name.as_str());
        if w >= f.len {
            push_spaces(out, w - f.len + GRID_GAP);
        }
        proof {
            assert(out@ == before + cell(files@[i as int], cs[c as int]));
            assert(grid_row(files@, cs, lines as nat, r as nat, c as nat)
                == cell(files@[i as int], cs[c as int]) + grid_row(files@, cs, lines as nat, r as nat, (c + 1) as nat));
            assert(r + (c + 1) * lines == r + c * lines + lines) by (nonlinear_arith);
        }
        if n - i <= lines {
            more = false;
        } else {
            i = i + lines;
        }
        c = c + 1;
    }
    proof {
        assert(grid_row(files@, cs, lines as nat, r as nat, c as nat) == Seq::<char>::empty());
        assert(out@ + Seq::<char>::empty() =~= out@);
    }
}

/// The text that the grid listing prints for `files` on a terminal
/// `term_width` columns wide.
pub fn print(files: &Vec<File>, term_width: usize) -> (r: String)
    requires
        grid_print_ok(files@, term_width as nat),
    ensures
        r@ == grid_text(files@, term_width as nat),
{
    let (lines, column_sizes) = grid_size(files, term_width);
    let mut out = String::new();
    if lines == 1 {
        let n = files.len();
        let mut k: usize = 0;
        while k < n
            invariant
                n == files@.len(),
                k <= n,
                out@ == names_line(files@, k as nat),
            decreases n - k,
        {
            if k > 0 {
                push_spaces(&mut out, GRID_GAP);
            }
            out.append(files[k].name.as_str());
            proof {
                if k == 0 {
                    assert(out@ =~= names_line(files@, 1));
                }
            }
            k = k + 1;
        }
        out.append(RESET);
        return out;
    }
    proof {
        let cs = column_sizes@.map_values(|w: usize| w as nat);
        lemma_columns_le_max(files@, lines as nat, 0);
        assert forall|k: int| 0 <= k < column_sizes@.len() implies #[trigger] column_sizes@[k] + GRID_GAP <= usize::MAX by {
            assert(cs[k] == column_sizes@[k] as nat);
        }
    }
    let mut r: usize = 0;
    while r < lines
        invariant
            r <= lines,
            lines >= 1,
            grid_print_ok(files@, term_width as nat),
            forall|k: int| 0 <= k < column_sizes@.len() ==> #[trigger] column_sizes@[k] + GRID_GAP <= usize::MAX,
            out@ == grid_rows(files@, column_sizes@.map_values(|w: usize| w as nat), lines as nat, r as nat),
        decreases lines - r,
    {
        if r > 0 {
            out.append("\n");
        }
        push_row(&mut out, files, &column_sizes, lines, r);
        proof {
            reveal_strlit("\n");
            if r == 0 {
                assert(out@ =~= grid_rows(files@, column_sizes@.map_values(|w: usize| w as nat), lines as nat, 1));
            }
        }
        r = r + 1;
    }
    out.append(RESET);
    out
}

} // verus!
