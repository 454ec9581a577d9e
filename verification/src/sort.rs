//! The orders in which a listing shows its entries, and the stable sort
//! that puts entries in them.

use vstd::prelude::*;

use crate::file::File;

verus! {

/// The order of a listing.
#[derive(Clone, Copy, Debug, PartialEq, Eq, Structural)]
pub enum SortKey {
    /// Directories first, then by size (`-S`).
    Size,
    /// By the time shown (`-t`).
    Time,
    /// By name (`-N`).
    Name,
    /// Directories first, then by extension key, then by name (the default).
    Kind,
}

/// `a` comes before `b` in the order of their characters' code points (the
/// order of `str`'s `<`, as UTF-8 keeps the order of code points).
pub open spec fn lex_lt(a: Seq<char>, b: Seq<char>) -> bool
    decreases a.len(),
{
    if b.len() == 0 {
        false
    } else if a.len() == 0 {
        true
    } else if a[0] != b[0] {
        (a[0] as u32) < (b[0] as u32)
    } else {
        lex_lt(a.drop_first(), b.drop_first())
    }
}

/// The size an entry is sorted by (0 for an entry without long columns).
pub open spec fn size_key(f: File) -> u64 {
    match f.line {
        Some(l) => l.size,
        None => 0,
    }
}

/// The time an entry is sorted by (0 for an entry without long columns).
pub open spec fn time_key(f: File) -> u64 {
    match f.line {
        Some(l) => l.time,
        None => 0,
    }
}

/// Whether `a` may stand before `b` in the order `key`.
pub open spec fn file_le(a: File, b: File, key: SortKey) -> bool {
    match key {
        SortKey::Size => if a.dir != b.dir { a.dir } else { size_key(a) <= size_key(b) },
        SortKey::Time => time_key(a) <= time_key(b),
        SortKey::Name => !lex_lt(b.sname@, a.sname@),
        SortKey::Kind => if a.dir != b.dir {
            a.dir
        } else if a.ext@ != b.ext@ {
            lex_lt(a.ext@, b.ext@)
        } else {
            !lex_lt(b.sname@, a.sname@)
        },
    }
}

/// Where a stable insertion puts `x` into `s`: after the last entry that
/// may stand before it, scanning from the end.
pub open spec fn insert_pos(s: Seq<File>, x: File, key: SortKey) -> nat
    decreases s.len(),
{
    if s.len() == 0 {
        0
    } else if file_le(s.last(), x, key) {
        s.len()
    } else {
        insert_pos(s.drop_last(), x, key)
    }
}

/// The stable sort of `s` by `key` (as `sort_by_key` orders it).
pub open spec fn sorted_by(s: Seq<File>, key: SortKey) -> Seq<File>
    decreases s.len(),
{
    if s.len() == 0 {
        s
    } else {
        let t = sorted_by(s.drop_last(), key);
        t.insert(insert_pos(t, s.last(), key) as int, s.last())
    }
}

/// Every entry may stand before every later one.
pub open spec fn in_order(s: Seq<File>, key: SortKey) -> bool {
    forall|i: int, j: int| 0 <= i < j < s.len() ==> file_le(#[trigger] s[i], #[trigger] s[j], key)
}

/// Whether `a` comes before `b` (see `lex_lt`).
pub fn text_lt(a: &str, b: &str) -> (r: bool)
    ensures
        r == lex_lt(a@, b@),
{
    let la = a.unicode_len();
    let lb = b.unicode_len();
    let mut i: usize = 0;
    proof {
        assert(a@.skip(0) =~= a@);
        assert(b@.skip(0) =~= b@);
    }
    while i < la && i < lb
        invariant
            la == a@.len(),
            lb == b@.len(),
            i <= la,
            i <= lb,
            lex_lt(a@, b@) == lex_lt(a@.skip(i as int), b@.skip(i as int)),
        decreases la - i,
    {
        let c = a.get_char(i);
        let d = b.get_char(i);
        if c != d {
            proof {
                assert(a@.skip(i as int)[0] == c);
                assert(b@.skip(i as int)[0] == d);
            }
            return (c as u32) < (d as u32);
        }
        proof {
            assert(a@.skip(i as int).drop_first() =~= a@.skip(i + 1));
            assert(b@.skip(i as int).drop_first() =~= b@.skip(i + 1));
        }
        i = i + 1;
    }
    i < lb
}

/// Whether `a` may stand before `b` in the order `key`.
pub fn file_le_exec(a: &File, b: &File, key: SortKey) -> (r: bool)
    ensures
        r == file_le(*a, *b, key),
{
    match key {
        SortKey::Size => {
            if a.dir != b.dir {
                a.dir
            } else {
                let sa = match &a.line {
                    Some(l) => l.size,
                    None => 0,
                };
                let sb = match &b.line {
                    Some(l) => l.size,
                    None => 0,
                };
                sa <= sb
            }
        },
        SortKey::Time => {
            let ta = match &a.line {
                Some(l) => l.time,
                None => 0,
            };
            let tb = match &b.line {
                Some(l) => l.time,
                None => 0,
            };
            ta <= tb
        },
        SortKey::Name => !text_lt(b.sname.as_str(), a.sname.as_str()),
        SortKey::Kind => {
            if a.dir != b.dir {
                a.dir
            } else if text_lt(a.ext.as_str(), b.ext.as_str()) {
                proof {
                    lemma_lex_lt_irreflexive(a.ext@);
                }
                true
            } else if text_lt(b.ext.as_str(), a.ext.as_str()) {
                proof {
                    lemma_lex_lt_irreflexive(a.ext@);
                }
                false
            } else {
                proof {
                    lemma_lex_lt_trichotomy(a.ext@, b.ext@);
                }
                !text_lt(b.sname.as_str(), a.sname.as_str())
            }
        },
    }
}

pub proof fn lemma_lex_lt_irreflexive(a: Seq<char>)
    ensures
        !lex_lt(a, a),
    decreases a.len(),
{
    if a.len() > 0 {
        lemma_lex_lt_irreflexive(a.drop_first());
    }
}

/// Of two different texts, one comes before the other.
pub proof fn lemma_lex_lt_trichotomy(a: Seq<char>, b: Seq<char>)
    ensures
        lex_lt(a, b) || lex_lt(b, a) || a == b,
    decreases a.len(),
{
    if a.len() > 0 && b.len() > 0 && a[0] == b[0] {
        lemma_lex_lt_trichotomy(a.drop_first(), b.drop_first());
        if a.drop_first() == b.drop_first() {
            assert(a =~= seq![a[0]] + a.drop_first());
            assert(b =~= seq![b[0]] + b.drop_first());
        }
    } else if a.len() == 0 && b.len() == 0 {
        assert(a =~= b);
    } else if a.len() > 0 && b.len() > 0 {
        vstd::utf8::char_u32_cast(a[0], a[0] as u32);
        vstd::utf8::char_u32_cast(b[0], b[0] as u32);
    }
}

pub proof fn lemma_lex_lt_transitive(a: Seq<char>, b: Seq<char>, c: Seq<char>)
    requires
        lex_lt(a, b),
        lex_lt(b, c),
    ensures
        lex_lt(a, c),
    decreases a.len(),
{
    if a.len() > 0 && b.len() > 0 && c.len() > 0 && a[0] == b[0] && b[0] == c[0] {
        lemma_lex_lt_transitive(a.drop_first(), b.drop_first(), c.drop_first());
    }
}

/// "Not after" is transitive.
pub proof fn lemma_text_le_transitive(a: Seq<char>, b: Seq<char>, c: Seq<char>)
    requires
        !lex_lt(b, a),
        !lex_lt(c, b),
    ensures
        !lex_lt(c, a),
{
    lemma_lex_lt_trichotomy(a, b);
    lemma_lex_lt_trichotomy(b, c);
    if lex_lt(c, a) {
        if lex_lt(a, b) {
            lemma_lex_lt_transitive(c, a, b);
            if lex_lt(b, c) {
                lemma_lex_lt_transitive(c, b, c);
                lemma_lex_lt_irreflexive(c);
            }
        }
    }
}

/// Of any two entries, one may stand before the other.
pub proof fn lemma_file_le_total(a: File, b: File, key: SortKey)
    ensures
        file_le(a, b, key) || file_le(b, a, key),
{
    lemma_lex_lt_trichotomy(a.ext@, b.ext@);
    lemma_lex_lt_trichotomy(a.sname@, b.sname@);
    lemma_lex_lt_irreflexive(a.sname@);
    if lex_lt(a.sname@, b.sname@) && lex_lt(b.sname@, a.sname@) {
        lemma_lex_lt_transitive(a.sname@, b.sname@, a.sname@);
    }
}

pub proof fn lemma_file_le_transitive(a: File, b: File, c: File, key: SortKey)
    requires
        file_le(a, b, key),
        file_le(b, c, key),
    ensures
        file_le(a, c, key),
{
    match key {
        SortKey::Name => {
            lemma_text_le_transitive(a.sname@, b.sname@, c.sname@);
        },
        SortKey::Kind => {
            lemma_lex_lt_irreflexive(a.ext@);
            lemma_lex_lt_irreflexive(b.ext@);
            if a.dir == b.dir && b.dir == c.dir {
                if a.ext@ != b.ext@ && b.ext@ != c.ext@ {
                    lemma_lex_lt_transitive(a.ext@, b.ext@, c.ext@);
                    lemma_lex_lt_irreflexive(c.ext@);
                } else if a.ext@ == b.ext@ && b.ext@ == c.ext@ {
                    lemma_text_le_transitive(a.sname@, b.sname@, c.sname@);
                }
            }
        },
        _ => {},
    }
}

/// `insert_pos` lands after every entry that may stand before `x` at the
/// end, and before every entry after it, which all come after `x`.
pub proof fn lemma_insert_pos(s: Seq<File>, x: File, key: SortKey)
    ensures
        insert_pos(s, x, key) <= s.len(),
        insert_pos(s, x, key) > 0 ==> file_le(s[insert_pos(s, x, key) - 1], x, key),
        forall|k: int| insert_pos(s, x, key) <= k < s.len() ==> !file_le(#[trigger] s[k], x, key),
    decreases s.len(),
{
    if s.len() > 0 && !file_le(s.last(), x, key) {
        let t = s.drop_last();
        lemma_insert_pos(t, x, key);
        assert forall|k: int| insert_pos(s, x, key) <= k < s.len() implies !file_le(#[trigger] s[k], x, key) by {
            if k < t.len() {
                assert(s[k] == t[k]);
            }
        }
    }
}

/// Inserting at `insert_pos` keeps a sequence in order.
proof fn lemma_insert_in_order(s: Seq<File>, x: File, key: SortKey)
    requires
        in_order(s, key),
    ensures
        in_order(s.insert(insert_pos(s, x, key) as int, x), key),
{
    let p = insert_pos(s, x, key) as int;
    let t = s.insert(p, x);
    lemma_insert_pos(s, x, key);
    assert forall|i: int, j: int| 0 <= i < j < t.len() implies file_le(#[trigger] t[i], #[trigger] t[j], key) by {
        if j < p {
            assert(t[i] == s[i] && t[j] == s[j]);
        } else if j == p {
            assert(t[j] == x);
            assert(t[i] == s[i]);
            if i < p - 1 {
                assert(file_le(s[i], s[p - 1], key));
                lemma_file_le_transitive(s[i], s[p - 1], x, key);
            }
        } else if i < p {
            assert(t[i] == s[i] && t[j] == s[j - 1]);
        } else if i == p {
            assert(t[i] == x && t[j] == s[j - 1]);
            lemma_file_le_total(s[j - 1], x, key);
        } else {
            assert(t[i] == s[i - 1] && t[j] == s[j - 1]);
        }
    }
}

/// The sort puts the entries in order.
pub proof fn lemma_sorted_in_order(s: Seq<File>, key: SortKey)
    ensures
        in_order(sorted_by(s, key), key),
    decreases s.len(),
{
    if s.len() > 0 {
        lemma_sorted_in_order(s.drop_last(), key);
        lemma_insert_in_order(sorted_by(s.drop_last(), key), s.last(), key);
    }
}

/// The sort keeps every entry, as many times as it was there.
pub proof fn lemma_sorted_permutation(s: Seq<File>, key: SortKey)
    ensures
        sorted_by(s, key).to_multiset() == s.to_multiset(),
        sorted_by(s, key).len() == s.len(),
    decreases s.len(),
{
    broadcast use vstd::seq_lib::to_multiset_build, vstd::seq_lib::to_multiset_insert;
    if s.len() > 0 {
        lemma_sorted_permutation(s.drop_last(), key);
        let t = sorted_by(s.drop_last(), key);
        lemma_insert_pos(t, s.last(), key);
        assert(s =~= s.drop_last().push(s.last()));
    }
}

/// Entries already in order stay where they are: the sort is stable.
pub proof fn lemma_sorted_keeps_order(s: Seq<File>, key: SortKey)
    requires
        in_order(s, key),
    ensures
        sorted_by(s, key) == s,
    decreases s.len(),
{
    if s.len() > 0 {
        let p = s.drop_last();
        assert(in_order(p, key)) by {
            assert forall|i: int, j: int| 0 <= i < j < p.len() implies file_le(#[trigger] p[i], #[trigger] p[j], key) by {
                assert(p[i] == s[i] && p[j] == s[j]);
            }
        }
        lemma_sorted_keeps_order(p, key);
        if p.len() > 0 {
            assert(file_le(s[p.len() - 1], s[s.len() - 1], key));
            assert(p.last() == s[p.len() - 1]);
        }
        assert(insert_pos(p, s.last(), key) == p.len());
        assert(p.insert(p.len() as int, s.last()) =~= s);
    }
}

/// Sorting twice gives what sorting once gives.
pub proof fn lemma_sorted_idempotent(s: Seq<File>, key: SortKey)
    ensures
        sorted_by(sorted_by(s, key), key) == sorted_by(s, key),
{
    lemma_sorted_in_order(s, key);
    lemma_sorted_keeps_order(sorted_by(s, key), key);
}

/// Each entry of the sorted sequence is an entry of the input.
pub proof fn lemma_sorted_member(s: Seq<File>, key: SortKey, i: int)
    requires
        0 <= i < sorted_by(s, key).len(),
    ensures
        exists|j: int| 0 <= j < s.len() && s[j] == sorted_by(s, key)[i],
{
    let t = sorted_by(s, key);
    lemma_sorted_permutation(s, key);
    vstd::seq_lib::to_multiset_contains(t, t[i]);
    vstd::seq_lib::to_multiset_contains(s, t[i]);
    assert(t.contains(t[i]));
}

/// Sorts `files` stably by `key`.
pub fn sort_files(files: Vec<File>, key: SortKey) -> (r: Vec<File>)
    ensures
        r@ == sorted_by(files@, key),
{
    let ghost input = files@;
    let mut rest = files;
    let mut out: Vec<File> = Vec::new();
    let n = rest.len();
    let mut i: usize = 0;
    while i < n
        invariant
            n == input.len(),
            i <= n,
            rest@ == input.skip(i as int),
            out@ == sorted_by(input.take(i as int), key),
        decreases n - i,
    {
        let x = rest.remove(0);
        proof {
            assert(x == input[i as int]);
            assert(rest@ =~= input.skip(i + 1));
        }
        let mut j = out.len();
        proof {
            assert(out@.take(j as int) =~= out@);
        }
        while j > 0 && !file_le_exec(&out[j - 1], &x, key)
            invariant
                j <= out@.len(),
                insert_pos(out@, x, key) == insert_pos(out@.take(j as int), x, key),
            decreases j,
        {
            proof {
                assert(out@.take(j - 1) =~= out@.take(j as int).drop_last());
            }
            j = j - 1;
        }
        proof {
            assert(j == insert_pos(out@.take(j as int), x, key)) by {
                if j > 0 {
                    assert(out@.take(j as int).last() == out@[j - 1]);
                }
            }
            assert(input.take(i + 1).drop_last() =~= input.take(i as int));
            assert(input.take(i + 1).last() == x);
        }
        out.insert(j, x);
        i = i + 1;
    }
    proof {
        assert(input.take(n as int) =~= input);
    }
    out
}

} // verus!
