//! Rows of identifiers (cut-set candidates) and their order: each row is
//! compared element by element, as `Vec<String>` orders.

use vstd::prelude::*;
use crate::extension::{strictly_sorted, string_views};
use crate::sorted::{sorted_seq, insert_sorted, lemma_is_sorted_seq};
use crate::text::{lex_lt, lemma_lex_total, lemma_lex_transitive, lemma_lex_irreflexive,
    lemma_lex_asymmetric, less_than, same, owned};

verus! {

/// The value of a row.
pub open spec fn row_view(r: Vec<String>) -> Seq<Seq<char>> {
    string_views(r@)
}

/// The values of a list of rows.
pub open spec fn rows_view(rs: Seq<Vec<String>>) -> Seq<Seq<Seq<char>>> {
    rs.map_values(|r: Vec<String>| row_view(r))
}

/// Lexicographic order on rows, elements compared by [`lex_lt`].
pub open spec fn row_lt(a: Seq<Seq<char>>, b: Seq<Seq<char>>) -> bool
    decreases a.len(),
{
    if a.len() == 0 {
        b.len() > 0
    } else if b.len() == 0 {
        false
    } else if a[0] != b[0] {
        lex_lt(a[0], b[0])
    } else {
        row_lt(a.drop_first(), b.drop_first())
    }
}

pub proof fn lemma_row_irreflexive(a: Seq<Seq<char>>)
    ensures
        !row_lt(a, a),
    decreases a.len(),
{
    if a.len() > 0 {
        lemma_row_irreflexive(a.drop_first());
    }
}

pub proof fn lemma_row_transitive(a: Seq<Seq<char>>, b: Seq<Seq<char>>, c: Seq<Seq<char>>)
    requires
        row_lt(a, b),
        row_lt(b, c),
    ensures
        row_lt(a, c),
    decreases a.len(),
{
    if a.len() > 0 && b.len() > 0 && c.len() > 0 {
        if a[0] == b[0] && b[0] == c[0] {
            lemma_row_transitive(a.drop_first(), b.drop_first(), c.drop_first());
        } else if a[0] == b[0] {
        } else if b[0] == c[0] {
        } else {
            lemma_lex_transitive(a[0], b[0], c[0]);
            if a[0] == c[0] {
                lemma_lex_asymmetric(a[0], b[0]);
            }
        }
    }
}

pub proof fn lemma_row_total(a: Seq<Seq<char>>, b: Seq<Seq<char>>)
    requires
        a != b,
    ensures
        row_lt(a, b) || row_lt(b, a),
    decreases a.len(),
{
    if a.len() > 0 && b.len() > 0 && a[0] == b[0] {
        if a.drop_first() == b.drop_first() {
            assert(a =~= seq![a[0]] + a.drop_first());
            assert(b =~= seq![b[0]] + b.drop_first());
        }
        lemma_row_total(a.drop_first(), b.drop_first());
    } else if a.len() == 0 && b.len() == 0 {
        assert(a =~= b);
    } else if a.len() > 0 && b.len() > 0 {
        lemma_lex_total(a[0], b[0]);
    }
}

pub proof fn lemma_row_asymmetric(a: Seq<Seq<char>>, b: Seq<Seq<char>>)
    requires
        row_lt(a, b),
    ensures
        !row_lt(b, a),
{
    if row_lt(b, a) {
        lemma_row_transitive(a, b, a);
        lemma_row_irreflexive(a);
    }
}

/// Whether row `a` sorts strictly before row `b`.
pub fn row_less(a: &Vec<String>, b: &Vec<String>) -> (r: bool)
    ensures
        r == row_lt(row_view(*a), row_view(*b)),
{
    let ghost x = row_view(*a);
    let ghost y = row_view(*b);
    let mut i: usize = 0;
    proof {
        assert(x.subrange(0, x.len() as int) =~= x);
        assert(y.subrange(0, y.len() as int) =~= y);
    }
    while i < a.len() && i < b.len() && same(a[i].as_str(), b[i].as_str())
        invariant
            x == row_view(*a),
            y == row_view(*b),
            i <= a@.len(),
            i <= b@.len(),
            row_lt(x, y) == row_lt(
                x.subrange(i as int, x.len() as int),
                y.subrange(i as int, y.len() as int),
            ),
        decreases a.len() - i,
    {
        proof {
            let xs = x.subrange(i as int, x.len() as int);
            let ys = y.subrange(i as int, y.len() as int);
            assert(xs.drop_first() =~= x.subrange(i + 1, x.len() as int));
            assert(ys.drop_first() =~= y.subrange(i + 1, y.len() as int));
        }
        i = i + 1;
    }
    if i == a.len() {
        i < b.len()
    } else if i == b.len() {
        false
    } else {
        less_than(a[i].as_str(), b[i].as_str())
    }
}

/// Whether two rows hold the same identifiers in the same order.
pub fn row_same(a: &Vec<String>, b: &Vec<String>) -> (r: bool)
    ensures
        r == (row_view(*a) == row_view(*b)),
{
    if a.len() != b.len() {
        return false;
    }
    let mut i: usize = 0;
    while i < a.len()
        invariant
            a@.len() == b@.len(),
            i <= a@.len(),
            forall|j: int| 0 <= j < i ==> a@[j]@ == b@[j]@,
        decreases a.len() - i,
    {
        if !same(a[i].as_str(), b[i].as_str()) {
            assert(row_view(*a)[i as int] != row_view(*b)[i as int]);
            return false;
        }
        i = i + 1;
    }
    assert(row_view(*a) =~= row_view(*b));
    true
}

/// A fresh copy of a row.
pub fn copy_row(r: &Vec<String>) -> (c: Vec<String>)
    ensures
        row_view(c) == row_view(*r),
{
    let mut c: Vec<String> = Vec::new();
    let mut i: usize = 0;
    while i < r.len()
        invariant
            i <= r@.len(),
            row_view(c) == row_view(*r).take(i as int),
        decreases r.len() - i,
    {
        let ghost before = c@;
        let s = owned(r[i].as_str());
        c.push(s);
        assert(string_views(c@) =~= string_views(before).push(s@));
        assert(row_view(*r).take(i + 1) =~= row_view(*r).take(i as int).push(r@[i as int]@));
        i = i + 1;
    }
    assert(row_view(*r).take(r@.len() as int) =~= row_view(*r));
    c
}

/// Strictly increasing in row order (so also free of repeats).
pub open spec fn rows_sorted(q: Seq<Seq<Seq<char>>>) -> bool {
    forall|i: int, j: int| 0 <= i < j < q.len() ==> row_lt(q[i], q[j])
}

/// The elements of the finite set of rows `s` in increasing row order.
pub open spec fn sorted_rows(s: Set<Seq<Seq<char>>>) -> Seq<Seq<Seq<char>>> {
    choose|q: Seq<Seq<Seq<char>>>| rows_sorted(q) && q.to_set() == s
}

pub proof fn lemma_rows_sorted_unique(a: Seq<Seq<Seq<char>>>, b: Seq<Seq<Seq<char>>>)
    requires
        rows_sorted(a),
        rows_sorted(b),
        a.to_set() == b.to_set(),
    ensures
        a == b,
    decreases a.len(),
{
    if a.len() == 0 {
        if b.len() > 0 {
            assert(b.to_set().contains(b[0]));
        }
        assert(a =~= b);
    } else {
        if b.len() == 0 {
            assert(a.to_set().contains(a[0]));
        }
        assert(a.to_set().contains(a[0]));
        assert(b.to_set().contains(b[0]));
        let j = choose|j: int| 0 <= j < b.len() && b[j] == a[0];
        let i = choose|i: int| 0 <= i < a.len() && a[i] == b[0];
        if j > 0 {
            assert(row_lt(b[0], b[j]));
            if i > 0 {
                assert(row_lt(a[0], a[i]));
                lemma_row_asymmetric(a[0], a[i]);
            } else {
                lemma_row_irreflexive(a[0]);
            }
        }
        let ta = a.drop_first();
        let tb = b.drop_first();
        assert forall|x: Seq<Seq<char>>| ta.to_set().contains(x) <==> tb.to_set().contains(x) by {
            if ta.to_set().contains(x) {
                let k = choose|k: int| 0 <= k < ta.len() && ta[k] == x;
                assert(a[k + 1] == x);
                assert(a.to_set().contains(x));
                let m = choose|m: int| 0 <= m < b.len() && b[m] == x;
                if m == 0 {
                    assert(row_lt(a[0], a[k + 1]));
                    lemma_row_irreflexive(x);
                }
                assert(tb[m - 1] == x);
            }
            if tb.to_set().contains(x) {
                let k = choose|k: int| 0 <= k < tb.len() && tb[k] == x;
                assert(b[k + 1] == x);
                assert(b.to_set().contains(x));
                let m = choose|m: int| 0 <= m < a.len() && a[m] == x;
                if m == 0 {
                    assert(row_lt(b[0], b[k + 1]));
                    lemma_row_irreflexive(x);
                }
                assert(ta[m - 1] == x);
            }
        }
        assert(ta.to_set() =~= tb.to_set());
        lemma_rows_sorted_unique(ta, tb);
        assert(a =~= seq![a[0]] + ta);
        assert(b =~= seq![b[0]] + tb);
    }
}

pub proof fn lemma_is_sorted_rows(q: Seq<Seq<Seq<char>>>)
    requires
        rows_sorted(q),
    ensures
        sorted_rows(q.to_set()) == q,
{
    let s = q.to_set();
    assert(exists|r: Seq<Seq<Seq<char>>>| rows_sorted(r) && r.to_set() == s);
    let r = sorted_rows(s);
    lemma_rows_sorted_unique(r, q);
}

/// Insert row `x` into the strictly sorted `v`, keeping it strictly sorted;
/// a row already present is not repeated.
pub fn insert_row_sorted(v: &mut Vec<Vec<String>>, x: Vec<String>)
    requires
        rows_sorted(rows_view(old(v)@)),
    ensures
        rows_sorted(rows_view(final(v)@)),
        rows_view(final(v)@).to_set() == rows_view(old(v)@).to_set().insert(row_view(x)),
{
    let ghost old_ids = rows_view(v@);
    let ghost xv = row_view(x);
    let mut i: usize = 0;
    while i < v.len() && row_less(&v[i], &x)
        invariant
            old_ids == rows_view(v@),
            xv == row_view(x),
            i <= v.len(),
            forall|j: int| 0 <= j < i ==> row_lt(row_view(v@[j]), xv),
        decreases v.len() - i,
    {
        i = i + 1;
    }
    if i < v.len() && row_same(&v[i], &x) {
        assert(old_ids[i as int] == xv);
        assert(old_ids.to_set() =~= old_ids.to_set().insert(xv));
        return ;
    }
    v.insert(i, x);
    proof {
        let ni = rows_view(v@);
        let ins = old_ids.insert(i as int, xv);
        assert(ni =~= ins);
        if i < old_ids.len() {
            assert(old_ids[i as int] != xv);
            lemma_row_total(old_ids[i as int], xv);
        }
        assert forall|a: int, b: int| 0 <= a < b < ni.len() implies row_lt(ni[a], ni[b]) by {
            if b == i {
                assert(ni[a] == old_ids[a]);
            } else if a == i {
                if b > i + 1 {
                    assert(row_lt(old_ids[i as int], old_ids[b - 1]));
                    lemma_row_transitive(xv, old_ids[i as int], old_ids[b - 1]);
                }
            } else if a < i && b > i {
                assert(row_lt(old_ids[a], xv));
                assert(row_lt(xv, old_ids[i as int]));
                if b - 1 > i {
                    assert(row_lt(old_ids[i as int], old_ids[b - 1]));
                    lemma_row_transitive(xv, old_ids[i as int], old_ids[b - 1]);
                }
                lemma_row_transitive(old_ids[a], xv, old_ids[b - 1]);
            }
        }
        assert forall|y: Seq<Seq<char>>| ni.contains(y) <==> (old_ids.contains(y) || y == xv) by {
            if ni.contains(y) {
                let j = choose|j: int| 0 <= j < ni.len() && ni[j] == y;
                if j < i {
                    assert(old_ids[j] == y);
                } else if j > i {
                    assert(old_ids[j - 1] == y);
                }
            }
            if old_ids.contains(y) {
                let j = choose|j: int| 0 <= j < old_ids.len() && old_ids[j] == y;
                if j < i {
                    assert(ni[j] == y);
                } else {
                    assert(ni[j + 1] == y);
                }
            }
            if y == xv {
                assert(ni[i as int] == y);
            }
        }
        assert(ni.to_set() =~= old_ids.to_set().insert(xv));
    }
}

/// The identifiers of `r`, sorted, each once.
pub fn normalize_row(r: &Vec<String>) -> (n: Vec<String>)
    ensures
        row_view(n) == sorted_seq(row_view(*r).to_set()),
{
    let mut n: Vec<String> = Vec::new();
    let mut i: usize = 0;
    assert(string_views(n@).to_set() =~= row_view(*r).take(0).to_set());
    while i < r.len()
        invariant
            i <= r@.len(),
            strictly_sorted(string_views(n@)),
            string_views(n@).to_set() == row_view(*r).take(i as int).to_set(),
        decreases r.len() - i,
    {
        insert_sorted(&mut n, r[i].as_str());
        proof {
            let t = row_view(*r).take(i + 1);
            assert(t =~= row_view(*r).take(i as int).push(r@[i as int]@));
            crate::sorted::lemma_push_to_set(row_view(*r).take(i as int), r@[i as int]@);
        }
        i = i + 1;
    }
    proof {
        assert(row_view(*r).take(r@.len() as int) =~= row_view(*r));
        lemma_is_sorted_seq(string_views(n@));
    }
    n
}

} // verus!
