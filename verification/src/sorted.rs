//! Strictly sorted sequences of strings: the deterministic order in which
//! sets of identifiers are reported.

use vstd::prelude::*;
use crate::extension::{strictly_sorted, string_views};
use crate::text::{lex_lt, lemma_lex_total, lemma_lex_transitive, lemma_lex_irreflexive,
    lemma_lex_asymmetric, less_than, same, owned};

verus! {

/// The elements of the finite set `s` in increasing order.
pub open spec fn sorted_seq(s: Set<Seq<char>>) -> Seq<Seq<char>> {
    choose|q: Seq<Seq<char>>| strictly_sorted(q) && q.to_set() == s
}

/// A strictly sorted sequence is determined by its set of elements.
pub proof fn lemma_sorted_unique(a: Seq<Seq<char>>, b: Seq<Seq<char>>)
    requires
        strictly_sorted(a),
        strictly_sorted(b),
        a.to_set() == b.to_set(),
    ensures
        a == b,
    decreases a.len(),
{
    if a.len() == 0 {
        if b.len() > 0 {
            assert(b.to_set().contains(b[0]));
        }
        assert(a =~= b);
    } else {
        if b.len() == 0 {
            assert(a.to_set().contains(a[0]));
        }
        assert(a.to_set().contains(a[0]));
        assert(b.to_set().contains(b[0]));
        let j = choose|j: int| 0 <= j < b.len() && b[j] == a[0];
        let i = choose|i: int| 0 <= i < a.len() && a[i] == b[0];
        if j > 0 {
            assert(lex_lt(b[0], b[j]));
            if i > 0 {
                assert(lex_lt(a[0], a[i]));
                lemma_lex_asymmetric(a[0], a[i]);
            } else {
                lemma_lex_irreflexive(a[0]);
            }
        }
        assert(a[0] == b[0]);
        let ta = a.drop_first();
        let tb = b.drop_first();
        assert forall|x: Seq<char>| ta.to_set().contains(x) <==> tb.to_set().contains(x) by {
            if ta.to_set().contains(x) {
                let k = choose|k: int| 0 <= k < ta.len() && ta[k] == x;
                assert(a[k + 1] == x);
                assert(a.to_set().contains(x));
                assert(b.to_set().contains(x));
                let m = choose|m: int| 0 <= m < b.len() && b[m] == x;
                if m == 0 {
                    assert(lex_lt(a[0], a[k + 1]));
                    lemma_lex_irreflexive(x);
                }
                assert(tb[m - 1] == x);
            }
            if tb.to_set().contains(x) {
                let k = choose|k: int| 0 <= k < tb.len() && tb[k] == x;
                assert(b[k + 1] == x);
                assert(b.to_set().contains(x));
                assert(a.to_set().contains(x));
                let m = choose|m: int| 0 <= m < a.len() && a[m] == x;
                if m == 0 {
                    assert(lex_lt(b[0], b[k + 1]));
                    lemma_lex_irreflexive(x);
                }
                assert(ta[m - 1] == x);
            }
        }
        assert(ta.to_set() =~= tb.to_set());
        lemma_sorted_unique(ta, tb);
        assert(a =~= seq![a[0]] + ta);
        assert(b =~= seq![b[0]] + tb);
    }
}

/// A strictly sorted sequence is the sorted sequence of its elements.
pub proof fn lemma_is_sorted_seq(q: Seq<Seq<char>>)
    requires
        strictly_sorted(q),
    ensures
        sorted_seq(q.to_set()) == q,
{
    let s = q.to_set();
    assert(exists|r: Seq<Seq<char>>| strictly_sorted(r) && r.to_set() == s);
    let r = sorted_seq(s);
    lemma_sorted_unique(r, q);
}

/// Pushing `x` adds `x` to the set of elements.
pub proof fn lemma_push_to_set<A>(s: Seq<A>, x: A)
    ensures
        s.push(x).to_set() == s.to_set().insert(x),
{
    let t = s.push(x);
    assert forall|y: A| t.to_set().contains(y) <==> s.to_set().insert(x).contains(y) by {
        if t.to_set().contains(y) {
            let k = choose|k: int| 0 <= k < t.len() && t[k] == y;
            if k < s.len() {
                assert(s[k] == y);
            }
        }
        if s.to_set().contains(y) {
            let k = choose|k: int| 0 <= k < s.len() && s[k] == y;
            assert(t[k] == y);
        }
        if y == x {
            assert(t[s.len() as int] == y);
        }
    }
    assert(t.to_set() =~= s.to_set().insert(x));
}

/// Insert `x` into the strictly sorted `v`, keeping it strictly sorted; an
/// element already present is not repeated.
pub fn insert_sorted(v: &mut Vec<String>, x: &str)
    requires
        strictly_sorted(string_views(old(v)@)),
    ensures
        strictly_sorted(string_views(final(v)@)),
        string_views(final(v)@).to_set() == string_views(old(v)@).to_set().insert(x@),
{
    let ghost old_ids = string_views(v@);
    let mut i: usize = 0;
    while i < v.len() && less_than(v[i].as_str(), x)
        invariant
            old_ids == string_views(v@),
            i <= v.len(),
            forall|j: int| 0 <= j < i ==> lex_lt(v@[j]@, x@),
        decreases v.len() - i,
    {
        i = i + 1;
    }
    if i < v.len() && same(v[i].as_str(), x) {
        assert(old_ids[i as int] == x@);
        assert(old_ids.to_set() =~= old_ids.to_set().insert(x@));
        return ;
    }
    v.insert(i, owned(x));
    proof {
        let ni = string_views(v@);
        let ins = old_ids.insert(i as int, x@);
        assert(ni =~= ins);
        if i < old_ids.len() {
            assert(old_ids[i as int] != x@);
            lemma_lex_total(old_ids[i as int], x@);
        }
        assert forall|a: int, b: int| 0 <= a < b < ni.len() implies lex_lt(ni[a], ni[b]) by {
            if b == i {
                assert(ni[a] == old_ids[a]);
            } else if a == i {
                if b > i + 1 {
                    assert(lex_lt(old_ids[i as int], old_ids[b - 1]));
                    lemma_lex_transitive(x@, old_ids[i as int], old_ids[b - 1]);
                }
            } else if a < i && b > i {
                assert(lex_lt(old_ids[a], x@));
                assert(lex_lt(x@, old_ids[i as int]));
                if b - 1 > i {
                    assert(lex_lt(old_ids[i as int], old_ids[b - 1]));
                    lemma_lex_transitive(x@, old_ids[i as int], old_ids[b - 1]);
                }
                lemma_lex_transitive(old_ids[a], x@, old_ids[b - 1]);
            }
        }
        assert forall|y: Seq<char>| ni.contains(y) <==> (old_ids.contains(y) || y == x@) by {
            if ni.contains(y) {
                let j = choose|j: int| 0 <= j < ni.len() && ni[j] == y;
                if j < i {
                    assert(old_ids[j] == y);
                } else if j > i {
                    assert(old_ids[j - 1] == y);
                }
            }
            if old_ids.contains(y) {
                let j = choose|j: int| 0 <= j < old_ids.len() && old_ids[j] == y;
                if j < i {
                    assert(ni[j] == y);
                } else {
                    assert(ni[j + 1] == y);
                }
            }
            if y == x@ {
                assert(ni[i as int] == y);
            }
        }
        assert(ni.to_set() =~= old_ids.to_set().insert(x@));
    }
}

} // verus!
