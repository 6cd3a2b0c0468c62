//! Properties of the library as a whole, proved over the models its
//! functions are specified by.

use vstd::prelude::*;
use crate::fault_tree::{Row, minimize, minimal_upto, subsumed, canonical, normal, cut_sets, mocus, pass,
    has_gate_upto, first_gate, is_gate, expand_row};
use crate::safety::{Severity, Likelihood, risk_matrix};
use crate::extension::{strictly_sorted, ids_after_register};
use crate::rows::{row_lt, rows_sorted, sorted_rows, lemma_row_irreflexive, lemma_row_transitive,
    lemma_row_total};
use crate::sorted::sorted_seq;
use crate::text::{lex_lt, lemma_lex_irreflexive, lemma_lex_transitive, lemma_lex_total, starts_with};
use crate::plugin_store::{EntryView, without, installed, entry_position, lemma_entry_position};
use crate::libraries::{CatalogEntry, ResolvedView, SpliceView, declared_in, splice_steps, splice_plan_of,
    splice_fuel, referenced_ids, ResolutionView, resolve_library, resolve_dependencies, resolve_imports,
    resolved_names, insert_by_name, insertion_point, load_outcome, catalog_names, libraries_resolved,
    LibraryDependency};
use crate::model::FaultTree;
use crate::expansion::{Origin, Placed, place, placed_ids, gate_layout, event_layout, own_gates, own_events};

verus! {

/// How severe a severity is: `Catastrophic` highest.
pub open spec fn severity_rank(s: Severity) -> int {
    match s {
        Severity::Catastrophic => 4,
        Severity::Critical => 3,
        Severity::Marginal => 2,
        Severity::Negligible => 1,
    }
}

/// How likely a likelihood is: `Frequent` highest.
pub open spec fn likelihood_rank(l: Likelihood) -> int {
    match l {
        Likelihood::Frequent => 5,
        Likelihood::Probable => 4,
        Likelihood::Occasional => 3,
        Likelihood::Remote => 2,
        Likelihood::Improbable => 1,
    }
}

/// The risk matrix is monotone: a hazard at least as severe and at least
/// as likely as another never has a lower risk class (a risk index that is
/// numerically greater; 1 is the highest risk).
pub proof fn law_risk_matrix_monotone(s1: Severity, l1: Likelihood, s2: Severity, l2: Likelihood)
    requires
        severity_rank(s1) >= severity_rank(s2),
        likelihood_rank(l1) >= likelihood_rank(l2),
    ensures
        risk_matrix(s1, l1) <= risk_matrix(s2, l2),
{
}

/// A fault-tree id an override key can be split back at: it holds no
/// `::` and does not end in `:`.
pub open spec fn splittable_id(ft: Seq<char>) -> bool {
    &&& forall|i: int| 0 <= i < ft.len() - 1 ==> !(#[trigger] ft[i] == ':' && ft[i + 1] == ':')
    &&& (ft.len() == 0 || ft.last() != ':')
}

/// Basic-event override keys are unambiguous across fault trees: two
/// `<fault tree>::<basic event>` keys are equal only for the same fault
/// tree and basic event, where fault-tree ids hold no `::` and do not end
/// in `:` (the key splits at its first `::`).
pub proof fn law_override_key_unambiguous(
    ft1: Seq<char>,
    be1: Seq<char>,
    ft2: Seq<char>,
    be2: Seq<char>,
)
    requires
        splittable_id(ft1),
        splittable_id(ft2),
        ft1 + "::"@ + be1 == ft2 + "::"@ + be2,
    ensures
        ft1 == ft2,
        be1 == be2,
{
    reveal_strlit("::");
    let k1 = ft1 + "::"@ + be1;
    let k2 = ft2 + "::"@ + be2;
    let n1 = ft1.len() as int;
    let n2 = ft2.len() as int;
    if n1 < n2 {
        assert(k1[n1] == ':' && k1[n1 + 1] == ':');
        assert(k2[n1] == ft2[n1]);
        if n1 + 1 < n2 {
            assert(k2[n1 + 1] == ft2[n1 + 1]);
            assert(ft2[n1] == ':' && ft2[n1 + 1] == ':');
        } else {
            assert(ft2.last() == ft2[n1]);
        }
    } else if n2 < n1 {
        assert(k2[n2] == ':' && k2[n2 + 1] == ':');
        assert(k1[n2] == ft1[n2]);
        if n2 + 1 < n1 {
            assert(k1[n2 + 1] == ft1[n2 + 1]);
            assert(ft1[n2] == ':' && ft1[n2 + 1] == ':');
        } else {
            assert(ft1.last() == ft1[n2]);
        }
    }
    assert(ft1 =~= k1.subrange(0, n1));
    assert(ft2 =~= k2.subrange(0, n2));
    assert(be1 =~= k1.subrange(n1 + 2, k1.len() as int));
    assert(be2 =~= k2.subrange(n2 + 2, k2.len() as int));
}

/// The indices of `all`, among the first `n`, that `minimal_upto` keeps.
pub open spec fn kept_indices(all: Seq<Row>, n: int) -> Seq<int>
    decreases n,
{
    if n <= 0 {
        Seq::empty()
    } else {
        kept_indices(all, n - 1) + if subsumed(all, n - 1) {
            Seq::<int>::empty()
        } else {
            seq![n - 1]
        }
    }
}

pub proof fn lemma_kept_indices(all: Seq<Row>, n: int)
    requires
        0 <= n <= all.len(),
    ensures
        kept_indices(all, n).len() == minimal_upto(all, n).len(),
        forall|p: int|
            0 <= p < kept_indices(all, n).len() ==> {
                &&& 0 <= #[trigger] kept_indices(all, n)[p] < n
                &&& minimal_upto(all, n)[p] == all[kept_indices(all, n)[p]]
                &&& !subsumed(all, kept_indices(all, n)[p])
            },
        forall|p: int, q: int|
            0 <= p < q < kept_indices(all, n).len() ==> kept_indices(all, n)[p]
                < kept_indices(all, n)[q],
        forall|i: int| 0 <= i < n && !subsumed(all, i) ==> kept_indices(all, n).contains(i),
    decreases n,
{
    if n > 0 {
        lemma_kept_indices(all, n - 1);
        let ks = kept_indices(all, n - 1);
        let out = minimal_upto(all, n - 1);
        if !subsumed(all, n - 1) {
            assert(kept_indices(all, n)[ks.len() as int] == n - 1);
            assert forall|i: int| 0 <= i < n && !subsumed(all, i) implies kept_indices(
                all,
                n,
            ).contains(i) by {
                if i < n - 1 {
                    let p = choose|p: int| 0 <= p < ks.len() && ks[p] == i;
                    assert(kept_indices(all, n)[p] == i);
                }
            }
        } else {
            assert(kept_indices(all, n) =~= ks);
            assert(minimal_upto(all, n) =~= out);
        }
    }
}

/// No minimal cut set contains another: of the rows that minimisation
/// keeps, none is a subset of a different one.
pub proof fn law_minimal_cut_sets_are_minimal(rows: Seq<Row>)
    ensures
        forall|p: int, q: int|
            0 <= p < minimize(rows).len() && 0 <= q < minimize(rows).len() && p != q
                ==> !(#[trigger] minimize(rows)[p]).to_set().subset_of(
                #[trigger] minimize(rows)[q].to_set(),
            ),
{
    let all = canonical(rows);
    let n = all.len() as int;
    lemma_kept_indices(all, n);
    let ks = kept_indices(all, n);
    let out = minimize(rows);
    assert forall|p: int, q: int|
        0 <= p < out.len() && 0 <= q < out.len() && p != q implies !(#[trigger] out[p]).to_set().subset_of(
        #[trigger] out[q].to_set(),
    ) by {
        let i = ks[p];
        let j = ks[q];
        if p < q {
            assert(i < j);
        } else {
            assert(j < i);
        }
        assert(!subsumed(all, j));
        assert(out[q] == all[j]);
        assert(out[p] == all[i]);
        if all[i].to_set().subset_of(all[j].to_set()) {
            assert(subsumed(all, j));
        }
    }
}

} // verus!

verus! {

/// `lt` is a strict total order.
pub open spec fn strict_total<A>(lt: spec_fn(A, A) -> bool) -> bool {
    &&& forall|a: A| !(#[trigger] lt(a, a))
    &&& forall|a: A, b: A, c: A| #[trigger] lt(a, b) && #[trigger] lt(b, c) ==> lt(a, c)
    &&& forall|a: A, b: A| a != b ==> #[trigger] lt(a, b) || lt(b, a)
}

/// `q` is strictly increasing under `lt`.
pub open spec fn sorted_by<A>(q: Seq<A>, lt: spec_fn(A, A) -> bool) -> bool {
    forall|i: int, j: int| 0 <= i < j < q.len() ==> lt(#[trigger] q[i], #[trigger] q[j])
}

/// How many leading elements of `q` are below `x`.
pub open spec fn count_below<A>(q: Seq<A>, x: A, lt: spec_fn(A, A) -> bool) -> int
    decreases q.len(),
{
    if q.len() == 0 {
        0
    } else if lt(q[0], x) {
        1 + count_below(q.drop_first(), x, lt)
    } else {
        0
    }
}

proof fn lemma_count_below<A>(q: Seq<A>, x: A, lt: spec_fn(A, A) -> bool)
    ensures
        0 <= count_below(q, x, lt) <= q.len(),
        forall|i: int| 0 <= i < count_below(q, x, lt) ==> lt(#[trigger] q[i], x),
        count_below(q, x, lt) < q.len() ==> !lt(q[count_below(q, x, lt)], x),
    decreases q.len(),
{
    if q.len() > 0 && lt(q[0], x) {
        lemma_count_below(q.drop_first(), x, lt);
        assert forall|i: int| 0 <= i < count_below(q, x, lt) implies lt(#[trigger] q[i], x) by {
            if i > 0 {
                assert(q[i] == q.drop_first()[i - 1]);
            }
        }
    }
}

/// Every finite set has a strictly increasing enumeration under a strict
/// total order.
pub proof fn lemma_sorted_exists<A>(s: Set<A>, lt: spec_fn(A, A) -> bool)
    requires
        s.finite(),
        strict_total(lt),
    ensures
        exists|q: Seq<A>| sorted_by(q, lt) && q.to_set() == s,
    decreases s.len(),
{
    if s.len() == 0 {
        let q = Seq::<A>::empty();
        assert(s =~= Set::<A>::empty());
        assert(q.to_set() =~= s);
        assert(sorted_by(q, lt));
    } else {
        let x = s.choose();
        assert(s.contains(x));
        let s1 = s.remove(x);
        lemma_sorted_exists(s1, lt);
        let q1 = choose|q: Seq<A>| sorted_by(q, lt) && q.to_set() == s1;
        lemma_count_below(q1, x, lt);
        let k = count_below(q1, x, lt);
        let q = q1.take(k) + seq![x] + q1.skip(k);
        assert forall|i: int| k <= i < q1.len() implies lt(x, #[trigger] q1[i]) by {
            assert(q1.to_set().contains(q1[i]));
            assert(q1[i] != x);
            if lt(q1[i], x) {
                if i > k {
                    assert(lt(q1[k], q1[i]));
                }
            }
        }
        assert(q.len() == q1.len() + 1);
        assert forall|i: int| 0 <= i < q.len() implies #[trigger] q[i] == if i < k {
            q1[i]
        } else if i == k {
            x
        } else {
            q1[i - 1]
        } by {}
        assert forall|i: int, j: int| 0 <= i < j < q.len() implies lt(#[trigger] q[i], #[trigger] q[j]) by {
            if j < k {
                assert(lt(q1[i], q1[j]));
            } else if j == k {
                assert(lt(q1[i], x));
            } else if i < k {
                assert(lt(q1[i], x));
                assert(lt(x, q1[j - 1]));
            } else if i == k {
                assert(lt(x, q1[j - 1]));
            } else {
                assert(lt(q1[i - 1], q1[j - 1]));
            }
        }
        assert forall|y: A| q.to_set().contains(y) <==> s.contains(y) by {
            if q.to_set().contains(y) {
                let i = choose|i: int| 0 <= i < q.len() && q[i] == y;
                if i < k {
                    assert(q1.to_set().contains(q1[i]));
                } else if i > k {
                    assert(q1.to_set().contains(q1[i - 1]));
                }
            }
            if s.contains(y) {
                if y == x {
                    assert(q[k] == y);
                } else {
                    assert(s1.contains(y));
                    assert(q1.to_set().contains(y));
                    let i = choose|i: int| 0 <= i < q1.len() && q1[i] == y;
                    if i < k {
                        assert(q[i] == y);
                    } else {
                        assert(q[i + 1] == y);
                    }
                }
            }
        }
        assert(q.to_set() =~= s);
        assert(sorted_by(q, lt) && q.to_set() == s);
    }
}

} // verus!

verus! {

proof fn lemma_lex_order()
    ensures
        strict_total(|a: Seq<char>, b: Seq<char>| lex_lt(a, b)),
{
    let lt = |a: Seq<char>, b: Seq<char>| lex_lt(a, b);
    assert forall|a: Seq<char>| !(#[trigger] lt(a, a)) by {
        lemma_lex_irreflexive(a);
    }
    assert forall|a: Seq<char>, b: Seq<char>, c: Seq<char>|
        #[trigger] lt(a, b) && #[trigger] lt(b, c) implies lt(a, c) by {
        lemma_lex_transitive(a, b, c);
    }
    assert forall|a: Seq<char>, b: Seq<char>| a != b implies #[trigger] lt(a, b) || lt(b, a) by {
        lemma_lex_total(a, b);
    }
}

proof fn lemma_row_order()
    ensures
        strict_total(|a: Row, b: Row| row_lt(a, b)),
{
    let lt = |a: Row, b: Row| row_lt(a, b);
    assert forall|a: Row| !(#[trigger] lt(a, a)) by {
        lemma_row_irreflexive(a);
    }
    assert forall|a: Row, b: Row, c: Row| #[trigger] lt(a, b) && #[trigger] lt(b, c) implies lt(a, c) by {
        lemma_row_transitive(a, b, c);
    }
    assert forall|a: Row, b: Row| a != b implies #[trigger] lt(a, b) || lt(b, a) by {
        lemma_row_total(a, b);
    }
}

/// A finite set of identifiers, enumerated in order, has exactly its elements.
pub proof fn lemma_sorted_seq(s: Set<Seq<char>>)
    requires
        s.finite(),
    ensures
        strictly_sorted(sorted_seq(s)),
        sorted_seq(s).to_set() == s,
{
    let lt = |a: Seq<char>, b: Seq<char>| lex_lt(a, b);
    lemma_lex_order();
    lemma_sorted_exists(s, lt);
    let q = choose|q: Seq<Seq<char>>| sorted_by(q, lt) && q.to_set() == s;
    assert(strictly_sorted(q));
}

/// A finite set of rows, enumerated in order, has exactly its elements.
pub proof fn lemma_sorted_rows(s: Set<Row>)
    requires
        s.finite(),
    ensures
        rows_sorted(sorted_rows(s)),
        sorted_rows(s).to_set() == s,
{
    let lt = |a: Row, b: Row| row_lt(a, b);
    lemma_row_order();
    lemma_sorted_exists(s, lt);
    let q = choose|q: Seq<Row>| sorted_by(q, lt) && q.to_set() == s;
    assert(rows_sorted(q));
}

/// A row's normal form holds the same identifiers.
pub proof fn lemma_normal(r: Row)
    ensures
        strictly_sorted(normal(r)),
        normal(r).to_set() == r.to_set(),
{
    lemma_sorted_seq(r.to_set());
}

/// The normal rows of `rows`.
pub open spec fn normals(rows: Seq<Row>) -> Set<Row> {
    rows.map_values(|r: Row| normal(r)).to_set()
}

proof fn lemma_canonical(rows: Seq<Row>)
    ensures
        rows_sorted(canonical(rows)),
        canonical(rows).to_set() == normals(rows),
{
    lemma_sorted_rows(normals(rows));
}

/// Row `i` of the canonical rows contains some row that minimisation keeps.
proof fn lemma_covered(rows: Seq<Row>, i: int)
    requires
        0 <= i < canonical(rows).len(),
    ensures
        exists|p: int|
            0 <= p < minimize(rows).len() && (#[trigger] minimize(rows)[p]).to_set().subset_of(
                canonical(rows)[i].to_set(),
            ),
    decreases canonical(rows)[i].to_set().len(),
{
    let all = canonical(rows);
    let n = all.len() as int;
    lemma_canonical(rows);
    lemma_kept_indices(all, n);
    let ks = kept_indices(all, n);
    if !subsumed(all, i) {
        let p = choose|p: int| 0 <= p < ks.len() && ks[p] == i;
        assert(minimize(rows)[p] == all[i]);
        assert(minimize(rows)[p].to_set().subset_of(all[i].to_set()));
    } else {
        let j = choose|j: int| 0 <= j < all.len() && j != i && all[j].to_set().subset_of(#[trigger] all[i].to_set());
        assert(all.to_set().contains(all[i]));
        assert(all.to_set().contains(all[j]));
        let nm = rows.map_values(|r: Row| normal(r));
        let ti = choose|t: int| 0 <= t < nm.len() && nm[t] == all[i];
        let tj = choose|t: int| 0 <= t < nm.len() && nm[t] == all[j];
        assert(nm[ti] == normal(rows[ti]));
        assert(nm[tj] == normal(rows[tj]));
        lemma_normal(rows[ti]);
        lemma_normal(rows[tj]);
        if all[j].to_set() == all[i].to_set() {
            crate::sorted::lemma_sorted_unique(all[i], all[j]);
            if i < j {
                assert(row_lt(all[i], all[j]));
            } else {
                assert(row_lt(all[j], all[i]));
            }
            lemma_row_irreflexive(all[i]);
        }
        assert(exists|x: Seq<char>| all[i].to_set().contains(x) && !all[j].to_set().contains(x)) by {
            if !(exists|x: Seq<char>| all[i].to_set().contains(x) && !all[j].to_set().contains(x)) {
                assert(all[j].to_set() =~= all[i].to_set());
            }
        }
        let x = choose|x: Seq<char>| all[i].to_set().contains(x) && !all[j].to_set().contains(x);
        vstd::seq_lib::seq_to_set_is_finite(all[i]);
        all[j].to_set().lemma_subset_not_in_lt(all[i].to_set(), x);
        lemma_covered(rows, j);
        let p = choose|p: int|
            0 <= p < minimize(rows).len() && (#[trigger] minimize(rows)[p]).to_set().subset_of(
                all[j].to_set(),
            );
        assert(minimize(rows)[p].to_set().subset_of(all[i].to_set()));
    }
}

/// Minimisation loses no cut set and invents none: every input row
/// contains some minimal cut set, and every minimal cut set is an input
/// row, as a set.
pub proof fn law_minimal_cut_sets_cover(rows: Seq<Row>)
    ensures
        forall|t: int|
            0 <= t < rows.len() ==> exists|p: int|
                0 <= p < minimize(rows).len() && (#[trigger] minimize(rows)[p]).to_set().subset_of(
                    (#[trigger] rows[t]).to_set(),
                ),
        forall|p: int|
            0 <= p < minimize(rows).len() ==> exists|t: int|
                0 <= t < rows.len() && (#[trigger] minimize(rows)[p]).to_set() == (
                #[trigger] rows[t]).to_set(),
{
    let all = canonical(rows);
    lemma_canonical(rows);
    lemma_kept_indices(all, all.len() as int);
    let ks = kept_indices(all, all.len() as int);
    assert forall|t: int| 0 <= t < rows.len() implies exists|p: int|
        0 <= p < minimize(rows).len() && (#[trigger] minimize(rows)[p]).to_set().subset_of(
            (#[trigger] rows[t]).to_set(),
        ) by {
        assert(rows.map_values(|r: Row| normal(r))[t] == normal(rows[t]));
        assert(normals(rows).contains(normal(rows[t])));
        assert(all.to_set().contains(normal(rows[t])));
        let i = choose|i: int| 0 <= i < all.len() && all[i] == normal(rows[t]);
        lemma_covered(rows, i);
        lemma_normal(rows[t]);
        let p = choose|p: int|
            0 <= p < minimize(rows).len() && (#[trigger] minimize(rows)[p]).to_set().subset_of(
                all[i].to_set(),
            );
        assert(minimize(rows)[p].to_set().subset_of(rows[t].to_set()));
    }
    assert forall|p: int| 0 <= p < minimize(rows).len() implies exists|t: int|
        0 <= t < rows.len() && (#[trigger] minimize(rows)[p]).to_set() == (#[trigger] rows[t]).to_set() by {
        let i = ks[p];
        assert(minimize(rows)[p] == all[i]);
        assert(all.to_set().contains(all[i]));
        let nm = rows.map_values(|r: Row| normal(r));
        let t = choose|t: int| 0 <= t < nm.len() && nm[t] == all[i];
        assert(nm[t] == normal(rows[t]));
        lemma_normal(rows[t]);
        assert(minimize(rows)[p].to_set() == rows[t].to_set());
    }
}

} // verus!

verus! {

proof fn lemma_kept_names_nonempty(parts: Seq<Seq<char>>)
    ensures
        forall|i: int|
            0 <= i < crate::targets::kept_names(parts).len() ==> (
            #[trigger] crate::targets::kept_names(parts)[i]).len() > 0,
    decreases parts.len(),
{
    if parts.len() > 0 {
        lemma_kept_names_nonempty(parts.drop_last());
        let rest = crate::targets::kept_names(parts.drop_last());
        let t = crate::text::trim(parts.last());
        if t.len() > 0 {
            assert forall|i: int| 0 <= i < rest.push(t).len() implies (#[trigger] rest.push(t)[i]).len()
                > 0 by {
                if i < rest.len() {
                    assert(rest.push(t)[i] == rest[i]);
                }
            }
        }
    }
}

/// A `--target` value never yields an empty target name, whatever commas
/// and blanks it holds.
pub proof fn law_target_names_nonempty(target: Seq<char>)
    ensures
        forall|i: int|
            0 <= i < crate::targets::kept_names(crate::text::split(target, ',')).len() ==> (
            #[trigger] crate::targets::kept_names(crate::text::split(target, ','))[i]).len() > 0,
{
    lemma_kept_names_nonempty(crate::text::split(target, ','));
}

/// No entry of `without(es, id)` is for `id`.
pub proof fn lemma_without_excludes(es: Seq<EntryView>, id: Seq<char>)
    ensures
        forall|j: int| 0 <= j < without(es, id).len() ==> (#[trigger] without(es, id)[j]).id != id,
    decreases es.len(),
{
    if es.len() > 0 {
        let rest = without(es.drop_last(), id);
        lemma_without_excludes(es.drop_last(), id);
        assert forall|j: int| 0 <= j < without(es, id).len() implies (#[trigger] without(es, id)[j]).id
            != id by {
            if j < rest.len() {
                assert(without(es, id)[j] == rest[j]);
            }
        }
    }
}

/// Dropping the entries for `id` from a list that has none changes nothing.
pub proof fn lemma_without_unchanged(es: Seq<EntryView>, id: Seq<char>)
    requires
        forall|j: int| 0 <= j < es.len() ==> (#[trigger] es[j]).id != id,
    ensures
        without(es, id) == es,
    decreases es.len(),
{
    if es.len() > 0 {
        lemma_without_unchanged(es.drop_last(), id);
        assert(es.drop_last().push(es.last()) =~= es);
    }
}

/// Removing a plugin right after installing it finds the new entry (the
/// only one for its id, last in the list) and leaves every other installed
/// plugin, in order.
pub proof fn law_remove_undoes_install(es: Seq<EntryView>, e: EntryView)
    ensures
        entry_position(installed(es, e), e.id) == installed(es, e).len() - 1,
        installed(es, e)[installed(es, e).len() - 1] == e,
        installed(es, e).remove(installed(es, e).len() - 1) == without(es, e.id),
{
    let after = installed(es, e);
    let w = without(es, e.id);
    lemma_without_excludes(es, e.id);
    lemma_entry_position(after, e.id);
    let k = entry_position(after, e.id);
    assert(after[after.len() - 1] == e);
    if k < after.len() - 1 {
        assert(after[k] == w[k]);
    }
    if k > after.len() - 1 {
        assert(after[after.len() - 1].id != e.id);
    }
    assert(after.remove(after.len() - 1) =~= w);
}

/// Installing the same plugin entry twice is the same as installing it once.
pub proof fn law_install_idempotent(es: Seq<EntryView>, e: EntryView)
    ensures
        installed(installed(es, e), e) == installed(es, e),
{
    let w = without(es, e.id);
    lemma_without_excludes(es, e.id);
    lemma_without_unchanged(w, e.id);
    assert(installed(es, e).drop_last() =~= w);
}

/// `id` is qualified by a resolved library: its name, then a dot, start it.
pub open spec fn qualified_by(rs: Seq<ResolvedView>, id: Seq<char>) -> bool {
    exists|li: int| 0 <= li < rs.len() && starts_with(id, rs[li].name + "."@)
}

/// What the worklist adds to `plan` is never declared by the tree itself,
/// is qualified by a resolved library, and every id in the result was seen,
/// once.
pub proof fn lemma_splice_steps(
    ft: FaultTree,
    cat: Seq<CatalogEntry>,
    rs: Seq<ResolvedView>,
    work: Seq<Seq<char>>,
    seen: Seq<Seq<char>>,
    plan: Seq<SpliceView>,
    fuel: nat,
)
    requires
        forall|k: int| 0 <= k < plan.len() ==> !declared_in(ft, (#[trigger] plan[k]).id),
        forall|k: int| 0 <= k < plan.len() ==> seen.contains((#[trigger] plan[k]).id),
        plan.map_values(|p: SpliceView| p.id).no_duplicates(),
        forall|k: int| 0 <= k < plan.len() ==> qualified_by(rs, (#[trigger] plan[k]).id),
    ensures
        ({
            let r = splice_steps(ft, cat, rs, work, seen, plan, fuel);
            &&& forall|k: int| 0 <= k < r.len() ==> !declared_in(ft, (#[trigger] r[k]).id)
            &&& r.map_values(|p: SpliceView| p.id).no_duplicates()
            &&& forall|k: int| 0 <= k < r.len() ==> qualified_by(rs, (#[trigger] r[k]).id)
        }),
    decreases fuel,
{
    if fuel == 0 || work.len() == 0 {
    } else {
        let q = work.last();
        let w = work.drop_last();
        let f = (fuel - 1) as nat;
        if seen.contains(q) {
            lemma_splice_steps(ft, cat, rs, w, seen, plan, f);
        } else {
            let seen2 = seen.push(q);
            assert forall|k: int| 0 <= k < plan.len() implies seen2.contains((#[trigger] plan[k]).id) by {
                let j = choose|j: int| 0 <= j < seen.len() && seen[j] == plan[k].id;
                assert(seen2[j] == plan[k].id);
            }
            if declared_in(ft, q) {
                lemma_splice_steps(ft, cat, rs, w, seen2, plan, f);
            } else {
                let li = crate::libraries::library_of(rs, q);
                if li >= rs.len() {
                    lemma_splice_steps(ft, cat, rs, w, seen2, plan, f);
                } else {
                    let lib = rs[li];
                    let short = q.subrange(lib.name.len() as int + 1, q.len() as int);
                    let d = crate::libraries::definition(cat, lib.entry);
                    let gi = crate::model::index_of(crate::model::gate_entry_ids(d.gates@), short);
                    let bi = crate::model::index_of(crate::libraries::library_be_ids(d), short);
                    if gi < d.gates@.len() || bi < d.basic_events@.len() {
                        let item = if gi < d.gates@.len() {
                            crate::libraries::SpliceItem::Gate(gi as usize)
                        } else {
                            crate::libraries::SpliceItem::BasicEvent(bi as usize)
                        };
                        let p2 = plan.push(SpliceView { id: q, entry: lib.entry, item });
                        let ids = plan.map_values(|p: SpliceView| p.id);
                        assert(p2.map_values(|p: SpliceView| p.id) =~= ids.push(q));
                        assert(!ids.contains(q)) by {
                            if ids.contains(q) {
                                let k = choose|k: int| 0 <= k < ids.len() && ids[k] == q;
                                assert(seen.contains(plan[k].id));
                            }
                        }
                        assert forall|k: int| 0 <= k < p2.len() implies seen2.contains((#[trigger] p2[k]).id) by {
                            if k == plan.len() {
                                assert(seen2[seen.len() as int] == q);
                            }
                        }
                        assert forall|k: int| 0 <= k < p2.len() implies !declared_in(ft, (#[trigger] p2[k]).id) by {
                            if k < plan.len() {
                                assert(p2[k] == plan[k]);
                            }
                        }
                        crate::libraries::lemma_library_of(rs, q);
                        assert forall|k: int| 0 <= k < p2.len() implies qualified_by(rs, (#[trigger] p2[k]).id) by {
                            if k < plan.len() {
                                assert(p2[k] == plan[k]);
                            } else {
                                assert(starts_with(q, rs[li].name + "."@));
                            }
                        }
                        if gi < d.gates@.len() {
                            let w2 = w + crate::libraries::string_seq(d.gates@[gi].gate.inputs@);
                            lemma_splice_steps(ft, cat, rs, w2, seen2, p2, f);
                        } else {
                            lemma_splice_steps(ft, cat, rs, w, seen2, p2, f);
                        }
                    } else {
                        lemma_splice_steps(ft, cat, rs, w, seen2, plan, f);
                    }
                }
            }
        }
    }
}

/// A tree that declares a qualified id itself keeps its own definition:
/// no library gate or basic event is taken in under an id the tree
/// declares. No id is taken in twice, even from a library gate that refers
/// to itself, and each id taken in is qualified by a resolved library.
pub proof fn law_splice_plan_respects_local_and_is_once(
    ft: FaultTree,
    cat: Seq<CatalogEntry>,
    rs: Seq<ResolvedView>,
)
    ensures
        forall|k: int|
            0 <= k < splice_plan_of(ft, cat, rs).len() ==> !declared_in(
                ft,
                (#[trigger] splice_plan_of(ft, cat, rs)[k]).id,
            ),
        splice_plan_of(ft, cat, rs).map_values(|p: SpliceView| p.id).no_duplicates(),
        forall|k: int|
            0 <= k < splice_plan_of(ft, cat, rs).len() ==> qualified_by(
                rs,
                (#[trigger] splice_plan_of(ft, cat, rs)[k]).id,
            ),
{
    assert(Seq::<SpliceView>::empty().map_values(|p: SpliceView| p.id) =~= Seq::<Seq<char>>::empty());
    lemma_splice_steps(ft, cat, rs, referenced_ids(ft), Seq::empty(), Seq::empty(), splice_fuel());
}

/// Resolution only adds: every name resolved before stays resolved, and
/// the errors found before stay, in order, at the front.
pub open spec fn grows(before: ResolutionView, after: ResolutionView) -> bool {
    &&& forall|x: Seq<char>| resolved_names(before.resolved).contains(x) ==> resolved_names(after.resolved).contains(x)
    &&& before.errors.len() <= after.errors.len()
    &&& after.errors.take(before.errors.len() as int) == before.errors
}

proof fn lemma_grows_transitive(a: ResolutionView, b: ResolutionView, c: ResolutionView)
    requires
        grows(a, b),
        grows(b, c),
    ensures
        grows(a, c),
{
    assert(c.errors.take(a.errors.len() as int) =~= b.errors.take(a.errors.len() as int));
}

proof fn lemma_insertion_point_in_range(names: Seq<Seq<char>>, x: Seq<char>)
    ensures
        0 <= insertion_point(names, x) <= names.len(),
    decreases names.len(),
{
    if names.len() > 0 {
        lemma_insertion_point_in_range(names.drop_first(), x);
    }
}

/// Inserting a library keeps every name and adds its own.
proof fn lemma_insert_by_name(rs: Seq<ResolvedView>, r: ResolvedView)
    ensures
        resolved_names(insert_by_name(rs, r)).contains(r.name),
        forall|x: Seq<char>| resolved_names(rs).contains(x) ==> resolved_names(insert_by_name(rs, r)).contains(x),
{
    let k = insertion_point(resolved_names(rs), r.name);
    lemma_insertion_point_in_range(resolved_names(rs), r.name);
    let after = insert_by_name(rs, r);
    assert(resolved_names(after)[k] == r.name);
    assert forall|x: Seq<char>| resolved_names(rs).contains(x) implies resolved_names(after).contains(x) by {
        let j = choose|j: int| 0 <= j < rs.len() && resolved_names(rs)[j] == x;
        if j < k {
            assert(resolved_names(after)[j] == x);
        } else {
            assert(resolved_names(after)[j + 1] == x);
        }
    }
}

pub proof fn lemma_library_grows(
    cat: Seq<CatalogEntry>,
    name: Seq<char>,
    ver: Seq<char>,
    stack: Seq<Seq<char>>,
    st: ResolutionView,
)
    ensures
        grows(st, resolve_library(cat, name, ver, stack, st)),
    decreases cat.len() - stack.len(), 0int,
{
    let r = resolve_library(cat, name, ver, stack, st);
    if stack.contains(name) || resolved_names(st.resolved).contains(name) {
        assert(r.errors.take(st.errors.len() as int) =~= st.errors);
    } else {
        match load_outcome(cat, name) {
            Err(e) => {
                assert(r.errors.take(st.errors.len() as int) =~= st.errors);
            },
            Ok(i) => {
                if stack.len() >= cat.len() {
                    assert(r.errors.take(st.errors.len() as int) =~= st.errors);
                } else {
                    let d = crate::libraries::definition(cat, i);
                    let st1 = if crate::stdlib::compatible(ver, d.version@) {
                        st
                    } else {
                        crate::libraries::with_error(st, crate::libraries::version_error(name, ver, d.version@))
                    };
                    let nr = crate::libraries::ResolvedView {
                        name,
                        version: d.version@,
                        kind: crate::libraries::entry_kind(cat, i),
                        entry: i,
                    };
                    let st2 = ResolutionView { resolved: insert_by_name(st1.resolved, nr), errors: st1.errors };
                    assert(st1.errors.take(st.errors.len() as int) =~= st.errors);
                    lemma_insert_by_name(st1.resolved, nr);
                    assert(grows(st, st2)) by {
                        assert(st2.errors.take(st.errors.len() as int) =~= st.errors);
                    }
                    lemma_dependencies_grow(cat, d.depends_on@, 0, stack.push(name), st2);
                    lemma_grows_transitive(st, st2, r);
                }
            },
        }
    }
}

pub proof fn lemma_dependencies_grow(
    cat: Seq<CatalogEntry>,
    deps: Seq<LibraryDependency>,
    k: int,
    stack: Seq<Seq<char>>,
    st: ResolutionView,
)
    ensures
        grows(st, resolve_dependencies(cat, deps, k, stack, st)),
    decreases cat.len() - stack.len(), deps.len() - k + 1,
{
    if k < 0 || k >= deps.len() {
        assert(st.errors.take(st.errors.len() as int) =~= st.errors);
    } else {
        let st1 = resolve_library(cat, deps[k].name@, deps[k].version@, stack, st);
        lemma_library_grows(cat, deps[k].name@, deps[k].version@, stack, st);
        lemma_dependencies_grow(cat, deps, k + 1, stack, st1);
        lemma_grows_transitive(st, st1, resolve_dependencies(cat, deps, k + 1, stack, st1));
    }
}

/// `name` is resolved, or the error loading it gave is among the errors.
pub open spec fn accounted(cat: Seq<CatalogEntry>, st: ResolutionView, name: Seq<char>) -> bool {
    ||| resolved_names(st.resolved).contains(name)
    ||| (load_outcome(cat, name) is Err && st.errors.contains(load_outcome(cat, name)->Err_0))
}

proof fn lemma_accounted_stays(cat: Seq<CatalogEntry>, a: ResolutionView, b: ResolutionView, name: Seq<char>)
    requires
        accounted(cat, a, name),
        grows(a, b),
    ensures
        accounted(cat, b, name),
{
    if !resolved_names(a.resolved).contains(name) {
        let e = load_outcome(cat, name)->Err_0;
        let j = choose|j: int| 0 <= j < a.errors.len() && a.errors[j] == e;
        assert(b.errors.take(a.errors.len() as int)[j] == e);
        assert(b.errors[j] == e);
    }
}

proof fn lemma_imports_grow(
    cat: Seq<CatalogEntry>,
    imports: Seq<crate::model::LibraryImport>,
    k: int,
    st: ResolutionView,
)
    ensures
        grows(st, resolve_imports(cat, imports, k, st)),
    decreases imports.len() - k,
{
    if k < 0 || k >= imports.len() {
        assert(st.errors.take(st.errors.len() as int) =~= st.errors);
    } else {
        let st1 = resolve_library(cat, imports[k].name@, imports[k].version@, Seq::empty(), st);
        lemma_library_grows(cat, imports[k].name@, imports[k].version@, Seq::empty(), st);
        lemma_imports_grow(cat, imports, k + 1, st1);
        lemma_grows_transitive(st, st1, resolve_imports(cat, imports, k + 1, st1));
    }
}

proof fn lemma_import_accounted(
    cat: Seq<CatalogEntry>,
    name: Seq<char>,
    ver: Seq<char>,
    st: ResolutionView,
)
    ensures
        accounted(cat, resolve_library(cat, name, ver, Seq::empty(), st), name),
{
    let r = resolve_library(cat, name, ver, Seq::empty(), st);
    let stack = Seq::<Seq<char>>::empty();
    if resolved_names(st.resolved).contains(name) {
    } else {
        match load_outcome(cat, name) {
            Err(e) => {
                assert(r.errors[r.errors.len() - 1] == e);
            },
            Ok(i) => {
                crate::model::lemma_index_of(catalog_names(cat), name);
                let d = crate::libraries::definition(cat, i);
                let st1 = if crate::stdlib::compatible(ver, d.version@) {
                    st
                } else {
                    crate::libraries::with_error(st, crate::libraries::version_error(name, ver, d.version@))
                };
                let nr = crate::libraries::ResolvedView {
                    name,
                    version: d.version@,
                    kind: crate::libraries::entry_kind(cat, i),
                    entry: i,
                };
                let st2 = ResolutionView { resolved: insert_by_name(st1.resolved, nr), errors: st1.errors };
                lemma_insert_by_name(st1.resolved, nr);
                lemma_dependencies_grow(cat, d.depends_on@, 0, stack.push(name), st2);
            },
        }
    }
}

/// Every library a document imports is accounted for: it is resolved, or
/// the error loading it gave is reported. A declared library is never
/// silently left out.
pub proof fn law_every_import_accounted(doc: crate::model::Document, cat: Seq<CatalogEntry>)
    ensures
        forall|k: int|
            0 <= k < doc.libraries@.len() ==> accounted(
                cat,
                libraries_resolved(doc, cat),
                (#[trigger] doc.libraries@[k]).name@,
            ),
{
    let imports = doc.libraries@;
    let st0 = ResolutionView { resolved: Seq::empty(), errors: Seq::empty() };
    assert forall|k: int| 0 <= k < imports.len() implies accounted(
        cat,
        libraries_resolved(doc, cat),
        (#[trigger] imports[k]).name@,
    ) by {
        lemma_imports_accounted(cat, imports, 0, st0, k);
    }
}

proof fn lemma_imports_accounted(
    cat: Seq<CatalogEntry>,
    imports: Seq<crate::model::LibraryImport>,
    i: int,
    st: ResolutionView,
    k: int,
)
    requires
        0 <= i <= k < imports.len(),
    ensures
        accounted(cat, resolve_imports(cat, imports, i, st), imports[k].name@),
    decreases imports.len() - i,
{
    let st1 = resolve_library(cat, imports[i].name@, imports[i].version@, Seq::empty(), st);
    if i == k {
        lemma_import_accounted(cat, imports[k].name@, imports[k].version@, st);
        lemma_imports_grow(cat, imports, i + 1, st1);
        lemma_accounted_stays(cat, st1, resolve_imports(cat, imports, i + 1, st1), imports[k].name@);
    } else {
        lemma_imports_accounted(cat, imports, i + 1, st1, k);
    }
}

/// Registering the same id twice leaves the registered ids as after once,
/// and after registering, the id is registered.
pub proof fn law_register_idempotent(ids: Seq<Seq<char>>, x: Seq<char>)
    ensures
        ids_after_register(ids, x).contains(x),
        ids_after_register(ids_after_register(ids, x), x) == ids_after_register(ids, x),
{
    if !ids.contains(x) {
        let k = crate::libraries::insertion_point(ids, x);
        lemma_insertion_point_in_range(ids, x);
        assert(ids.insert(k, x)[k] == x);
    }
}

/// Some entry of `l` is the tree's own entry at position `i`.
pub open spec fn kept_own(l: Seq<Placed>, i: int) -> bool {
    exists|k: int| 0 <= k < l.len() && l[k].origin == Origin::Own(i)
}

/// What `gate_layout` holds: every entry the tree declares itself, with
/// its own definition, and library entries only under ids of the plan.
pub proof fn lemma_gate_layout(ft: FaultTree, cat: Seq<CatalogEntry>, plan: Seq<SpliceView>)
    ensures
        forall|i: int|
            0 <= i < own_gates(ft).len() ==> #[trigger] kept_own(gate_layout(ft, cat, plan), i),
        forall|k: int|
            0 <= k < gate_layout(ft, cat, plan).len() && (#[trigger] gate_layout(ft, cat, plan)[k]).origin is Library
                ==> exists|j: int| 0 <= j < plan.len() && plan[j].id == gate_layout(ft, cat, plan)[k].id,
    decreases plan.len(),
{
    let l = gate_layout(ft, cat, plan);
    if plan.len() == 0 {
        assert forall|i: int| 0 <= i < own_gates(ft).len() implies #[trigger] kept_own(l, i) by {
            assert(l[i].origin == Origin::Own(i));
        }
    } else {
        let rest_plan = plan.drop_last();
        let rest = gate_layout(ft, cat, rest_plan);
        lemma_gate_layout(ft, cat, rest_plan);
        if l != rest {
            let s = plan.last();
            let pos = crate::libraries::insertion_point(placed_ids(rest), s.id);
            lemma_insertion_point_in_range(placed_ids(rest), s.id);
            assert(placed_ids(rest).len() == rest.len());
            let p = l[pos];
            assert forall|i: int| 0 <= i < own_gates(ft).len() implies #[trigger] kept_own(l, i) by {
                assert(kept_own(rest, i));
                let k0 = choose|k: int| 0 <= k < rest.len() && rest[k].origin == Origin::Own(i);
                if k0 < pos {
                    assert(l[k0] == rest[k0]);
                } else {
                    assert(l[k0 + 1] == rest[k0]);
                }
            }
            assert forall|k: int|
                0 <= k < l.len() && (#[trigger] l[k]).origin is Library implies exists|j: int|
                0 <= j < plan.len() && plan[j].id == l[k].id by {
                if k < pos {
                    assert(l[k] == rest[k]);
                    let j = choose|j: int| 0 <= j < rest_plan.len() && rest_plan[j].id == rest[k].id;
                    assert(plan[j] == rest_plan[j]);
                } else if k > pos {
                    assert(l[k] == rest[k - 1]);
                    assert(rest[k - 1].origin is Library);
                    let j = choose|j: int| 0 <= j < rest_plan.len() && rest_plan[j].id == rest[k - 1].id;
                    assert(plan[j] == rest_plan[j]);
                } else {
                    assert(plan[plan.len() - 1] == s);
                }
            }
        } else {
            assert forall|k: int|
                0 <= k < l.len() && (#[trigger] l[k]).origin is Library implies exists|j: int|
                0 <= j < plan.len() && plan[j].id == l[k].id by {
                let j = choose|j: int| 0 <= j < rest_plan.len() && rest_plan[j].id == rest[k].id;
                assert(plan[j] == rest_plan[j]);
            }
        }
    }
}

/// What `event_layout` holds: every entry the tree declares itself, with
/// its own definition, and library entries only under ids of the plan.
pub proof fn lemma_event_layout(ft: FaultTree, cat: Seq<CatalogEntry>, plan: Seq<SpliceView>)
    ensures
        forall|i: int|
            0 <= i < own_events(ft).len() ==> #[trigger] kept_own(event_layout(ft, cat, plan), i),
        forall|k: int|
            0 <= k < event_layout(ft, cat, plan).len() && (#[trigger] event_layout(ft, cat, plan)[k]).origin is Library
                ==> exists|j: int| 0 <= j < plan.len() && plan[j].id == event_layout(ft, cat, plan)[k].id,
    decreases plan.len(),
{
    let l = event_layout(ft, cat, plan);
    if plan.len() == 0 {
        assert forall|i: int| 0 <= i < own_events(ft).len() implies #[trigger] kept_own(l, i) by {
            assert(l[i].origin == Origin::Own(i));
        }
    } else {
        let rest_plan = plan.drop_last();
        let rest = event_layout(ft, cat, rest_plan);
        lemma_event_layout(ft, cat, rest_plan);
        if l != rest {
            let s = plan.last();
            let pos = crate::libraries::insertion_point(placed_ids(rest), s.id);
            lemma_insertion_point_in_range(placed_ids(rest), s.id);
            assert(placed_ids(rest).len() == rest.len());
            let p = l[pos];
            assert forall|i: int| 0 <= i < own_events(ft).len() implies #[trigger] kept_own(l, i) by {
                assert(kept_own(rest, i));
                let k0 = choose|k: int| 0 <= k < rest.len() && rest[k].origin == Origin::Own(i);
                if k0 < pos {
                    assert(l[k0] == rest[k0]);
                } else {
                    assert(l[k0 + 1] == rest[k0]);
                }
            }
            assert forall|k: int|
                0 <= k < l.len() && (#[trigger] l[k]).origin is Library implies exists|j: int|
                0 <= j < plan.len() && plan[j].id == l[k].id by {
                if k < pos {
                    assert(l[k] == rest[k]);
                    let j = choose|j: int| 0 <= j < rest_plan.len() && rest_plan[j].id == rest[k].id;
                    assert(plan[j] == rest_plan[j]);
                } else if k > pos {
                    assert(l[k] == rest[k - 1]);
                    assert(rest[k - 1].origin is Library);
                    let j = choose|j: int| 0 <= j < rest_plan.len() && rest_plan[j].id == rest[k - 1].id;
                    assert(plan[j] == rest_plan[j]);
                } else {
                    assert(plan[plan.len() - 1] == s);
                }
            }
        } else {
            assert forall|k: int|
                0 <= k < l.len() && (#[trigger] l[k]).origin is Library implies exists|j: int|
                0 <= j < plan.len() && plan[j].id == l[k].id by {
                let j = choose|j: int| 0 <= j < rest_plan.len() && rest_plan[j].id == rest[k].id;
                assert(plan[j] == rest_plan[j]);
            }
        }
    }
}

/// Library expansion keeps what a fault tree declares: each of its own
/// gates and basic events stays, with its own definition, and no library
/// gate or basic event comes in under an id the tree declares.
pub proof fn law_expansion_keeps_local_declarations(
    ft: FaultTree,
    cat: Seq<CatalogEntry>,
    rs: Seq<ResolvedView>,
)
    ensures
        ({
            let plan = splice_plan_of(ft, cat, rs);
            let gl = gate_layout(ft, cat, plan);
            let el = event_layout(ft, cat, plan);
            &&& forall|i: int| 0 <= i < own_gates(ft).len() ==> #[trigger] kept_own(gl, i)
            &&& forall|i: int| 0 <= i < own_events(ft).len() ==> #[trigger] kept_own(el, i)
            &&& forall|k: int|
                0 <= k < gl.len() && (#[trigger] gl[k]).origin is Library ==> !declared_in(ft, gl[k].id)
            &&& forall|k: int|
                0 <= k < el.len() && (#[trigger] el[k]).origin is Library ==> !declared_in(ft, el[k].id)
            &&& forall|k: int|
                0 <= k < gl.len() && (#[trigger] gl[k]).origin is Library ==> qualified_by(rs, gl[k].id)
            &&& forall|k: int|
                0 <= k < el.len() && (#[trigger] el[k]).origin is Library ==> qualified_by(rs, el[k].id)
        }),
{
    let plan = splice_plan_of(ft, cat, rs);
    law_splice_plan_respects_local_and_is_once(ft, cat, rs);
    lemma_gate_layout(ft, cat, plan);
    lemma_event_layout(ft, cat, plan);
    let gl = gate_layout(ft, cat, plan);
    let el = event_layout(ft, cat, plan);
    assert forall|k: int| 0 <= k < gl.len() && (#[trigger] gl[k]).origin is Library implies !declared_in(
        ft,
        gl[k].id,
    ) by {
        let j = choose|j: int| 0 <= j < plan.len() && plan[j].id == gl[k].id;
        assert(!declared_in(ft, plan[j].id));
        assert(qualified_by(rs, plan[j].id));
    }
    assert forall|k: int| 0 <= k < el.len() && (#[trigger] el[k]).origin is Library implies !declared_in(
        ft,
        el[k].id,
    ) by {
        let j = choose|j: int| 0 <= j < plan.len() && plan[j].id == el[k].id;
        assert(!declared_in(ft, plan[j].id));
        assert(qualified_by(rs, plan[j].id));
    }
}

/// No item of any row of `rows` is a gate of `gs`.
pub open spec fn gate_free(gs: Seq<crate::model::GateEntry>, rows: Seq<Row>) -> bool {
    forall|i: int, j: int| 0 <= i < rows.len() && 0 <= j < rows[i].len() ==> !is_gate(gs, #[trigger] rows[i][j])
}

proof fn lemma_no_first_gate(gs: Seq<crate::model::GateEntry>, row: Row)
    requires
        first_gate(gs, row) >= row.len(),
    ensures
        forall|j: int| 0 <= j < row.len() ==> !is_gate(gs, #[trigger] row[j]),
    decreases row.len(),
{
    if row.len() > 0 {
        lemma_no_first_gate(gs, row.drop_first());
        assert forall|j: int| 0 <= j < row.len() implies !is_gate(gs, #[trigger] row[j]) by {
            if j > 0 {
                assert(row[j] == row.drop_first()[j - 1]);
            }
        }
    }
}

proof fn lemma_pass_gate_free(gs: Seq<crate::model::GateEntry>, rows: Seq<Row>, n: int)
    requires
        0 <= n <= rows.len(),
        !has_gate_upto(gs, rows, n),
        pass(gs, rows, n) is Some,
    ensures
        gate_free(gs, pass(gs, rows, n)->Some_0),
    decreases n,
{
    if n > 0 {
        lemma_pass_gate_free(gs, rows, n - 1);
        let acc = pass(gs, rows, n - 1)->Some_0;
        let row = rows[n - 1];
        lemma_no_first_gate(gs, row);
        assert(expand_row(gs, row) == seq![row]);
        let r = pass(gs, rows, n)->Some_0;
        assert(r == acc + seq![row]);
        assert forall|i: int, j: int| 0 <= i < r.len() && 0 <= j < r[i].len() implies !is_gate(
            gs,
            #[trigger] r[i][j],
        ) by {
            if i < acc.len() {
                assert(r[i] == acc[i]);
            } else {
                assert(r[i] == row);
            }
        }
    }
}

proof fn lemma_minimize_gate_free(gs: Seq<crate::model::GateEntry>, rows: Seq<Row>)
    requires
        gate_free(gs, rows),
    ensures
        gate_free(gs, minimize(rows)),
{
    let all = canonical(rows);
    let ns = rows.map_values(|r: Row| normal(r));
    vstd::seq_lib::seq_to_set_is_finite(ns);
    lemma_sorted_rows(ns.to_set());
    lemma_kept_indices(all, all.len() as int);
    let m = minimize(rows);
    assert forall|i: int, j: int| 0 <= i < m.len() && 0 <= j < m[i].len() implies !is_gate(
        gs,
        #[trigger] m[i][j],
    ) by {
        let a = kept_indices(all, all.len() as int)[i];
        assert(m[i] == all[a]);
        assert(all.to_set().contains(all[a]));
        assert(ns.to_set().contains(all[a]));
        let k = choose|k: int| 0 <= k < ns.len() && ns[k] == all[a];
        lemma_normal(rows[k]);
        assert(normal(rows[k]).to_set().contains(m[i][j]));
        assert(rows[k].to_set().contains(m[i][j]));
        let l = choose|l: int| 0 <= l < rows[k].len() && rows[k][l] == m[i][j];
        assert(!is_gate(gs, rows[k][l]));
    }
}

proof fn lemma_mocus_gate_free(gs: Seq<crate::model::GateEntry>, rows: Seq<Row>, fuel: nat)
    ensures
        mocus(gs, rows, fuel) is Ok ==> gate_free(gs, mocus(gs, rows, fuel)->Ok_0),
    decreases fuel,
{
    match pass(gs, rows, rows.len() as int) {
        None => {},
        Some(nr) => {
            if !has_gate_upto(gs, rows, rows.len() as int) {
                lemma_pass_gate_free(gs, rows, rows.len() as int);
                lemma_minimize_gate_free(gs, nr);
            } else if fuel > 0 {
                lemma_mocus_gate_free(gs, minimize(nr), (fuel - 1) as nat);
            }
        },
    }
}

/// Minimal cut sets hold basic events only: when enumeration succeeds, no
/// row holds the id of a gate of the tree.
pub proof fn law_cut_sets_hold_no_gates(ft: FaultTree)
    ensures
        cut_sets(ft) is Ok ==> gate_free(crate::fault_rules::gates_of(ft), cut_sets(ft)->Ok_0),
{
    match ft.gates {
        None => {
            assert(crate::model::gate_entry_ids(crate::fault_rules::gates_of(ft)) =~= Seq::<Seq<char>>::empty());
        },
        Some(gs) => {
            lemma_mocus_gate_free(gs@, seq![seq![ft.top_event.root_cause@]], 0xffff_ffff_ffff_ffffnat);
        },
    }
}

} // verus!

