//! What the validation rules and the cut-set expansion promise, stated
//! over their inputs and results.

use vstd::prelude::*;
use crate::diagnostic::DiagnosticView;
use crate::model::{Gate, GateType};
use crate::fault_rules::gate_rule_diags;
use crate::extension::string_views;
use crate::tree_event::TreeOutline;
use crate::security::{ThreatModel, tree_of, tm_ids, category_diags, threat_model_diags,
    threat_model_ok, stride};
use crate::diagnostic::{error_view, SpanKeyView};
use crate::model::{EventTree, Node, NodeEntry, node_entry_ids, index_of, lemma_index_of};
use crate::event_graph::{successors, spread, spread_successors, reach_marks, unreached_diags,
    reachability_diags};
use crate::model::GateEntry;
use crate::fault_tree::{Row, expand_row, first_gate, gate_named, combinations, binomial,
    lemma_combinations_count};
use crate::model::Document;
use crate::ecel::{Comparison, Comparator};
use crate::typeck::{MessageSchemas, EcelType, comparison_diags, operand_diags, operand_type,
    temporal_operand};

verus! {

/// The number of inputs each gate type admits: at least two for AND, OR,
/// VOTING and PRIORITY_AND; exactly one for NOT; exactly two for XOR and
/// INHIBIT.
pub open spec fn arity_admitted(t: GateType, n: nat) -> bool {
    match t {
        GateType::Not => n == 1,
        GateType::Xor | GateType::Inhibit => n == 2,
        _ => n >= 2,
    }
}

/// Whether diagnostic `i` of `d` is the only one with code `code`.
pub open spec fn only_one_with_code(d: Seq<DiagnosticView>, i: int, code: Seq<char>) -> bool {
    &&& 0 <= i < d.len()
    &&& d[i].code == code
    &&& forall|j: int| 0 <= j < d.len() && j != i ==> d[j].code != code
}

/// A gate whose number of inputs its type does not admit gets exactly one
/// V-501 (the first of its diagnostics); a gate whose number of inputs is
/// admitted gets none. In particular an AND or OR gate with fewer than two
/// inputs gets exactly one V-501 and nothing else.
pub proof fn law_gate_arity(ft: Seq<char>, id: Seq<char>, g: Gate)
    ensures
        !arity_admitted(g.gate_type, g.inputs@.len()) ==> only_one_with_code(
            gate_rule_diags(ft, id, g),
            0,
            "V-501"@,
        ),
        arity_admitted(g.gate_type, g.inputs@.len()) ==> forall|j: int|
            0 <= j < gate_rule_diags(ft, id, g).len() ==> gate_rule_diags(ft, id, g)[j].code
                != "V-501"@,
        (g.gate_type == GateType::And || g.gate_type == GateType::Or) && g.inputs@.len() < 2
            ==> gate_rule_diags(ft, id, g).len() == 1,
{
    reveal_strlit("V-501");
    reveal_strlit("V-502");
    reveal_strlit("V-505");
    assert("V-501"@[4] != "V-502"@[4]);
    assert("V-501"@[4] != "V-505"@[4]);
}

/// A VOTING gate gets one V-502 exactly when `k` is missing or lies
/// outside `1..=n` for its `n` inputs, and none otherwise.
pub proof fn law_voting_k_in_range(ft: Seq<char>, id: Seq<char>, g: Gate)
    requires
        g.gate_type == GateType::Voting,
    ensures
        ({
            let d = gate_rule_diags(ft, id, g);
            let n = g.inputs@.len();
            let bad = match g.k {
                Some(k) => k < 1 || k > n,
                None => true,
            };
            &&& bad ==> only_one_with_code(d, d.len() - 1, "V-502"@)
            &&& !bad ==> forall|j: int| 0 <= j < d.len() ==> d[j].code != "V-502"@
        }),
{
    reveal_strlit("V-501");
    reveal_strlit("V-502");
    assert("V-501"@[4] != "V-502"@[4]);
}

/// The six STRIDE categories, by name.
pub open spec fn stride_names() -> Set<Seq<char>> {
    set![
        "spoofing"@,
        "tampering"@,
        "repudiation"@,
        "information-disclosure"@,
        "denial-of-service"@,
        "elevation-of-privilege"@,
    ]
}

proof fn lemma_stride_names(c: Seq<char>)
    ensures
        stride(c) <==> stride_names().contains(c),
{
}

proof fn lemma_categories_clean(tm: ThreatModel, t: TreeOutline, n: int)
    requires
        n <= tm.leaf_categories@.len(),
        forall|k: int|
            0 <= k < tm.leaf_categories@.len() ==> stride_names().contains(
                #[trigger] tm.leaf_categories@[k].category@,
            ) && string_views(t.leaves@).contains(tm.leaf_categories@[k].leaf@),
    ensures
        category_diags(tm, t, n) == Seq::<DiagnosticView>::empty(),
    decreases n,
{
    if n > 0 {
        lemma_categories_clean(tm, t, n - 1);
        lemma_stride_names(tm.leaf_categories@[n - 1].category@);
        assert(category_diags(tm, t, n) =~= Seq::<DiagnosticView>::empty());
    }
}

/// The E-140 that a `leafCategories` value outside STRIDE gets.
pub open spec fn not_stride_error(tm: ThreatModel, leaf: Seq<char>, category: Seq<char>) -> DiagnosticView {
    error_view(
        "E-140"@,
        "x-security: threat model '"@ + tm.id@ + "': leafCategories['"@ + leaf
            + "'] value '"@ + category + "' is not a STRIDE category"@,
    )
}

proof fn lemma_category_rejected(tm: ThreatModel, t: TreeOutline, n: int, k: int)
    requires
        0 <= k < n <= tm.leaf_categories@.len(),
        !stride_names().contains(tm.leaf_categories@[k].category@),
    ensures
        category_diags(tm, t, n).contains(
            not_stride_error(tm, tm.leaf_categories@[k].leaf@, tm.leaf_categories@[k].category@),
        ),
    decreases n,
{
    lemma_stride_names(tm.leaf_categories@[k].category@);
    let e = not_stride_error(tm, tm.leaf_categories@[k].leaf@, tm.leaf_categories@[k].category@);
    let prev = category_diags(tm, t, n - 1);
    if k < n - 1 {
        lemma_category_rejected(tm, t, n - 1, k);
        let i = choose|i: int| 0 <= i < prev.len() && prev[i] == e;
        assert(category_diags(tm, t, n)[i] == e);
    } else {
        assert(category_diags(tm, t, n)[prev.len() as int] == e);
    }
}

/// A threat model with a fresh id, whose tree resolves and whose every
/// `leafCategories` entry names a leaf of that tree with one of the six
/// STRIDE categories, gets no diagnostic and is kept.
pub proof fn law_stride_categories_accepted(trees: Seq<TreeOutline>, tms: Seq<ThreatModel>, i: int)
    requires
        0 <= i < tms.len(),
        !tm_ids(tms).take(i).contains(tms[i].id@),
        tree_of(trees, tms[i]) < trees.len(),
        forall|k: int|
            0 <= k < tms[i].leaf_categories@.len() ==> stride_names().contains(
                #[trigger] tms[i].leaf_categories@[k].category@,
            ) && string_views(trees[tree_of(trees, tms[i])].leaves@).contains(
                tms[i].leaf_categories@[k].leaf@,
            ),
    ensures
        threat_model_diags(trees, tms, i) == Seq::<DiagnosticView>::empty(),
        threat_model_ok(trees, tms, i),
{
    let tm = tms[i];
    let t = trees[tree_of(trees, tm)];
    assert forall|k: int| 0 <= k < tm.leaf_categories@.len() implies stride_names().contains(
        #[trigger] tm.leaf_categories@[k].category@,
    ) && string_views(t.leaves@).contains(tm.leaf_categories@[k].leaf@) by {
        assert(tms[i].leaf_categories@[k].category@ == tm.leaf_categories@[k].category@);
    }
    lemma_categories_clean(tm, t, tm.leaf_categories@.len() as int);
    assert(threat_model_diags(trees, tms, i) =~= Seq::<DiagnosticView>::empty());
    assert forall|k: int| 0 <= k < tm.leaf_categories@.len() implies #[trigger] crate::security::category_ok(
        tm,
        t,
        k,
    ) by {
        lemma_stride_names(tm.leaf_categories@[k].category@);
    }
}

/// A threat model whose tree resolves and one of whose `leafCategories`
/// values is none of the six STRIDE categories gets the E-140 that names
/// it, and is dropped.
pub proof fn law_non_stride_category_rejected(
    trees: Seq<TreeOutline>,
    tms: Seq<ThreatModel>,
    i: int,
    k: int,
)
    requires
        0 <= i < tms.len(),
        tree_of(trees, tms[i]) < trees.len(),
        0 <= k < tms[i].leaf_categories@.len(),
        !stride_names().contains(tms[i].leaf_categories@[k].category@),
    ensures
        threat_model_diags(trees, tms, i).contains(
            not_stride_error(
                tms[i],
                tms[i].leaf_categories@[k].leaf@,
                tms[i].leaf_categories@[k].category@,
            ),
        ),
        !threat_model_ok(trees, tms, i),
{
    let tm = tms[i];
    let t = trees[tree_of(trees, tm)];
    let n = tm.leaf_categories@.len() as int;
    lemma_category_rejected(tm, t, n, k);
    lemma_stride_names(tm.leaf_categories@[k].category@);
    let e = not_stride_error(tm, tm.leaf_categories@[k].leaf@, tm.leaf_categories@[k].category@);
    let cd = category_diags(tm, t, n);
    let j = choose|j: int| 0 <= j < cd.len() && cd[j] == e;
    let head = if tm_ids(tms).take(i).contains(tm.id@) {
        crate::safety::err("E-140"@, "x-security: duplicate threat model id '"@ + tm.id@ + "'"@)
    } else {
        Seq::<DiagnosticView>::empty()
    };
    assert(threat_model_diags(trees, tms, i) == head + cd);
    assert(threat_model_diags(trees, tms, i)[head.len() + j] == e);
    assert(!crate::security::category_ok(tm, t, k));
}

/// The comparators that order their operands.
pub open spec fn is_ordering(op: Comparator) -> bool {
    op == Comparator::Lt || op == Comparator::Lte || op == Comparator::Gt || op == Comparator::Gte
}

/// Whether an operand of type `t` breaks an ordering comparison: its type
/// is known and is not a number.
pub open spec fn unordered_type(t: EcelType) -> bool {
    !(t is Number) && !(t is Unknown)
}

/// An ordering comparison (`<`, `<=`, `>`, `>=`) whose operands are not
/// both temporal strings gets, after its operands' own diagnostics, one
/// V-204 for each operand whose type is known and is not a number, and
/// nothing else.
pub proof fn law_ordering_needs_numbers(
    doc: Document,
    s: MessageSchemas,
    c: Comparison,
    top: bool,
    tree: Seq<char>,
    node: Seq<char>,
    bi: nat,
)
    requires
        is_ordering(c.op),
        !(operand_type(s, tree, c.left) is String && operand_type(s, tree, c.right) is String
            && temporal_operand(s, tree, c.left) && temporal_operand(s, tree, c.right)),
    ensures
        ({
            let base = operand_diags(doc, s, c.left, top, tree, node, bi) + operand_diags(
                doc,
                s,
                c.right,
                top,
                tree,
                node,
                bi,
            );
            let d = comparison_diags(doc, s, c, top, tree, node, bi);
            &&& d.len() == base.len() + (if unordered_type(operand_type(s, tree, c.left)) {
                1int
            } else {
                0int
            }) + (if unordered_type(operand_type(s, tree, c.right)) {
                1int
            } else {
                0int
            })
            &&& d.take(base.len() as int) == base
            &&& forall|j: int| base.len() <= j < d.len() ==> (#[trigger] d[j]).code == "V-204"@
        }),
{
    let base = operand_diags(doc, s, c.left, top, tree, node, bi) + operand_diags(
        doc,
        s,
        c.right,
        top,
        tree,
        node,
        bi,
    );
    let d = comparison_diags(doc, s, c, top, tree, node, bi);
    assert(d.take(base.len() as int) =~= base);
}

proof fn lemma_first_gate_nonnegative(gs: Seq<GateEntry>, row: Row)
    ensures
        0 <= first_gate(gs, row),
    decreases row.len(),
{
    if row.len() > 0 {
        lemma_first_gate_nonnegative(gs, row.drop_first());
    }
}

/// Expanding a row whose first gate is an OR gate gives one row per input,
/// in input order, with that input standing where that gate stood;
/// expanding one whose first gate is an AND, INHIBIT or PRIORITY_AND gate
/// gives the single row with all the inputs, in order, standing where that
/// gate stood.
pub proof fn law_or_and_expansion(gs: Seq<GateEntry>, row: Row)
    requires
        first_gate(gs, row) < row.len(),
    ensures
        ({
            let p = first_gate(gs, row);
            let g = gate_named(gs, row[p]);
            let ins = string_views(g.inputs@);
            let rs = expand_row(gs, row);
            &&& g.gate_type == GateType::Or ==> rs.len() == ins.len() && forall|j: int|
                0 <= j < rs.len() ==> #[trigger] rs[j] == row.take(p) + seq![ins[j]] + row.skip(p + 1)
            &&& (g.gate_type == GateType::And || g.gate_type == GateType::Inhibit || g.gate_type
                == GateType::PriorityAnd) ==> rs == seq![row.take(p) + ins + row.skip(p + 1)]
        }),
{
}

proof fn lemma_combination_items(items: Seq<Seq<char>>, k: nat, i: int, m: int)
    requires
        0 <= i < combinations(items, k).len(),
        0 <= m < combinations(items, k)[i].len(),
    ensures
        items.contains(combinations(items, k)[i][m]),
    decreases items.len(),
{
    if k > 0 && items.len() > 0 {
        let rest = items.drop_first();
        let a = combinations(rest, (k - 1) as nat).map_values(|c: Row| seq![items[0]] + c);
        let b = combinations(rest, k);
        assert(combinations(items, k) == a + b);
        if i < a.len() {
            let c = combinations(rest, (k - 1) as nat)[i];
            assert(combinations(items, k)[i] == seq![items[0]] + c);
            if m > 0 {
                lemma_combination_items(rest, (k - 1) as nat, i, m - 1);
                let x = c[m - 1];
                let w = choose|w: int| 0 <= w < rest.len() && rest[w] == x;
                assert(items[w + 1] == x);
            } else {
                assert(items[0] == combinations(items, k)[i][m]);
            }
        } else {
            lemma_combination_items(rest, k, i - a.len(), m);
            let x = b[i - a.len()][m];
            let w = choose|w: int| 0 <= w < rest.len() && rest[w] == x;
            assert(items[w + 1] == x);
        }
    }
}

/// Expanding a row whose first gate is a VOTING gate with `k` set swaps
/// that gate for each `k`-element subset of that gate's inputs: there are
/// `n choose k` new rows, each one item shorter than the row plus `k`,
/// each keeping what stood before and after that gate, and each holding
/// only inputs of that gate where that gate stood. A row of a single VOTING
/// gate over basic events thus yields cut sets of exactly `k` events.
pub proof fn law_voting_expands_to_k_of_n(gs: Seq<GateEntry>, row: Row, k: u32)
    requires
        first_gate(gs, row) < row.len(),
        gate_named(gs, row[first_gate(gs, row)]).gate_type == GateType::Voting,
        gate_named(gs, row[first_gate(gs, row)]).k == Some(k),
    ensures
        ({
            let p = first_gate(gs, row);
            let ins = string_views(gate_named(gs, row[p]).inputs@);
            let rs = expand_row(gs, row);
            &&& rs.len() == binomial(ins.len(), k as nat)
            &&& forall|j: int| 0 <= j < rs.len() ==> (#[trigger] rs[j]).len() == row.len() - 1 + k
            &&& forall|j: int| 0 <= j < rs.len() ==> (#[trigger] rs[j]).take(p) == row.take(p)
            &&& forall|j: int| 0 <= j < rs.len() ==> (#[trigger] rs[j]).skip(p + k) == row.skip(p + 1)
            &&& forall|j: int, m: int|
                0 <= j < rs.len() && p <= m < p + k ==> ins.contains(#[trigger] rs[j][m])
        }),
{
    let p = first_gate(gs, row);
    let ins = string_views(gate_named(gs, row[p]).inputs@);
    let cs = combinations(ins, k as nat);
    let rs = expand_row(gs, row);
    lemma_first_gate_nonnegative(gs, row);
    lemma_combinations_count(ins, k as nat);
    assert(rs == cs.map_values(|c: Row| crate::fault_tree::splice(row, p, c)));
    assert forall|j: int| 0 <= j < rs.len() implies (#[trigger] rs[j]).len() == row.len() - 1 + k
        && rs[j].take(p) == row.take(p) && rs[j].skip(p + k) == row.skip(p + 1) by {
        assert(cs[j].len() == k);
        assert(rs[j] == row.take(p) + cs[j] + row.skip(p + 1));
        assert(rs[j].take(p) =~= row.take(p));
        assert(rs[j].skip(p + k) =~= row.skip(p + 1));
    }
    assert forall|j: int, m: int| 0 <= j < rs.len() && p <= m < p + k implies ins.contains(
        #[trigger] rs[j][m],
    ) by {
        assert(cs[j].len() == k);
        assert(rs[j] == row.take(p) + cs[j] + row.skip(p + 1));
        assert(rs[j][m] == cs[j][m - p]);
        lemma_combination_items(ins, k as nat, j, m - p);
    }
}

proof fn lemma_spread_keeps(fuel: nat, ns: Seq<NodeEntry>, id: Seq<char>, m: Seq<bool>)
    ensures
        spread(fuel, ns, id, m).len() == m.len(),
        forall|j: int| 0 <= j < m.len() && m[j] ==> spread(fuel, ns, id, m)[j],
    decreases fuel, 0int,
{
    let ni = index_of(node_entry_ids(ns), id);
    if fuel > 0 && ni < ns.len() {
        lemma_spread_successors_keeps((fuel - 1) as nat, ns, successors(ns[ni].node), 0, m);
    }
}

proof fn lemma_spread_successors_keeps(
    fuel: nat,
    ns: Seq<NodeEntry>,
    succs: Seq<Seq<char>>,
    i: int,
    m: Seq<bool>,
)
    ensures
        spread_successors(fuel, ns, succs, i, m).len() == m.len(),
        forall|j: int| 0 <= j < m.len() && m[j] ==> spread_successors(fuel, ns, succs, i, m)[j],
    decreases fuel, succs.len() - i,
{
    if 0 <= i < succs.len() {
        let xi = index_of(node_entry_ids(ns), succs[i]);
        lemma_index_of(node_entry_ids(ns), succs[i]);
        let m2 = if xi < ns.len() && xi < m.len() && !m[xi] {
            lemma_spread_keeps(fuel, ns, succs[i], m.update(xi, true));
            spread(fuel, ns, succs[i], m.update(xi, true))
        } else {
            m
        };
        assert forall|j: int| 0 <= j < m.len() && m[j] implies m2[j] by {
            if xi < ns.len() && xi < m.len() && !m[xi] {
                assert(m.update(xi, true)[j]);
            }
        }
        lemma_spread_successors_keeps(fuel, ns, succs, i + 1, m2);
        assert(spread_successors(fuel, ns, succs, i, m) == spread_successors(fuel, ns, succs, i + 1, m2));
    }
}

/// Every successor `succs[q]` (`q >= i`) that names a node ends up marked.
proof fn lemma_spread_successors_marks(
    fuel: nat,
    ns: Seq<NodeEntry>,
    succs: Seq<Seq<char>>,
    i: int,
    m: Seq<bool>,
    q: int,
)
    requires
        0 <= i <= q < succs.len(),
        m.len() == ns.len(),
        index_of(node_entry_ids(ns), succs[q]) < ns.len(),
    ensures
        spread_successors(fuel, ns, succs, i, m)[index_of(node_entry_ids(ns), succs[q])],
    decreases succs.len() - i,
{
    let xi = index_of(node_entry_ids(ns), succs[i]);
    lemma_index_of(node_entry_ids(ns), succs[i]);
    let m2 = if xi < ns.len() && xi < m.len() && !m[xi] {
        spread(fuel, ns, succs[i], m.update(xi, true))
    } else {
        m
    };
    if xi < ns.len() && xi < m.len() && !m[xi] {
        lemma_spread_keeps(fuel, ns, succs[i], m.update(xi, true));
        assert(m.update(xi, true)[xi]);
    }
    assert(spread_successors(fuel, ns, succs, i, m) == spread_successors(fuel, ns, succs, i + 1, m2));
    if q == i {
        assert(m2[xi]);
        lemma_spread_successors_keeps(fuel, ns, succs, i + 1, m2);
    } else {
        lemma_spread_successors_marks(fuel, ns, succs, i + 1, m2, q);
    }
}

proof fn lemma_marked_not_reported(
    tree_name: Seq<char>,
    ns: Seq<NodeEntry>,
    marks: Seq<bool>,
    n: int,
    f: Seq<char>,
)
    requires
        n <= ns.len(),
        marks.len() == ns.len(),
        index_of(node_entry_ids(ns), f) < ns.len(),
        marks[index_of(node_entry_ids(ns), f)],
    ensures
        forall|j: int|
            0 <= j < unreached_diags(tree_name, ns, marks, n).len() ==> (#[trigger] unreached_diags(
                tree_name,
                ns,
                marks,
                n,
            )[j]).key != Some(SpanKeyView::Node { tree: tree_name, id: f }),
    decreases n,
{
    if n > 0 {
        lemma_marked_not_reported(tree_name, ns, marks, n - 1, f);
        let prev = unreached_diags(tree_name, ns, marks, n - 1);
        let d = unreached_diags(tree_name, ns, marks, n);
        assert(node_entry_ids(ns)[n - 1] == ns[n - 1].id@);
        assert forall|j: int| 0 <= j < d.len() implies (#[trigger] d[j]).key != Some(
            SpanKeyView::Node { tree: tree_name, id: f },
        ) by {
            if j < prev.len() {
                assert(d[j] == prev[j]);
            }
        }
    }
}

/// Whether node `n` has an edge to the node named `x`: a branch of a
/// barrier leading there, or an operation's `next` or `onFailure`.
pub open spec fn has_edge_to(n: Node, x: Seq<char>) -> bool {
    match n {
        Node::Barrier(b) => exists|k: int| 0 <= k < b.branches@.len() && #[trigger] b.branches@[k].next@ == x,
        Node::Operation(op) => op.next@ == x || (op.on_failure matches Some(f) && f@ == x),
        Node::Consequence(_) => false,
    }
}

/// Every node that the initiating event's node has an edge to (a branch
/// target of a barrier; the `next` or the `onFailure` of an operation) is
/// reachable: no V-103 is reported for it.
pub proof fn law_edge_targets_of_first_node_are_reachable(
    tree_name: Seq<char>,
    tree: EventTree,
    start_at: int,
    target_at: int,
)
    requires
        0 <= start_at < tree.nodes@.len(),
        0 <= target_at < tree.nodes@.len(),
        tree.nodes@[start_at].id@ == tree.initiating_event.next@,
        forall|j: int| 0 <= j < start_at ==> tree.nodes@[j].id@ != tree.initiating_event.next@,
        has_edge_to(tree.nodes@[start_at].node, tree.nodes@[target_at].id@),
    ensures
        forall|j: int|
            0 <= j < reachability_diags(tree_name, tree).len() ==> (#[trigger] reachability_diags(
                tree_name,
                tree,
            )[j]).key != Some(SpanKeyView::Node { tree: tree_name, id: tree.nodes@[target_at].id@ }),
{
    let ns = tree.nodes@;
    let ids = node_entry_ids(ns);
    let start = tree.initiating_event.next@;
    let f = ns[target_at].id@;
    crate::model::lemma_index_of_is(ids, start, start_at);
    lemma_index_of(ids, f);
    assert(ids[target_at] == f);
    let none = Seq::new(ns.len(), |i: int| false);
    let m0 = none.update(start_at, true);
    let succs = successors(ns[start_at].node);
    let q: int = match ns[start_at].node {
        Node::Barrier(b) => choose|k: int| 0 <= k < b.branches@.len() && #[trigger] b.branches@[k].next@ == f,
        Node::Operation(op) => if op.next@ == f { 0 } else { 1 },
        Node::Consequence(_) => 0,
    };
    assert(0 <= q < succs.len() && succs[q] == f);
    lemma_spread_successors_marks((ns.len() - 1) as nat, ns, succs, 0, m0, q);
    assert(reach_marks(tree) == spread_successors((ns.len() - 1) as nat, ns, succs, 0, m0));
    lemma_spread_successors_keeps((ns.len() - 1) as nat, ns, succs, 0, m0);
    lemma_marked_not_reported(tree_name, ns, reach_marks(tree), ns.len() as int, f);
}

} // verus!
