//! Event-tree graph checks: cycles (V-102), unreachable nodes (V-103) and
//! paths that end in no consequence (V-104); and the whole per-tree
//! validation.

use vstd::prelude::*;
use crate::diagnostic::{
    error_view, located, views, push_diag, extend_diags, error_at, lemma_flat_map_step,
    lemma_flat_map_empty, lemma_take_all, Diagnostic, DiagnosticView, SpanKey, SpanKeyView,
};
use crate::event_rules::{
    node_ids, reference_diags, node_rules, check_node_references, check_node_rules,
    has_node_named,
};
use crate::extension::string_views;
use crate::model::{
    Branch, Document, EventTree, EventTreeEntry, Node, NodeEntry, node_entry_ids, index_of,
    lemma_index_of, node_position,
};
use crate::text::{owned, same, cat5, cat7};

verus! {

/// The node ids a node leads to: a barrier's branch targets, an
/// operation's `next` then `onFailure`; none for a consequence.
pub open spec fn successors(n: Node) -> Seq<Seq<char>> {
    match n {
        Node::Barrier(b) => b.branches@.map_values(|br: Branch| br.next@),
        Node::Operation(op) => match op.on_failure {
            Some(f) => seq![op.next@, f@],
            None => seq![op.next@],
        },
        Node::Consequence(_) => Seq::empty(),
    }
}

fn successor_names(n: &Node) -> (r: Vec<String>)
    ensures
        string_views(r@) == successors(*n),
{
    let mut r: Vec<String> = Vec::new();
    match n {
        Node::Barrier(b) => {
            let mut i: usize = 0;
            while i < b.branches.len()
                invariant
                    i <= b.branches@.len(),
                    string_views(r@) == b.branches@.take(i as int).map_values(
                        |br: Branch| br.next@,
                    ),
                decreases b.branches.len() - i,
            {
                let ghost before = r@;
                let s = owned(b.branches[i].next.as_str());
                r.push(s);
                assert(string_views(r@) =~= string_views(before).push(s@));
                assert(b.branches@.take(i + 1) =~= b.branches@.take(i as int).push(
                    b.branches@[i as int],
                ));
                assert(string_views(r@) =~= b.branches@.take(i + 1).map_values(
                    |br: Branch| br.next@,
                ));
                i = i + 1;
            }
            assert(b.branches@.take(b.branches@.len() as int) =~= b.branches@);
        },
        Node::Operation(op) => {
            r.push(owned(op.next.as_str()));
            match &op.on_failure {
                Some(f) => {
                    r.push(owned(f.as_str()));
                },
                None => {},
            }
        },
        Node::Consequence(_) => {},
    }
    assert(string_views(r@) =~= successors(*n));
    r
}

// ---------------------------------------------------------------------------
// Cycles (V-102): a depth-first search from the first node
// ---------------------------------------------------------------------------

/// The state of the search: a colour per node position (0 unvisited,
/// 1 on the current path, 2 finished) and the diagnostics so far.
pub struct NodeSearch {
    pub colors: Seq<u8>,
    pub out: Seq<DiagnosticView>,
}

/// The V-102 diagnostic for the edge `id -> x` that closes a cycle.
pub open spec fn node_cycle_diag(tree_name: Seq<char>, id: Seq<char>, x: Seq<char>) -> DiagnosticView {
    located(
        error_view(
            "V-102"@,
            "tree '"@ + tree_name + "': cycle detected involving node '"@ + id + "' -> '"@ + x
                + "'"@,
        ),
        SpanKeyView::Node { tree: tree_name, id },
    )
}

/// Visit node `id`: a consequence is finished at once; another node is
/// marked on-path, its successors walked, then finished.
pub open spec fn visit_node(
    fuel: nat,
    tree_name: Seq<char>,
    ns: Seq<NodeEntry>,
    id: Seq<char>,
    st: NodeSearch,
) -> NodeSearch
    decreases fuel, 0int,
{
    let ni = index_of(node_entry_ids(ns), id);
    if fuel == 0 || ni >= ns.len() || ni >= st.colors.len() || st.colors[ni] != 0 {
        st
    } else if ns[ni].node is Consequence {
        NodeSearch { colors: st.colors.update(ni, 2u8), out: st.out }
    } else {
        let st1 = NodeSearch { colors: st.colors.update(ni, 1u8), out: st.out };
        let st2 = visit_successors(
            (fuel - 1) as nat,
            tree_name,
            ns,
            id,
            successors(ns[ni].node),
            0,
            st1,
        );
        NodeSearch { colors: st2.colors.update(ni, 2u8), out: st2.out }
    }
}

/// Walk successors `i..` of node `id`: a successor on the current path
/// closes a cycle; an unvisited one is visited.
pub open spec fn visit_successors(
    fuel: nat,
    tree_name: Seq<char>,
    ns: Seq<NodeEntry>,
    id: Seq<char>,
    succs: Seq<Seq<char>>,
    i: int,
    st: NodeSearch,
) -> NodeSearch
    decreases fuel, succs.len() - i,
{
    if i < 0 || i >= succs.len() {
        st
    } else {
        let x = succs[i];
        let xi = index_of(node_entry_ids(ns), x);
        let st2 = if xi < ns.len() && xi < st.colors.len() {
            if st.colors[xi] == 1 {
                NodeSearch { colors: st.colors, out: st.out.push(node_cycle_diag(tree_name, id, x)) }
            } else if st.colors[xi] == 0 {
                visit_node(fuel, tree_name, ns, x, st)
            } else {
                st
            }
        } else {
            st
        };
        visit_successors(fuel, tree_name, ns, id, succs, i + 1, st2)
    }
}

/// Every node position unvisited.
pub open spec fn all_white(n: nat) -> Seq<u8> {
    Seq::new(n, |i: int| 0u8)
}

/// V-102 for every cycle edge the search from the initiating event's
/// `next` meets.
pub open spec fn cycle_diags(tree_name: Seq<char>, tree: EventTree) -> Seq<DiagnosticView> {
    let ns = tree.nodes@;
    let start = tree.initiating_event.next@;
    if node_ids(tree).contains(start) {
        visit_node(
            ns.len(),
            tree_name,
            ns,
            start,
            NodeSearch { colors: all_white(ns.len()), out: Seq::empty() },
        ).out
    } else {
        Seq::empty()
    }
}

fn white_colors(n: usize) -> (v: Vec<u8>)
    ensures
        v@ == all_white(n as nat),
{
    let mut v: Vec<u8> = Vec::new();
    let mut k: usize = 0;
    while k < n
        invariant
            k <= n,
            v@ == all_white(k as nat),
        decreases n - k,
    {
        v.push(0);
        k = k + 1;
        assert(v@ =~= all_white(k as nat));
    }
    v
}

fn search_node(
    fuel: u64,
    tree_name: &str,
    ns: &Vec<NodeEntry>,
    id: &str,
    colors: &mut Vec<u8>,
    out: &mut Vec<Diagnostic>,
)
    requires
        old(colors)@.len() == ns@.len(),
    ensures
        final(colors)@.len() == ns@.len(),
        ({
            let r = visit_node(
                fuel as nat,
                tree_name@,
                ns@,
                id@,
                NodeSearch { colors: old(colors)@, out: views(old(out)@) },
            );
            final(colors)@ == r.colors && views(final(out)@) == r.out
        }),
    decreases fuel,
{
    let ni = node_position(ns, id);
    if fuel == 0 || ni >= ns.len() || colors[ni] != 0 {
        return ;
    }
    if let Node::Consequence(_) = &ns[ni].node {
        colors.set(ni, 2);
        return ;
    }
    colors.set(ni, 1);
    let succs = successor_names(&ns[ni].node);
    let ghost st1 = NodeSearch { colors: colors@, out: views(out@) };
    let ghost f1 = (fuel - 1) as nat;
    let ghost sv = string_views(succs@);
    let mut i: usize = 0;
    while i < succs.len()
        invariant
            0 < fuel,
            f1 == (fuel - 1) as nat,
            ni < ns@.len(),
            sv == string_views(succs@),
            sv == successors(ns@[ni as int].node),
            i <= succs@.len(),
            colors@.len() == ns@.len(),
            visit_successors(f1, tree_name@, ns@, id@, sv, 0, st1) == visit_successors(
                f1,
                tree_name@,
                ns@,
                id@,
                sv,
                i as int,
                NodeSearch { colors: colors@, out: views(out@) },
            ),
        decreases succs.len() - i,
    {
        let x = succs[i].as_str();
        assert(sv[i as int] == x@);
        let xi = node_position(ns, x);
        if xi < ns.len() {
            if colors[xi] == 1 {
                let msg = cat7("tree '", tree_name, "': cycle detected involving node '", id,
                    "' -> '", x, "'");
                let d = error_at("V-102", msg, SpanKey::Node { tree: owned(tree_name), id: owned(id) });
                push_diag(out, d);
            } else if colors[xi] == 0 {
                search_node(fuel - 1, tree_name, ns, x, colors, out);
            }
        }
        i = i + 1;
    }
    colors.set(ni, 2);
}

/// Report V-102 for every cycle a depth-first search from the initiating
/// event's `next` meets, in the order the search meets them.
pub fn check_cycles(tree_name: &str, tree: &EventTree, diagnostics: &mut Vec<Diagnostic>)
    ensures
        views(final(diagnostics)@) == views(old(diagnostics)@) + cycle_diags(tree_name@, *tree),
{
    let start = tree.initiating_event.next.as_str();
    if !has_node_named(tree, start) {
        assert(views(diagnostics@) =~= views(old(diagnostics)@) + cycle_diags(tree_name@, *tree));
        return ;
    }
    let ns = &tree.nodes;
    let mut colors = white_colors(ns.len());
    let mut found: Vec<Diagnostic> = Vec::new();
    search_node(ns.len() as u64, tree_name, ns, start, &mut colors, &mut found);
    assert(views(found@) == cycle_diags(tree_name@, *tree)) by {
        assert(views(Seq::<Diagnostic>::empty()) =~= Seq::<DiagnosticView>::empty());
    }
    extend_diags(diagnostics, found);
}

// ---------------------------------------------------------------------------
// Reachability (V-103)
// ---------------------------------------------------------------------------

/// Mark everything reachable from node `id` (already marked).
pub open spec fn spread(fuel: nat, ns: Seq<NodeEntry>, id: Seq<char>, marks: Seq<bool>) -> Seq<bool>
    decreases fuel, 0int,
{
    let ni = index_of(node_entry_ids(ns), id);
    if fuel == 0 || ni >= ns.len() {
        marks
    } else {
        spread_successors((fuel - 1) as nat, ns, successors(ns[ni].node), 0, marks)
    }
}

/// Mark successors `i..` that are nodes not yet marked, and what they reach.
pub open spec fn spread_successors(
    fuel: nat,
    ns: Seq<NodeEntry>,
    succs: Seq<Seq<char>>,
    i: int,
    marks: Seq<bool>,
) -> Seq<bool>
    decreases fuel, succs.len() - i,
{
    if i < 0 || i >= succs.len() {
        marks
    } else {
        let xi = index_of(node_entry_ids(ns), succs[i]);
        let m2 = if xi < ns.len() && xi < marks.len() && !marks[xi] {
            spread(fuel, ns, succs[i], marks.update(xi, true))
        } else {
            marks
        };
        spread_successors(fuel, ns, succs, i + 1, m2)
    }
}

/// The reachability marks of the node positions: the initiating event's
/// `next` and everything reachable from it.
pub open spec fn reach_marks(tree: EventTree) -> Seq<bool> {
    let ns = tree.nodes@;
    let start = tree.initiating_event.next@;
    let si = index_of(node_entry_ids(ns), start);
    let none = Seq::new(ns.len(), |i: int| false);
    if si < ns.len() {
        spread(ns.len(), ns, start, none.update(si, true))
    } else {
        none
    }
}

/// V-103 for the first `n` node positions that hold the first node of
/// their id and are unmarked.
pub open spec fn unreached_diags(
    tree_name: Seq<char>,
    ns: Seq<NodeEntry>,
    marks: Seq<bool>,
    n: int,
) -> Seq<DiagnosticView>
    decreases n,
{
    if n <= 0 {
        Seq::empty()
    } else {
        let id = ns[n - 1].id@;
        unreached_diags(tree_name, ns, marks, n - 1) + if index_of(node_entry_ids(ns), id) == n
            - 1 && !marks[n - 1] {
            seq![
                located(
                    error_view(
                        "V-103"@,
                        "tree '"@ + tree_name + "': node '"@ + id
                            + "' is unreachable from initiatingEvent"@,
                    ),
                    SpanKeyView::Node { tree: tree_name, id },
                ),
            ]
        } else {
            Seq::empty()
        }
    }
}

/// V-103 for every node the initiating event does not reach, in node order.
pub open spec fn reachability_diags(tree_name: Seq<char>, tree: EventTree) -> Seq<DiagnosticView> {
    unreached_diags(tree_name, tree.nodes@, reach_marks(tree), tree.nodes@.len() as int)
}

fn spread_exec(fuel: u64, ns: &Vec<NodeEntry>, id: &str, marks: &mut Vec<bool>)
    requires
        old(marks)@.len() == ns@.len(),
    ensures
        final(marks)@.len() == ns@.len(),
        final(marks)@ == spread(fuel as nat, ns@, id@, old(marks)@),
    decreases fuel,
{
    let ni = node_position(ns, id);
    if fuel == 0 || ni >= ns.len() {
        return ;
    }
    let succs = successor_names(&ns[ni].node);
    let ghost sv = string_views(succs@);
    let ghost f1 = (fuel - 1) as nat;
    let ghost m1 = marks@;
    let mut i: usize = 0;
    while i < succs.len()
        invariant
            0 < fuel,
            f1 == (fuel - 1) as nat,
            ni < ns@.len(),
            sv == string_views(succs@),
            sv == successors(ns@[ni as int].node),
            i <= succs@.len(),
            marks@.len() == ns@.len(),
            spread_successors(f1, ns@, sv, 0, m1) == spread_successors(
                f1,
                ns@,
                sv,
                i as int,
                marks@,
            ),
        decreases succs.len() - i,
    {
        let x = succs[i].as_str();
        assert(sv[i as int] == x@);
        let xi = node_position(ns, x);
        if xi < ns.len() && !marks[xi] {
            marks.set(xi, true);
            spread_exec(fuel - 1, ns, x, marks);
        }
        i = i + 1;
    }
}

/// Report V-103 for every node the initiating event does not reach.
pub fn check_reachability(tree_name: &str, tree: &EventTree, diagnostics: &mut Vec<Diagnostic>)
    ensures
        views(final(diagnostics)@) == views(old(diagnostics)@) + reachability_diags(
            tree_name@,
            *tree,
        ),
{
    let ns = &tree.nodes;
    let mut marks: Vec<bool> = Vec::new();
    let mut k: usize = 0;
    while k < ns.len()
        invariant
            k <= ns@.len(),
            marks@ == Seq::new(k as nat, |i: int| false),
        decreases ns.len() - k,
    {
        marks.push(false);
        k = k + 1;
        assert(marks@ =~= Seq::new(k as nat, |i: int| false));
    }
    let start = tree.initiating_event.next.as_str();
    let si = node_position(ns, start);
    if si < ns.len() {
        marks.set(si, true);
        spread_exec(ns.len() as u64, ns, start, &mut marks);
    }
    assert(marks@ == reach_marks(*tree));
    let ghost d0 = views(diagnostics@);
    let mut i: usize = 0;
    while i < ns.len()
        invariant
            i <= ns@.len(),
            ns@ == tree.nodes@,
            marks@ == reach_marks(*tree),
            marks@.len() == ns@.len(),
            views(diagnostics@) == d0 + unreached_diags(tree_name@, ns@, marks@, i as int),
        decreases ns.len() - i,
    {
        let id = ns[i].id.as_str();
        if node_position(ns, id) == i && !marks[i] {
            let msg = cat5("tree '", tree_name, "': node '", id,
                "' is unreachable from initiatingEvent");
            push_diag(
                diagnostics,
                error_at("V-103", msg, SpanKey::Node { tree: owned(tree_name), id: owned(id) }),
            );
        }
        i = i + 1;
    }
}

// ---------------------------------------------------------------------------
// Terminal paths (V-104)
// ---------------------------------------------------------------------------

/// Whether every path from node `id` ends in a consequence, following no
/// node twice on a path (`visited` is the path so far).
pub open spec fn terminates(
    fuel: nat,
    ns: Seq<NodeEntry>,
    id: Seq<char>,
    visited: Seq<Seq<char>>,
) -> bool
    decreases fuel, 0int,
{
    let ni = index_of(node_entry_ids(ns), id);
    if visited.contains(id) || ni >= ns.len() {
        false
    } else if ns[ni].node is Consequence {
        true
    } else {
        fuel > 0 && all_terminate(
            (fuel - 1) as nat,
            ns,
            successors(ns[ni].node),
            0,
            visited.push(id),
        )
    }
}

/// Whether every path from each of successors `i..` ends in a consequence.
pub open spec fn all_terminate(
    fuel: nat,
    ns: Seq<NodeEntry>,
    succs: Seq<Seq<char>>,
    i: int,
    visited: Seq<Seq<char>>,
) -> bool
    decreases fuel, succs.len() - i,
{
    if i < 0 || i >= succs.len() {
        true
    } else {
        terminates(fuel, ns, succs[i], visited) && all_terminate(fuel, ns, succs, i + 1, visited)
    }
}

/// V-104 when some path from the initiating event's `next` does not end in
/// a consequence.
pub open spec fn terminal_diags(tree_name: Seq<char>, tree: EventTree) -> Seq<DiagnosticView> {
    let ns = tree.nodes@;
    let start = tree.initiating_event.next@;
    if node_ids(tree).contains(start) && !terminates(ns.len(), ns, start, Seq::empty()) {
        seq![
            located(
                error_view(
                    "V-104"@,
                    "tree '"@ + tree_name + "': a path from initiatingEvent '"@
                        + tree.initiating_event.id@
                        + "' does not terminate in a consequence node (every path must end in a Consequence)"@,
                ),
                SpanKeyView::InitiatingEvent { tree: tree_name, field: "next"@ },
            ),
        ]
    } else {
        Seq::empty()
    }
}

fn on_path(visited: &Vec<String>, id: &str) -> (b: bool)
    ensures
        b == string_views(visited@).contains(id@),
{
    let mut i: usize = 0;
    while i < visited.len()
        invariant
            i <= visited@.len(),
            forall|j: int| 0 <= j < i ==> visited@[j]@ != id@,
        decreases visited.len() - i,
    {
        if same(visited[i].as_str(), id) {
            assert(string_views(visited@)[i as int] == id@);
            return true;
        }
        i = i + 1;
    }
    false
}

fn terminates_exec(fuel: u64, ns: &Vec<NodeEntry>, id: &str, visited: &mut Vec<String>) -> (b: bool)
    ensures
        final(visited)@ == old(visited)@,
        b == terminates(fuel as nat, ns@, id@, string_views(old(visited)@)),
    decreases fuel,
{
    if on_path(visited, id) {
        return false;
    }
    let ni = node_position(ns, id);
    if ni >= ns.len() {
        return false;
    }
    if let Node::Consequence(_) = &ns[ni].node {
        return true;
    }
    if fuel == 0 {
        return false;
    }
    let ghost v0 = visited@;
    visited.push(owned(id));
    let ghost pv = string_views(visited@);
    assert(pv =~= string_views(v0).push(id@));
    let succs = successor_names(&ns[ni].node);
    let ghost sv = string_views(succs@);
    let ghost f1 = (fuel - 1) as nat;
    let mut all = true;
    let mut i: usize = 0;
    while i < succs.len()
        invariant
            0 < fuel,
            f1 == (fuel - 1) as nat,
            ni < ns@.len(),
            sv == string_views(succs@),
            sv == successors(ns@[ni as int].node),
            i <= succs@.len(),
            visited@ == v0.push(visited@.last()),
            visited@.len() == v0.len() + 1,
            string_views(visited@) == pv,
            all_terminate(f1, ns@, sv, 0, pv) == (all && all_terminate(
                f1,
                ns@,
                sv,
                i as int,
                pv,
            )),
        decreases succs.len() - i,
    {
        let x = succs[i].as_str();
        assert(sv[i as int] == x@);
        let t = terminates_exec(fuel - 1, ns, x, visited);
        if !t {
            all = false;
        }
        i = i + 1;
    }
    visited.pop();
    assert(visited@ =~= v0);
    all
}

/// Report V-104 when some path from the initiating event's `next` does not
/// end in a consequence.
pub fn check_terminal_paths(tree_name: &str, tree: &EventTree, diagnostics: &mut Vec<Diagnostic>)
    ensures
        views(final(diagnostics)@) == views(old(diagnostics)@) + terminal_diags(
            tree_name@,
            *tree,
        ),
{
    let start = tree.initiating_event.next.as_str();
    if !has_node_named(tree, start) {
        assert(views(diagnostics@) =~= views(old(diagnostics)@) + terminal_diags(
            tree_name@,
            *tree,
        ));
        return ;
    }
    let mut visited: Vec<String> = Vec::new();
    assert(string_views(visited@) =~= Seq::<Seq<char>>::empty());
    let ok = terminates_exec(tree.nodes.len() as u64, &tree.nodes, start, &mut visited);
    if !ok {
        let msg = cat5("tree '", tree_name, "': a path from initiatingEvent '",
            tree.initiating_event.id.as_str(),
            "' does not terminate in a consequence node (every path must end in a Consequence)");
        push_diag(
            diagnostics,
            error_at(
                "V-104",
                msg,
                SpanKey::InitiatingEvent { tree: owned(tree_name), field: owned("next") },
            ),
        );
    }
    assert(views(diagnostics@) =~= views(old(diagnostics)@) + terminal_diags(tree_name@, *tree));
}

// ---------------------------------------------------------------------------
// The whole event-tree validation
// ---------------------------------------------------------------------------

/// The diagnostics of the structure checks of tree `tree_name`, in the
/// order they are reported.
pub open spec fn tree_structure_diags(tree_name: Seq<char>, tree: EventTree) -> Seq<DiagnosticView> {
    reference_diags(tree_name, tree) + cycle_diags(tree_name, tree) + reachability_diags(
        tree_name,
        tree,
    ) + terminal_diags(tree_name, tree) + node_rules(tree_name, tree, 0) + node_rules(
        tree_name,
        tree,
        1,
    ) + node_rules(tree_name, tree, 2)
}

/// Check one event tree: references, cycles, reachability, terminal paths,
/// then the barrier, operation and consequence rules.
pub fn validate_tree_structure(tree_name: &str, tree: &EventTree, diagnostics: &mut Vec<Diagnostic>)
    ensures
        views(final(diagnostics)@) == views(old(diagnostics)@) + tree_structure_diags(
            tree_name@,
            *tree,
        ),
{
    let ghost d0 = views(diagnostics@);
    check_node_references(tree_name, tree, diagnostics);
    check_cycles(tree_name, tree, diagnostics);
    check_reachability(tree_name, tree, diagnostics);
    check_terminal_paths(tree_name, tree, diagnostics);
    check_node_rules(tree_name, tree, 0, diagnostics);
    check_node_rules(tree_name, tree, 1, diagnostics);
    check_node_rules(tree_name, tree, 2, diagnostics);
    assert(views(diagnostics@) =~= d0 + tree_structure_diags(tree_name@, *tree));
}

/// The diagnostics of every event tree, tree by tree.
pub open spec fn event_tree_diags(doc: Document) -> Seq<DiagnosticView> {
    doc.event_trees@.flat_map(|e: EventTreeEntry| tree_structure_diags(e.name@, e.tree))
}

/// Validate the structure of every event tree of the document.
pub fn validate_event_trees(doc: &Document, diagnostics: &mut Vec<Diagnostic>)
    ensures
        views(final(diagnostics)@) == views(old(diagnostics)@) + event_tree_diags(*doc),
{
    let ts = &doc.event_trees;
    let ghost f = |e: EventTreeEntry| tree_structure_diags(e.name@, e.tree);
    proof {
        lemma_flat_map_empty(ts@, f);
    }
    let mut i: usize = 0;
    while i < ts.len()
        invariant
            i <= ts@.len(),
            ts@ == doc.event_trees@,
            f == (|e: EventTreeEntry| tree_structure_diags(e.name@, e.tree)),
            views(diagnostics@) == views(old(diagnostics)@) + ts@.take(i as int).flat_map(f),
        decreases ts.len() - i,
    {
        validate_tree_structure(ts[i].name.as_str(), &ts[i].tree, diagnostics);
        proof {
            lemma_flat_map_step(ts@, f, i as int);
        }
        i = i + 1;
    }
    proof {
        lemma_take_all(ts@);
    }
}

} // verus!
