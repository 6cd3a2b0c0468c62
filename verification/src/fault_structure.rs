//! Fault-tree structure: id clashes (V-402), house events with a value
//! (W-406), unresolved references (V-401), gate cycles (V-403),
//! unreachable elements (V-404) and transfers (V-506, W-405).

use vstd::prelude::*;
use crate::diagnostic::{
    error_view, warning_view, located, views, push_diag, extend_diags, error_at, warning_at,
    lemma_flat_map_step, lemma_flat_map_empty, lemma_take_all, Diagnostic, DiagnosticView,
    SpanKey, SpanKeyView,
};
use crate::extension::{strictly_sorted, string_views};
use crate::fault_rules::{gates_of, at_basic_event, gate_rules, basic_event_rules, check_gate_rules, check_basic_event_rules};
use crate::model::{
    Document, FaultTree, FaultTreeEntry, GateEntry, BasicEventEntry, TransferEntry, Transfer,
    index_of, lemma_index_of, gate_entry_ids, gate_position,
};
use crate::sorted::{sorted_seq, insert_sorted, lemma_is_sorted_seq, lemma_push_to_set};
use crate::text::{
    strip_all, starts_with, before, trim, owned, same, cat3, cat5, cat7, strip_all_prefix,
    has_prefix, before_char, is_blank,
};

verus! {

/// The ids of the gates of `ft`, in order.
pub open spec fn gate_ids(ft: FaultTree) -> Seq<Seq<char>> {
    gate_entry_ids(gates_of(ft))
}

/// The ids of the basic events of `ft`, in order.
pub open spec fn be_ids(ft: FaultTree) -> Seq<Seq<char>> {
    ft.basic_events@.map_values(|e: BasicEventEntry| e.id@)
}

/// Every id a reference inside `ft` can resolve to.
pub open spec fn known_ids(ft: FaultTree) -> Set<Seq<char>> {
    gate_ids(ft).to_set() + be_ids(ft).to_set()
}

/// V-402 for the first `n` basic events: one whose id is a gate's id, or
/// repeats an earlier basic event's id.
pub open spec fn shared_id_diags(ft_name: Seq<char>, ft: FaultTree, n: int) -> Seq<DiagnosticView>
    decreases n,
{
    if n <= 0 {
        Seq::empty()
    } else {
        let id = be_ids(ft)[n - 1];
        shared_id_diags(ft_name, ft, n - 1) + if gate_ids(ft).contains(id) || be_ids(ft).take(
            n - 1,
        ).contains(id) {
            at_basic_event(
                "V-402"@,
                ft_name,
                id,
                "fault tree '"@ + ft_name + "': gate and basic event share ID '"@ + id + "'"@,
            )
        } else {
            Seq::empty()
        }
    }
}

/// W-406 for a house event that declares a probability or failure rate.
pub open spec fn house_diag(ft_name: Seq<char>, e: BasicEventEntry) -> Seq<DiagnosticView> {
    if e.event.is_house && (e.event.probability is Some || e.event.failure_rate is Some) {
        seq![
            located(
                warning_view(
                    "W-406"@,
                    "fault tree '"@ + ft_name + "': house event '"@ + e.id@
                        + "' declares a probability/failureRate; house events are boundary conditions and their value is not a computed leaf probability"@,
                ),
                SpanKeyView::BasicEvent { tree: ft_name, id: e.id@ },
            ),
        ]
    } else {
        Seq::empty()
    }
}

/// V-401 when the top event's root cause names no gate or basic event.
pub open spec fn root_diags(ft_name: Seq<char>, ft: FaultTree) -> Seq<DiagnosticView> {
    let root = ft.top_event.root_cause@;
    if known_ids(ft).contains(root) {
        Seq::empty()
    } else {
        seq![
            located(
                error_view(
                    "V-401"@,
                    "fault tree '"@ + ft_name + "': topEvent.rootCause '"@ + root
                        + "' does not resolve to a gate or basic event"@,
                ),
                SpanKeyView::TopEvent { tree: ft_name, field: "root_cause"@ },
            ),
        ]
    }
}

/// V-401 for the first `n` inputs of gate `gid` that name no gate or basic
/// event.
pub open spec fn input_diags(
    ft_name: Seq<char>,
    known: Set<Seq<char>>,
    gid: Seq<char>,
    inputs: Seq<String>,
    n: int,
) -> Seq<DiagnosticView>
    decreases n,
{
    if n <= 0 {
        Seq::empty()
    } else {
        let x = inputs[n - 1]@;
        input_diags(ft_name, known, gid, inputs, n - 1) + if known.contains(x) {
            Seq::empty()
        } else {
            seq![
                located(
                    error_view(
                        "V-401"@,
                        "fault tree '"@ + ft_name + "': gate '"@ + gid + "' input '"@ + x
                            + "' does not resolve"@,
                    ),
                    SpanKeyView::GateInput { tree: ft_name, id: gid, idx: (n - 1) as nat },
                ),
            ]
        }
    }
}

/// V-401 over the inputs of every gate, in gate order.
pub open spec fn gate_input_diags(ft_name: Seq<char>, ft: FaultTree) -> Seq<DiagnosticView> {
    gates_of(ft).flat_map(
        |e: GateEntry|
            input_diags(ft_name, known_ids(ft), e.id@, e.gate.inputs@, e.gate.inputs@.len() as int),
    )
}

// ---------------------------------------------------------------------------
// Gate cycles (V-403): a depth-first search from the root gate
// ---------------------------------------------------------------------------

/// The state of the search: a colour per gate position (0 unvisited,
/// 1 on the current path, 2 finished) and the diagnostics so far.
pub struct GateSearch {
    pub colors: Seq<u8>,
    pub out: Seq<DiagnosticView>,
}

/// The V-403 diagnostic for the edge `g -> x` that closes a cycle.
pub open spec fn cycle_diag(ft_name: Seq<char>, g: Seq<char>, x: Seq<char>) -> DiagnosticView {
    located(
        error_view(
            "V-403"@,
            "fault tree '"@ + ft_name + "': cycle detected involving gate '"@ + g + "' -> '"@ + x
                + "'"@,
        ),
        SpanKeyView::Gate { tree: ft_name, id: g },
    )
}

/// Visit gate `g`: unless already visited, mark it on-path, walk its
/// inputs, then mark it finished. `fuel` bounds the depth.
pub open spec fn visit_gate(
    fuel: nat,
    ft_name: Seq<char>,
    gs: Seq<GateEntry>,
    g: Seq<char>,
    st: GateSearch,
) -> GateSearch
    decreases fuel, 0int,
{
    let gi = index_of(gate_entry_ids(gs), g);
    if fuel == 0 || gi >= gs.len() || gi >= st.colors.len() || st.colors[gi] != 0 {
        st
    } else {
        let st1 = GateSearch { colors: st.colors.update(gi, 1u8), out: st.out };
        let st2 = visit_inputs((fuel - 1) as nat, ft_name, gs, g, gs[gi].gate.inputs@, 0, st1);
        GateSearch { colors: st2.colors.update(gi, 2u8), out: st2.out }
    }
}

/// Walk inputs `i..` of gate `g`: an input gate on the current path closes
/// a cycle; an unvisited one is visited.
pub open spec fn visit_inputs(
    fuel: nat,
    ft_name: Seq<char>,
    gs: Seq<GateEntry>,
    g: Seq<char>,
    inputs: Seq<String>,
    i: int,
    st: GateSearch,
) -> GateSearch
    decreases fuel, inputs.len() - i,
{
    if i < 0 || i >= inputs.len() {
        st
    } else {
        let x = inputs[i]@;
        let xi = index_of(gate_entry_ids(gs), x);
        let st2 = if xi < gs.len() && xi < st.colors.len() {
            if st.colors[xi] == 1 {
                GateSearch { colors: st.colors, out: st.out.push(cycle_diag(ft_name, g, x)) }
            } else if st.colors[xi] == 0 {
                visit_gate(fuel, ft_name, gs, x, st)
            } else {
                st
            }
        } else {
            st
        };
        visit_inputs(fuel, ft_name, gs, g, inputs, i + 1, st2)
    }
}

/// V-403 for every cycle edge the search from the root gate meets.
pub open spec fn gate_cycle_diags(ft_name: Seq<char>, ft: FaultTree) -> Seq<DiagnosticView> {
    let gs = gates_of(ft);
    let root = ft.top_event.root_cause@;
    if ft.gates is Some && gate_ids(ft).contains(root) {
        visit_gate(
            gs.len(),
            ft_name,
            gs,
            root,
            GateSearch { colors: Seq::new(gs.len(), |i: int| 0u8), out: Seq::empty() },
        ).out
    } else {
        Seq::empty()
    }
}

fn search_gate(
    fuel: u64,
    ft_name: &str,
    gs: &Vec<GateEntry>,
    g: &str,
    colors: &mut Vec<u8>,
    out: &mut Vec<Diagnostic>,
)
    requires
        old(colors)@.len() == gs@.len(),
    ensures
        final(colors)@.len() == gs@.len(),
        ({
            let r = visit_gate(
                fuel as nat,
                ft_name@,
                gs@,
                g@,
                GateSearch { colors: old(colors)@, out: views(old(out)@) },
            );
            final(colors)@ == r.colors && views(final(out)@) == r.out
        }),
    decreases fuel,
{
    let gi = gate_position(gs, g);
    if fuel == 0 || gi >= gs.len() || colors[gi] != 0 {
        return ;
    }
    colors.set(gi, 1);
    let inputs = &gs[gi].gate.inputs;
    let ghost st1 = GateSearch { colors: colors@, out: views(out@) };
    let ghost f1 = (fuel - 1) as nat;
    let mut i: usize = 0;
    while i < inputs.len()
        invariant
            0 < fuel,
            f1 == (fuel - 1) as nat,
            gi < gs@.len(),
            inputs@ == gs@[gi as int].gate.inputs@,
            i <= inputs@.len(),
            colors@.len() == gs@.len(),
            visit_inputs(f1, ft_name@, gs@, g@, inputs@, 0, st1) == visit_inputs(
                f1,
                ft_name@,
                gs@,
                g@,
                inputs@,
                i as int,
                GateSearch { colors: colors@, out: views(out@) },
            ),
        decreases inputs.len() - i,
    {
        let x = inputs[i].as_str();
        let xi = gate_position(gs, x);
        if xi < gs.len() {
            if colors[xi] == 1 {
                let msg = cat7(
                    "fault tree '",
                    ft_name,
                    "': cycle detected involving gate '",
                    g,
                    "' -> '",
                    x,
                    "'",
                );
                let d = error_at("V-403", msg, SpanKey::Gate { tree: owned(ft_name), id: owned(g) });
                push_diag(out, d);
            } else if colors[xi] == 0 {
                search_gate(fuel - 1, ft_name, gs, x, colors, out);
            }
        }
        i = i + 1;
    }
    colors.set(gi, 2);
}

/// Report V-403 for every gate cycle a depth-first search from the root
/// gate meets, in the order the search meets them.
fn check_gate_cycles(ft_name: &str, ft: &FaultTree, diagnostics: &mut Vec<Diagnostic>)
    ensures
        views(final(diagnostics)@) == views(old(diagnostics)@) + gate_cycle_diags(ft_name@, *ft),
{
    let gs = match &ft.gates {
        Some(g) => g,
        None => {
            assert(views(diagnostics@) =~= views(old(diagnostics)@) + gate_cycle_diags(
                ft_name@,
                *ft,
            ));
            return ;
        },
    };
    let root = ft.top_event.root_cause.as_str();
    let ri = gate_position(gs, root);
    proof {
        lemma_index_of(gate_entry_ids(gs@), root@);
    }
    if ri >= gs.len() {
        assert(views(diagnostics@) =~= views(old(diagnostics)@) + gate_cycle_diags(ft_name@, *ft));
        return ;
    }
    let mut colors: Vec<u8> = Vec::new();
    let mut k: usize = 0;
    while k < gs.len()
        invariant
            k <= gs@.len(),
            colors@ == Seq::new(k as nat, |i: int| 0u8),
        decreases gs.len() - k,
    {
        colors.push(0);
        k = k + 1;
        assert(colors@ =~= Seq::new(k as nat, |i: int| 0u8));
    }
    let mut found: Vec<Diagnostic> = Vec::new();
    search_gate(gs.len() as u64, ft_name, gs, root, &mut colors, &mut found);
    assert(views(found@) == gate_cycle_diags(ft_name@, *ft)) by {
        assert(views(Seq::<Diagnostic>::empty()) =~= Seq::<DiagnosticView>::empty());
    }
    extend_diags(diagnostics, found);
}

// ---------------------------------------------------------------------------
// Unreachable elements (V-404)
// ---------------------------------------------------------------------------

/// Every id some gate lists as an input.
pub open spec fn input_ids(ft: FaultTree) -> Set<Seq<char>> {
    Set::new(
        |x: Seq<char>|
            exists|g: int, j: int|
                0 <= g < gates_of(ft).len() && 0 <= j < gates_of(ft)[g].gate.inputs@.len()
                    && #[trigger] gates_of(ft)[g].gate.inputs@[j]@ == x,
    )
}

/// The ids that are neither the root cause nor any gate's input.
pub open spec fn unreachable_ids(ft: FaultTree) -> Set<Seq<char>> {
    known_ids(ft).filter(
        |x: Seq<char>| x != ft.top_event.root_cause@ && !input_ids(ft).contains(x),
    )
}

/// The V-404 diagnostic for `id`, located at that gate or basic event.
pub open spec fn unreachable_diag(ft_name: Seq<char>, ft: FaultTree, id: Seq<char>) -> DiagnosticView {
    located(
        error_view(
            "V-404"@,
            "fault tree '"@ + ft_name + "': '"@ + id + "' is not reachable from topEvent.rootCause"@,
        ),
        if gate_ids(ft).contains(id) {
            SpanKeyView::Gate { tree: ft_name, id }
        } else {
            SpanKeyView::BasicEvent { tree: ft_name, id }
        },
    )
}

/// V-404 for every unreachable id, in increasing id order.
pub open spec fn unreachable_diags(ft_name: Seq<char>, ft: FaultTree) -> Seq<DiagnosticView> {
    sorted_seq(unreachable_ids(ft)).map_values(|id: Seq<char>| unreachable_diag(ft_name, ft, id))
}

/// Whether some gate lists `x` as an input.
fn is_input(ft: &FaultTree, x: &str) -> (b: bool)
    ensures
        b == input_ids(*ft).contains(x@),
{
    let gs = match &ft.gates {
        Some(g) => g,
        None => {
            return false;
        },
    };
    let mut g: usize = 0;
    while g < gs.len()
        invariant
            g <= gs@.len(),
            gs@ == gates_of(*ft),
            forall|a: int, j: int|
                0 <= a < g && 0 <= j < gs@[a].gate.inputs@.len() ==> #[trigger] gs@[a].gate.inputs@[j]@
                    != x@,
        decreases gs.len() - g,
    {
        let ins = &gs[g].gate.inputs;
        let mut j: usize = 0;
        while j < ins.len()
            invariant
                g < gs@.len(),
                gs@ == gates_of(*ft),
                ins@ == gs@[g as int].gate.inputs@,
                j <= ins@.len(),
                forall|b: int| 0 <= b < j ==> ins@[b]@ != x@,
            decreases ins.len() - j,
        {
            if same(ins[j].as_str(), x) {
                assert(gates_of(*ft)[g as int].gate.inputs@[j as int]@ == x@);
                assert(input_ids(*ft).contains(x@));
                return true;
            }
            j = j + 1;
        }
        g = g + 1;
    }
    false
}

/// The V-404 diagnostic for `id`.
fn unreachable_check(ft_name: &str, ft: &FaultTree, id: &str) -> (d: Diagnostic)
    ensures
        d@ == unreachable_diag(ft_name@, *ft, id@),
{
    let msg = cat5("fault tree '", ft_name, "': '", id, "' is not reachable from topEvent.rootCause");
    let is_gate = match &ft.gates {
        Some(gs) => gate_position(gs, id) < gs.len(),
        None => false,
    };
    proof {
        lemma_index_of(gate_ids(*ft), id@);
    }
    if is_gate {
        error_at("V-404", msg, SpanKey::Gate { tree: owned(ft_name), id: owned(id) })
    } else {
        error_at("V-404", msg, SpanKey::BasicEvent { tree: owned(ft_name), id: owned(id) })
    }
}

/// Report V-404 for every gate or basic event that is neither the root
/// cause nor an input of some gate, in increasing id order.
fn check_unreachable(ft_name: &str, ft: &FaultTree, diagnostics: &mut Vec<Diagnostic>)
    ensures
        views(final(diagnostics)@) == views(old(diagnostics)@) + unreachable_diags(ft_name@, *ft),
{
    let root = ft.top_event.root_cause.as_str();
    let ghost keep = |x: Seq<char>| x != root@ && !input_ids(*ft).contains(x);
    let mut ids: Vec<String> = Vec::new();
    let empty_gates: Vec<GateEntry> = Vec::new();
    let gs = match &ft.gates {
        Some(g) => g,
        None => &empty_gates,
    };
    assert(gs@ == gates_of(*ft));
    let mut i: usize = 0;
    while i < gs.len()
        invariant
            i <= gs@.len(),
            gs@ == gates_of(*ft),
            keep == (|x: Seq<char>| x != root@ && !input_ids(*ft).contains(x)),
            root@ == ft.top_event.root_cause@,
            strictly_sorted(string_views(ids@)),
            string_views(ids@).to_set() == gate_ids(*ft).take(i as int).to_set().filter(keep),
        decreases gs.len() - i,
    {
        let id = gs[i].id.as_str();
        let ghost before_set = string_views(ids@).to_set();
        if !same(id, root) && !is_input(ft, id) {
            insert_sorted(&mut ids, id);
        }
        proof {
            let t = gate_ids(*ft).take(i + 1);
            assert(t =~= gate_ids(*ft).take(i as int).push(id@));
            lemma_push_to_set(gate_ids(*ft).take(i as int), id@);
            assert(string_views(ids@).to_set() =~= t.to_set().filter(keep));
        }
        i = i + 1;
    }
    let bes = &ft.basic_events;
    proof {
        assert(gate_ids(*ft).take(gs@.len() as int) =~= gate_ids(*ft));
        assert(be_ids(*ft).take(0) =~= Seq::<Seq<char>>::empty());
        assert(string_views(ids@).to_set() =~= gate_ids(*ft).to_set().filter(keep) + be_ids(
            *ft,
        ).take(0).to_set().filter(keep));
    }
    let mut j: usize = 0;
    while j < bes.len()
        invariant
            j <= bes@.len(),
            bes@ == ft.basic_events@,
            keep == (|x: Seq<char>| x != root@ && !input_ids(*ft).contains(x)),
            root@ == ft.top_event.root_cause@,
            strictly_sorted(string_views(ids@)),
            string_views(ids@).to_set() == gate_ids(*ft).to_set().filter(keep) + be_ids(
                *ft,
            ).take(j as int).to_set().filter(keep),
        decreases bes.len() - j,
    {
        let id = bes[j].id.as_str();
        if !same(id, root) && !is_input(ft, id) {
            insert_sorted(&mut ids, id);
        }
        proof {
            let t = be_ids(*ft).take(j + 1);
            assert(t =~= be_ids(*ft).take(j as int).push(id@));
            lemma_push_to_set(be_ids(*ft).take(j as int), id@);
            assert(string_views(ids@).to_set() =~= gate_ids(*ft).to_set().filter(keep) + t.to_set().filter(keep));
        }
        j = j + 1;
    }
    proof {
        assert(be_ids(*ft).take(bes@.len() as int) =~= be_ids(*ft));
        assert(string_views(ids@).to_set() =~= unreachable_ids(*ft));
        lemma_is_sorted_seq(string_views(ids@));
    }
    let ghost order = string_views(ids@);
    let mut k: usize = 0;
    while k < ids.len()
        invariant
            k <= ids@.len(),
            order == string_views(ids@),
            order == sorted_seq(unreachable_ids(*ft)),
            views(diagnostics@) == views(old(diagnostics)@) + order.take(k as int).map_values(
                |id: Seq<char>| unreachable_diag(ft_name@, *ft, id),
            ),
        decreases ids.len() - k,
    {
        let d = unreachable_check(ft_name, ft, ids[k].as_str());
        push_diag(diagnostics, d);
        proof {
            assert(order.take(k + 1) =~= order.take(k as int).push(order[k as int]));
            assert(order.take(k + 1).map_values(|id: Seq<char>| unreachable_diag(ft_name@, *ft, id))
                =~= order.take(k as int).map_values(|id: Seq<char>| unreachable_diag(ft_name@, *ft, id)).push(
                unreachable_diag(ft_name@, *ft, order[k as int]),
            ));
        }
        k = k + 1;
    }
    assert(order.take(ids@.len() as int) =~= order);
}

// ---------------------------------------------------------------------------
// Transfers (V-506, W-405)
// ---------------------------------------------------------------------------

/// The names of the document's fault trees.
pub open spec fn fault_tree_names(doc: Document) -> Seq<Seq<char>> {
    match doc.fault_trees {
        Some(fts) => fts@.map_values(|e: FaultTreeEntry| e.name@),
        None => Seq::empty(),
    }
}

/// A diagnostic located at field `field` of transfer `id`.
pub open spec fn at_transfer(
    d: DiagnosticView,
    ft_name: Seq<char>,
    id: Seq<char>,
    field: Seq<char>,
) -> DiagnosticView {
    located(d, SpanKeyView::Transfer { tree: ft_name, id, field })
}

/// The fault tree a transfer target names: the first segment after
/// `/faultTrees/`, once leading `#`s are dropped.
pub open spec fn transfer_tree(target: Seq<char>) -> Seq<char> {
    before(strip_all(strip_all(target, "#"@), "/faultTrees/"@), '/')
}

/// The diagnostics transfer `id` gives: V-506 when its target is not an
/// internal `#/faultTrees/...` reference or names a fault tree the
/// document lacks, W-405 when its label is blank.
pub open spec fn transfer_diags(
    doc: Document,
    ft_name: Seq<char>,
    id: Seq<char>,
    t: Transfer,
) -> Seq<DiagnosticView> {
    let target = strip_all(t.target@, "#"@);
    (if !starts_with(target, "/faultTrees/"@) {
        seq![
            at_transfer(
                error_view(
                    "V-506"@,
                    "fault tree '"@ + ft_name + "': transfer '"@ + id + "' target '"@ + t.target@
                        + "' must be an Internal Reference of the form '#/faultTrees/<id>/...'"@,
                ),
                ft_name,
                id,
                "target"@,
            ),
        ]
    } else if fault_tree_names(doc).contains(transfer_tree(t.target@)) {
        Seq::empty()
    } else {
        seq![
            at_transfer(
                error_view(
                    "V-506"@,
                    "fault tree '"@ + ft_name + "': transfer '"@ + id + "' target '"@ + t.target@
                        + "' references fault tree '"@ + transfer_tree(t.target@)
                        + "' which does not exist in this document"@,
                ),
                ft_name,
                id,
                "target"@,
            ),
        ]
    }) + match t.label {
        Some(l) => if trim(l@).len() == 0 {
            seq![
                at_transfer(
                    warning_view(
                        "W-405"@,
                        "fault tree '"@ + ft_name + "': transfer '"@ + id + "' has an empty label"@,
                    ),
                    ft_name,
                    id,
                    "label"@,
                ),
            ]
        } else {
            Seq::empty()
        },
        None => Seq::empty(),
    }
}

/// The transfers of a fault tree (none when it declares no `transfers`).
pub open spec fn transfers_of(ft: FaultTree) -> Seq<TransferEntry> {
    match ft.transfers {
        Some(ts) => ts@,
        None => Seq::empty(),
    }
}

/// The diagnostics of every transfer of `ft`, in order.
pub open spec fn transfer_rules(doc: Document, ft_name: Seq<char>, ft: FaultTree) -> Seq<
    DiagnosticView,
> {
    transfers_of(ft).flat_map(|e: TransferEntry| transfer_diags(doc, ft_name, e.id@, e.transfer))
}

/// Whether the document has a fault tree named `name`.
fn has_fault_tree(doc: &Document, name: &str) -> (b: bool)
    ensures
        b == fault_tree_names(*doc).contains(name@),
{
    let fts = match &doc.fault_trees {
        Some(f) => f,
        None => {
            return false;
        },
    };
    let mut i: usize = 0;
    while i < fts.len()
        invariant
            i <= fts@.len(),
            fault_tree_names(*doc) == fts@.map_values(|e: FaultTreeEntry| e.name@),
            forall|j: int| 0 <= j < i ==> fts@[j].name@ != name@,
        decreases fts.len() - i,
    {
        if same(fts[i].name.as_str(), name) {
            assert(fault_tree_names(*doc)[i as int] == name@);
            return true;
        }
        i = i + 1;
    }
    false
}

fn transfer_key(ft: &str, id: &str, field: &str) -> (k: SpanKey)
    ensures
        k@ == (SpanKeyView::Transfer { tree: ft@, id: id@, field: field@ }),
{
    SpanKey::Transfer { tree: owned(ft), id: owned(id), field: owned(field) }
}

fn transfer_check(doc: &Document, ft_name: &str, id: &str, t: &Transfer) -> (r: Vec<Diagnostic>)
    ensures
        views(r@) == transfer_diags(*doc, ft_name@, id@, *t),
{
    let mut out: Vec<Diagnostic> = Vec::new();
    let target_text = t.target.as_str();
    proof {
        reveal_strlit("#");
        reveal_strlit("/faultTrees/");
    }
    let target = strip_all_prefix(target_text, "#");
    if !has_prefix(target, "/faultTrees/") {
        let msg = cat7("fault tree '", ft_name, "': transfer '", id, "' target '", target_text,
            "' must be an Internal Reference of the form '#/faultTrees/<id>/...'");
        push_diag(&mut out, error_at("V-506", msg, transfer_key(ft_name, id, "target")));
    } else {
        let tree_id = before_char(strip_all_prefix(target, "/faultTrees/"), '/');
        if !has_fault_tree(doc, tree_id) {
            let msg = cat7("fault tree '", ft_name, "': transfer '", id, "' target '", target_text,
                "' references fault tree '").concat(tree_id).concat(
                "' which does not exist in this document",
            );
            push_diag(&mut out, error_at("V-506", msg, transfer_key(ft_name, id, "target")));
        }
    }
    let ghost head = views(out@);
    match &t.label {
        Some(l) => {
            if is_blank(l.as_str()) {
                let msg = cat5("fault tree '", ft_name, "': transfer '", id, "' has an empty label");
                push_diag(&mut out, warning_at("W-405", msg, transfer_key(ft_name, id, "label")));
            }
        },
        None => {},
    }
    assert(views(out@) =~= transfer_diags(*doc, ft_name@, id@, *t));
    out
}

/// Check every transfer of `ft`: V-506 a target that is not an internal
/// `#/faultTrees/<id>/...` reference or names a fault tree the document
/// lacks, W-405 a blank label.
fn check_transfers(doc: &Document, ft_name: &str, ft: &FaultTree, diagnostics: &mut Vec<Diagnostic>)
    ensures
        views(final(diagnostics)@) == views(old(diagnostics)@) + transfer_rules(*doc, ft_name@, *ft),
{
    let ts = match &ft.transfers {
        Some(t) => t,
        None => {
            assert(views(diagnostics@) =~= views(old(diagnostics)@) + transfer_rules(
                *doc,
                ft_name@,
                *ft,
            ));
            return ;
        },
    };
    let ghost f = |e: TransferEntry| transfer_diags(*doc, ft_name@, e.id@, e.transfer);
    proof {
        lemma_flat_map_empty(ts@, f);
    }
    let mut i: usize = 0;
    while i < ts.len()
        invariant
            i <= ts@.len(),
            ts@ == transfers_of(*ft),
            f == (|e: TransferEntry| transfer_diags(*doc, ft_name@, e.id@, e.transfer)),
            views(diagnostics@) == views(old(diagnostics)@) + ts@.take(i as int).flat_map(f),
        decreases ts.len() - i,
    {
        let e = &ts[i];
        let more = transfer_check(doc, ft_name, e.id.as_str(), &e.transfer);
        extend_diags(diagnostics, more);
        proof {
            lemma_flat_map_step(ts@, f, i as int);
        }
        i = i + 1;
    }
    proof {
        lemma_take_all(ts@);
    }
}

// ---------------------------------------------------------------------------
// The whole structure check
// ---------------------------------------------------------------------------

/// The diagnostics of the structure check of fault tree `ft_name`, in the
/// order they are reported.
pub open spec fn structure_diags(doc: Document, ft_name: Seq<char>, ft: FaultTree) -> Seq<
    DiagnosticView,
> {
    shared_id_diags(ft_name, ft, ft.basic_events@.len() as int) + ft.basic_events@.flat_map(
        |e: BasicEventEntry| house_diag(ft_name, e),
    ) + root_diags(ft_name, ft) + gate_input_diags(ft_name, ft) + gate_cycle_diags(ft_name, ft)
        + unreachable_diags(ft_name, ft) + transfer_rules(doc, ft_name, ft)
}

/// Whether one of the first `n` basic events has id `x`.
fn be_among(bes: &Vec<BasicEventEntry>, n: usize, x: &str) -> (b: bool)
    requires
        n <= bes@.len(),
    ensures
        b == bes@.map_values(|e: BasicEventEntry| e.id@).take(n as int).contains(x@),
{
    let ghost ids = bes@.map_values(|e: BasicEventEntry| e.id@);
    let mut i: usize = 0;
    while i < n
        invariant
            n <= bes@.len(),
            i <= n,
            ids == bes@.map_values(|e: BasicEventEntry| e.id@),
            forall|j: int| 0 <= j < i ==> ids[j] != x@,
        decreases n - i,
    {
        if same(bes[i].id.as_str(), x) {
            assert(ids.take(n as int)[i as int] == x@);
            return true;
        }
        i = i + 1;
    }
    false
}

/// Whether `x` names a gate or basic event of `ft`.
fn is_known(ft: &FaultTree, x: &str) -> (b: bool)
    ensures
        b == known_ids(*ft).contains(x@),
{
    let in_gates = match &ft.gates {
        Some(gs) => gate_position(gs, x) < gs.len(),
        None => false,
    };
    proof {
        lemma_index_of(gate_ids(*ft), x@);
    }
    let in_bes = be_among(&ft.basic_events, ft.basic_events.len(), x);
    proof {
        assert(be_ids(*ft).take(ft.basic_events@.len() as int) =~= be_ids(*ft));
    }
    in_gates || in_bes
}

fn check_shared_ids(ft_name: &str, ft: &FaultTree, diagnostics: &mut Vec<Diagnostic>)
    ensures
        views(final(diagnostics)@) == views(old(diagnostics)@) + shared_id_diags(
            ft_name@,
            *ft,
            ft.basic_events@.len() as int,
        ),
{
    let bes = &ft.basic_events;
    let mut i: usize = 0;
    while i < bes.len()
        invariant
            i <= bes@.len(),
            bes@ == ft.basic_events@,
            views(diagnostics@) == views(old(diagnostics)@) + shared_id_diags(
                ft_name@,
                *ft,
                i as int,
            ),
        decreases bes.len() - i,
    {
        let id = bes[i].id.as_str();
        let in_gates = match &ft.gates {
            Some(gs) => gate_position(gs, id) < gs.len(),
            None => false,
        };
        proof {
            lemma_index_of(gate_ids(*ft), id@);
        }
        if in_gates || be_among(bes, i, id) {
            let msg = cat5("fault tree '", ft_name, "': gate and basic event share ID '", id, "'");
            push_diag(
                diagnostics,
                error_at("V-402", msg, SpanKey::BasicEvent { tree: owned(ft_name), id: owned(id) }),
            );
        }
        proof {
            assert(be_ids(*ft)[i as int] == id@);
        }
        i = i + 1;
    }
}

fn check_house_events(ft_name: &str, ft: &FaultTree, diagnostics: &mut Vec<Diagnostic>)
    ensures
        views(final(diagnostics)@) == views(old(diagnostics)@) + ft.basic_events@.flat_map(
            |e: BasicEventEntry| house_diag(ft_name@, e),
        ),
{
    let bes = &ft.basic_events;
    let ghost f = |e: BasicEventEntry| house_diag(ft_name@, e);
    proof {
        lemma_flat_map_empty(bes@, f);
    }
    let mut i: usize = 0;
    while i < bes.len()
        invariant
            i <= bes@.len(),
            bes@ == ft.basic_events@,
            f == (|e: BasicEventEntry| house_diag(ft_name@, e)),
            views(diagnostics@) == views(old(diagnostics)@) + bes@.take(i as int).flat_map(f),
        decreases bes.len() - i,
    {
        let e = &bes[i];
        let ghost before_ds = views(diagnostics@);
        if e.event.is_house && (e.event.probability.is_some() || e.event.failure_rate.is_some()) {
            let msg = cat5("fault tree '", ft_name, "': house event '", e.id.as_str(),
                "' declares a probability/failureRate; house events are boundary conditions and their value is not a computed leaf probability");
            push_diag(
                diagnostics,
                warning_at(
                    "W-406",
                    msg,
                    SpanKey::BasicEvent { tree: owned(ft_name), id: owned(e.id.as_str()) },
                ),
            );
        }
        proof {
            assert(views(diagnostics@) =~= before_ds + f(bes@[i as int]));
            lemma_flat_map_step(bes@, f, i as int);
        }
        i = i + 1;
    }
    proof {
        lemma_take_all(bes@);
    }
}

fn check_gate_inputs(ft_name: &str, ft: &FaultTree, diagnostics: &mut Vec<Diagnostic>)
    ensures
        views(final(diagnostics)@) == views(old(diagnostics)@) + gate_input_diags(ft_name@, *ft),
{
    let empty_gates: Vec<GateEntry> = Vec::new();
    let gs = match &ft.gates {
        Some(g) => g,
        None => &empty_gates,
    };
    let ghost known = known_ids(*ft);
    let ghost f = |e: GateEntry|
        input_diags(ft_name@, known, e.id@, e.gate.inputs@, e.gate.inputs@.len() as int);
    proof {
        lemma_flat_map_empty(gs@, f);
    }
    let mut g: usize = 0;
    while g < gs.len()
        invariant
            g <= gs@.len(),
            gs@ == gates_of(*ft),
            known == known_ids(*ft),
            f == (|e: GateEntry|
                input_diags(ft_name@, known, e.id@, e.gate.inputs@, e.gate.inputs@.len() as int)),
            views(diagnostics@) == views(old(diagnostics)@) + gs@.take(g as int).flat_map(f),
        decreases gs.len() - g,
    {
        let gid = gs[g].id.as_str();
        let ins = &gs[g].gate.inputs;
        let ghost base = views(diagnostics@);
        let mut j: usize = 0;
        while j < ins.len()
            invariant
                j <= ins@.len(),
                known == known_ids(*ft),
                views(diagnostics@) == base + input_diags(ft_name@, known, gid@, ins@, j as int),
            decreases ins.len() - j,
        {
            let x = ins[j].as_str();
            if !is_known(ft, x) {
                let msg = cat7("fault tree '", ft_name, "': gate '", gid, "' input '", x,
                    "' does not resolve");
                push_diag(
                    diagnostics,
                    error_at(
                        "V-401",
                        msg,
                        SpanKey::GateInput { tree: owned(ft_name), id: owned(gid), idx: j },
                    ),
                );
            }
            proof {
                assert(ins@[j as int]@ == x@);
            }
            j = j + 1;
        }
        proof {
            assert(f(gs@[g as int]) == input_diags(ft_name@, known, gid@, ins@, ins@.len() as int));
            lemma_flat_map_step(gs@, f, g as int);
        }
        g = g + 1;
    }
    proof {
        lemma_take_all(gs@);
    }
}

/// Check the structure of fault tree `ft_name`: V-402 a basic event id
/// shared with a gate (or repeated), W-406 a house event with a value,
/// V-401 an unresolved root cause or gate input, V-403 gate cycles, V-404
/// unreachable gates and basic events (in id order), and the transfer rules.
pub fn check_fault_tree_structure(
    doc: &Document,
    ft_name: &str,
    ft: &FaultTree,
    diagnostics: &mut Vec<Diagnostic>,
)
    ensures
        views(final(diagnostics)@) == views(old(diagnostics)@) + structure_diags(
            *doc,
            ft_name@,
            *ft,
        ),
{
    let ghost d0 = views(diagnostics@);
    check_shared_ids(ft_name, ft, diagnostics);
    check_house_events(ft_name, ft, diagnostics);
    let root = ft.top_event.root_cause.as_str();
    if !is_known(ft, root) {
        let msg = cat5("fault tree '", ft_name, "': topEvent.rootCause '", root,
            "' does not resolve to a gate or basic event");
        push_diag(
            diagnostics,
            error_at(
                "V-401",
                msg,
                SpanKey::TopEvent { tree: owned(ft_name), field: owned("root_cause") },
            ),
        );
    }
    check_gate_inputs(ft_name, ft, diagnostics);
    check_gate_cycles(ft_name, ft, diagnostics);
    check_unreachable(ft_name, ft, diagnostics);
    check_transfers(doc, ft_name, ft, diagnostics);
    assert(views(diagnostics@) =~= d0 + structure_diags(*doc, ft_name@, *ft));
}

/// The diagnostics of every fault tree: structure, gate rules and
/// basic-event rules, tree by tree.
pub open spec fn fault_tree_diags(doc: Document) -> Seq<DiagnosticView> {
    match doc.fault_trees {
        Some(fts) => fts@.flat_map(
            |e: FaultTreeEntry|
                structure_diags(doc, e.name@, e.tree) + gate_rules(e.name@, e.tree)
                    + basic_event_rules(e.name@, e.tree),
        ),
        None => Seq::empty(),
    }
}

/// Validate every fault tree of the document.
pub fn validate_fault_trees(doc: &Document, diagnostics: &mut Vec<Diagnostic>)
    ensures
        views(final(diagnostics)@) == views(old(diagnostics)@) + fault_tree_diags(*doc),
{
    let fts = match &doc.fault_trees {
        Some(f) => f,
        None => {
            assert(views(diagnostics@) =~= views(old(diagnostics)@) + fault_tree_diags(*doc));
            return ;
        },
    };
    let ghost f = |e: FaultTreeEntry|
        structure_diags(*doc, e.name@, e.tree) + gate_rules(e.name@, e.tree) + basic_event_rules(
            e.name@,
            e.tree,
        );
    proof {
        lemma_flat_map_empty(fts@, f);
    }
    let mut i: usize = 0;
    while i < fts.len()
        invariant
            i <= fts@.len(),
            doc.fault_trees == Some(*fts),
            f == (|e: FaultTreeEntry|
                structure_diags(*doc, e.name@, e.tree) + gate_rules(e.name@, e.tree)
                    + basic_event_rules(e.name@, e.tree)),
            views(diagnostics@) == views(old(diagnostics)@) + fts@.take(i as int).flat_map(f),
        decreases fts.len() - i,
    {
        let e = &fts[i];
        let ghost base = views(diagnostics@);
        check_fault_tree_structure(doc, e.name.as_str(), &e.tree, diagnostics);
        check_gate_rules(e.name.as_str(), &e.tree, diagnostics);
        check_basic_event_rules(e.name.as_str(), &e.tree, diagnostics);
        proof {
            assert(views(diagnostics@) =~= base + f(fts@[i as int]));
            lemma_flat_map_step(fts@, f, i as int);
        }
        i = i + 1;
    }
    proof {
        lemma_take_all(fts@);
    }
}

} // verus!
