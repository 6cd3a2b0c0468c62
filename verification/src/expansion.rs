//! Applying a library expansion: the document with every library gate and
//! basic event its fault trees take in added under its qualified id, at its
//! place in id order.

use vstd::prelude::*;
use crate::fault_rules::gates_of;
use crate::libraries::{
    definition, insertion_point, splice_views, string_seq, CatalogEntry, Splice, SpliceItem,
    SpliceView,
};
use crate::model::{
    BasicEvent, BasicEventEntry, Document, ExternalRef, FaultTree, FaultTreeEntry, Gate,
    GateEntry, Measure, MessageRef, gate_entry_ids,
};
use crate::reliability::opt_view;
use crate::text::{less_than, owned};

verus! {

/// The same gate: type, inputs (by value), `k` and inhibit condition.
pub open spec fn same_gate(a: Gate, b: Gate) -> bool {
    &&& a.gate_type == b.gate_type
    &&& string_seq(a.inputs@) == string_seq(b.inputs@)
    &&& a.k == b.k
    &&& a.has_inhibit_condition == b.has_inhibit_condition
}

pub open spec fn same_measure(a: Option<Measure>, b: Option<Measure>) -> bool {
    match (a, b) {
        (None, None) => true,
        (Some(x), Some(y)) => {
            &&& x.text@ == y.text@
            &&& x.finite == y.finite
            &&& x.negative == y.negative
            &&& x.positive == y.positive
            &&& x.above_one == y.above_one
            &&& x.below_one == y.below_one
        },
        _ => false,
    }
}

pub open spec fn same_message(a: Option<MessageRef>, b: Option<MessageRef>) -> bool {
    match (a, b) {
        (None, None) => true,
        (Some(MessageRef::External(x)), Some(MessageRef::External(y))) => x.alias@ == y.alias@
            && x.pointer@ == y.pointer@,
        (Some(MessageRef::Internal(x)), Some(MessageRef::Internal(y))) => x@ == y@,
        _ => false,
    }
}

/// The same basic event, field by field by value.
pub open spec fn same_event(a: BasicEvent, b: BasicEvent) -> bool {
    &&& same_measure(a.probability, b.probability)
    &&& same_measure(a.failure_rate, b.failure_rate)
    &&& same_measure(a.mission_time, b.mission_time)
    &&& a.is_house == b.is_house
    &&& same_message(a.message, b.message)
    &&& a.declares_reliability_source == b.declares_reliability_source
    &&& opt_view(a.reliability_source) == opt_view(b.reliability_source)
    &&& opt_view(a.reliability_estimate) == opt_view(b.reliability_estimate)
}

/// Where an entry of an expanded tree comes from: the tree's own entry at
/// a position, or a library definition's entry (catalog entry, position).
pub enum Origin {
    Own(int),
    Library(int, int),
}

/// An entry of an expanded tree: its id and where its definition comes from.
pub struct Placed {
    pub id: Seq<char>,
    pub origin: Origin,
}

pub open spec fn placed_ids(ps: Seq<Placed>) -> Seq<Seq<char>> {
    ps.map_values(|p: Placed| p.id)
}

/// `ps` with `p` inserted at its place in id order.
pub open spec fn place(ps: Seq<Placed>, p: Placed) -> Seq<Placed> {
    ps.insert(insertion_point(placed_ids(ps), p.id), p)
}

pub open spec fn own_gates(ft: FaultTree) -> Seq<Placed> {
    Seq::new(gates_of(ft).len(), |i: int| Placed { id: gates_of(ft)[i].id@, origin: Origin::Own(i) })
}

pub open spec fn own_events(ft: FaultTree) -> Seq<Placed> {
    Seq::new(
        ft.basic_events@.len(),
        |i: int| Placed { id: ft.basic_events@[i].id@, origin: Origin::Own(i) },
    )
}

/// Catalog entry `e` loaded, and its library has a gate at position `g`.
pub open spec fn library_gate_exists(cat: Seq<CatalogEntry>, e: int, g: int) -> bool {
    0 <= e < cat.len() && cat[e].loaded is Ok && 0 <= g < definition(cat, e).gates@.len()
}

pub open spec fn library_event_exists(cat: Seq<CatalogEntry>, e: int, b: int) -> bool {
    0 <= e < cat.len() && cat[e].loaded is Ok && 0 <= b < definition(cat, e).basic_events@.len()
}

/// The gates of `ft` after taking in the gates of `plan`, in order; a
/// splice naming no library gate is passed over.
pub open spec fn gate_layout(ft: FaultTree, cat: Seq<CatalogEntry>, plan: Seq<SpliceView>) -> Seq<Placed>
    decreases plan.len(),
{
    if plan.len() == 0 {
        own_gates(ft)
    } else {
        let rest = gate_layout(ft, cat, plan.drop_last());
        let s = plan.last();
        match s.item {
            SpliceItem::Gate(g) => if library_gate_exists(cat, s.entry, g as int) {
                place(rest, Placed { id: s.id, origin: Origin::Library(s.entry, g as int) })
            } else {
                rest
            },
            SpliceItem::BasicEvent(_) => rest,
        }
    }
}

/// The basic events of `ft` after taking in the basic events of `plan`.
pub open spec fn event_layout(ft: FaultTree, cat: Seq<CatalogEntry>, plan: Seq<SpliceView>) -> Seq<Placed>
    decreases plan.len(),
{
    if plan.len() == 0 {
        own_events(ft)
    } else {
        let rest = event_layout(ft, cat, plan.drop_last());
        let s = plan.last();
        match s.item {
            SpliceItem::BasicEvent(b) => if library_event_exists(cat, s.entry, b as int) {
                place(rest, Placed { id: s.id, origin: Origin::Library(s.entry, b as int) })
            } else {
                rest
            },
            SpliceItem::Gate(_) => rest,
        }
    }
}

pub open spec fn origin_gate(ft: FaultTree, cat: Seq<CatalogEntry>, o: Origin) -> Gate {
    match o {
        Origin::Own(i) => gates_of(ft)[i].gate,
        Origin::Library(e, g) => definition(cat, e).gates@[g].gate,
    }
}

pub open spec fn origin_event(ft: FaultTree, cat: Seq<CatalogEntry>, o: Origin) -> BasicEvent {
    match o {
        Origin::Own(i) => ft.basic_events@[i].event,
        Origin::Library(e, b) => definition(cat, e).basic_events@[b].event,
    }
}

/// `gs` holds, position by position, the gates `layout` places.
pub open spec fn gates_match(gs: Seq<GateEntry>, layout: Seq<Placed>, ft: FaultTree, cat: Seq<CatalogEntry>) -> bool {
    &&& gs.len() == layout.len()
    &&& forall|k: int|
        0 <= k < gs.len() ==> (#[trigger] gs[k]).id@ == layout[k].id && same_gate(
            gs[k].gate,
            origin_gate(ft, cat, layout[k].origin),
        )
}

pub open spec fn events_match(es: Seq<BasicEventEntry>, layout: Seq<Placed>, ft: FaultTree, cat: Seq<CatalogEntry>) -> bool {
    &&& es.len() == layout.len()
    &&& forall|k: int|
        0 <= k < es.len() ==> (#[trigger] es[k]).id@ == layout[k].id && same_event(
            es[k].event,
            origin_event(ft, cat, layout[k].origin),
        )
}

/// `new` is `old` with what `plan` takes in from the catalog's libraries.
/// Gates stay absent when the tree declared none and took none in.
pub open spec fn tree_expanded(old: FaultTree, new: FaultTree, cat: Seq<CatalogEntry>, plan: Seq<SpliceView>) -> bool {
    &&& new.top_event == old.top_event
    &&& new.transfers == old.transfers
    &&& gates_match(gates_of(new), gate_layout(old, cat, plan), old, cat)
    &&& (new.gates is None <==> (old.gates is None && gate_layout(old, cat, plan).len() == 0))
    &&& events_match(new.basic_events@, event_layout(old, cat, plan), old, cat)
}

/// The plan of the `k`-th fault tree: none beyond the plans given.
pub open spec fn plan_for(splices: Seq<Vec<Splice>>, k: int) -> Seq<SpliceView> {
    if 0 <= k < splices.len() {
        splice_views(splices[k]@)
    } else {
        Seq::empty()
    }
}

/// `new` is `old` with each fault tree expanded by its plan and everything
/// else as it was.
pub open spec fn document_expanded(old: Document, new: Document, cat: Seq<CatalogEntry>, splices: Seq<Vec<Splice>>) -> bool {
    &&& new.etdl == old.etdl
    &&& new.supplements == old.supplements
    &&& new.libraries == old.libraries
    &&& new.asyncapi_aliases == old.asyncapi_aliases
    &&& new.component_messages == old.component_messages
    &&& new.event_trees == old.event_trees
    &&& (new.fault_trees is Some <==> old.fault_trees is Some)
    &&& (old.fault_trees is Some ==> {
        let o = old.fault_trees->Some_0@;
        let n = new.fault_trees->Some_0@;
        &&& n.len() == o.len()
        &&& forall|k: int|
            0 <= k < n.len() ==> (#[trigger] n[k]).name == o[k].name && tree_expanded(
                o[k].tree,
                n[k].tree,
                cat,
                plan_for(splices, k),
            )
    })
}

fn copy_strings(xs: &Vec<String>) -> (r: Vec<String>)
    ensures
        string_seq(r@) == string_seq(xs@),
{
    let mut r: Vec<String> = Vec::new();
    let mut i: usize = 0;
    while i < xs.len()
        invariant
            i <= xs@.len(),
            string_seq(r@) == string_seq(xs@.take(i as int)),
        decreases xs.len() - i,
    {
        let ghost before = r@;
        r.push(owned(xs[i].as_str()));
        assert(string_seq(r@) =~= string_seq(before).push(xs@[i as int]@));
        assert(string_seq(xs@.take(i as int + 1)) =~= string_seq(xs@.take(i as int)).push(xs@[i as int]@));
        i = i + 1;
    }
    assert(xs@.take(xs@.len() as int) =~= xs@);
    r
}

fn copy_gate(g: &Gate) -> (c: Gate)
    ensures
        same_gate(c, *g),
{
    Gate {
        gate_type: g.gate_type,
        inputs: copy_strings(&g.inputs),
        k: g.k,
        has_inhibit_condition: g.has_inhibit_condition,
    }
}

fn copy_measure(m: &Option<Measure>) -> (c: Option<Measure>)
    ensures
        same_measure(c, *m),
{
    match m {
        Some(x) => Some(
            Measure {
                text: owned(x.text.as_str()),
                finite: x.finite,
                negative: x.negative,
                positive: x.positive,
                above_one: x.above_one,
                below_one: x.below_one,
            },
        ),
        None => None,
    }
}

fn copy_message(m: &Option<MessageRef>) -> (c: Option<MessageRef>)
    ensures
        same_message(c, *m),
{
    match m {
        Some(MessageRef::External(x)) => Some(
            MessageRef::External(ExternalRef { alias: owned(x.alias.as_str()), pointer: owned(x.pointer.as_str()) }),
        ),
        Some(MessageRef::Internal(x)) => Some(MessageRef::Internal(owned(x.as_str()))),
        None => None,
    }
}

fn copy_text(o: &Option<String>) -> (c: Option<String>)
    ensures
        opt_view(c) == opt_view(*o),
{
    match o {
        Some(s) => Some(owned(s.as_str())),
        None => None,
    }
}

fn copy_event(e: &BasicEvent) -> (c: BasicEvent)
    ensures
        same_event(c, *e),
{
    BasicEvent {
        probability: copy_measure(&e.probability),
        failure_rate: copy_measure(&e.failure_rate),
        mission_time: copy_measure(&e.mission_time),
        is_house: e.is_house,
        message: copy_message(&e.message),
        declares_reliability_source: e.declares_reliability_source,
        reliability_source: copy_text(&e.reliability_source),
        reliability_estimate: copy_text(&e.reliability_estimate),
    }
}

pub open spec fn event_entry_ids(es: Seq<BasicEventEntry>) -> Seq<Seq<char>> {
    es.map_values(|e: BasicEventEntry| e.id@)
}

/// Where `id` goes among `ids`, scanning while the ids sort before it.
fn insertion_index(ids: &Vec<&str>, id: &str) -> (r: usize)
    ensures
        r == insertion_point(ids@.map_values(|s: &str| s@), id@),
        r <= ids@.len(),
{
    let ghost v = ids@.map_values(|s: &str| s@);
    let mut i: usize = 0;
    assert(v.skip(0) =~= v);
    while i < ids.len() && less_than(ids[i], id)
        invariant
            i <= ids@.len(),
            v == ids@.map_values(|s: &str| s@),
            insertion_point(v, id@) == i + insertion_point(v.skip(i as int), id@),
        decreases ids.len() - i,
    {
        proof {
            let t = v.skip(i as int);
            assert(t[0] == v[i as int]);
            assert(t.drop_first() =~= v.skip(i as int + 1));
        }
        i = i + 1;
    }
    proof {
        let t = v.skip(i as int);
        if i < ids.len() {
            assert(t[0] == v[i as int]);
        } else {
            assert(t.len() == 0);
        }
    }
    i
}

fn gate_ids<'a>(gs: &'a Vec<GateEntry>) -> (r: Vec<&'a str>)
    ensures
        r@.map_values(|s: &str| s@) == gate_entry_ids(gs@),
{
    let mut r: Vec<&str> = Vec::new();
    let mut i: usize = 0;
    while i < gs.len()
        invariant
            i <= gs@.len(),
            r@.map_values(|s: &str| s@) == gate_entry_ids(gs@.take(i as int)),
        decreases gs.len() - i,
    {
        let ghost before = r@;
        r.push(gs[i].id.as_str());
        assert(r@.map_values(|s: &str| s@) =~= before.map_values(|s: &str| s@).push(gs@[i as int].id@));
        assert(gate_entry_ids(gs@.take(i as int + 1)) =~= gate_entry_ids(gs@.take(i as int)).push(
            gs@[i as int].id@,
        ));
        i = i + 1;
    }
    assert(gs@.take(gs@.len() as int) =~= gs@);
    r
}

fn event_ids<'a>(es: &'a Vec<BasicEventEntry>) -> (r: Vec<&'a str>)
    ensures
        r@.map_values(|s: &str| s@) == event_entry_ids(es@),
{
    let mut r: Vec<&str> = Vec::new();
    let mut i: usize = 0;
    while i < es.len()
        invariant
            i <= es@.len(),
            r@.map_values(|s: &str| s@) == event_entry_ids(es@.take(i as int)),
        decreases es.len() - i,
    {
        let ghost before = r@;
        r.push(es[i].id.as_str());
        assert(r@.map_values(|s: &str| s@) =~= before.map_values(|s: &str| s@).push(es@[i as int].id@));
        assert(event_entry_ids(es@.take(i as int + 1)) =~= event_entry_ids(es@.take(i as int)).push(
            es@[i as int].id@,
        ));
        i = i + 1;
    }
    assert(es@.take(es@.len() as int) =~= es@);
    r
}

proof fn lemma_place_gate(
    gs: Seq<GateEntry>,
    layout: Seq<Placed>,
    ft: FaultTree,
    cat: Seq<CatalogEntry>,
    c: GateEntry,
    p: Placed,
)
    requires
        gates_match(gs, layout, ft, cat),
        c.id@ == p.id,
        same_gate(c.gate, origin_gate(ft, cat, p.origin)),
    ensures
        gate_entry_ids(gs) == placed_ids(layout),
        gates_match(
            gs.insert(insertion_point(placed_ids(layout), p.id), c),
            place(layout, p),
            ft,
            cat,
        ),
{
    assert(gate_entry_ids(gs) =~= placed_ids(layout));
    lemma_insertion_point_bound(placed_ids(layout), p.id);
    let k = insertion_point(placed_ids(layout), p.id);
    let g2 = gs.insert(k, c);
    let l2 = place(layout, p);
    assert forall|j: int| 0 <= j < g2.len() implies (#[trigger] g2[j]).id@ == l2[j].id && same_gate(
        g2[j].gate,
        origin_gate(ft, cat, l2[j].origin),
    ) by {
        if j < k {
            assert(g2[j] == gs[j] && l2[j] == layout[j]);
        } else if j > k {
            assert(g2[j] == gs[j - 1] && l2[j] == layout[j - 1]);
        }
    }
}

proof fn lemma_place_event(
    es: Seq<BasicEventEntry>,
    layout: Seq<Placed>,
    ft: FaultTree,
    cat: Seq<CatalogEntry>,
    c: BasicEventEntry,
    p: Placed,
)
    requires
        events_match(es, layout, ft, cat),
        c.id@ == p.id,
        same_event(c.event, origin_event(ft, cat, p.origin)),
    ensures
        event_entry_ids(es) == placed_ids(layout),
        events_match(
            es.insert(insertion_point(placed_ids(layout), p.id), c),
            place(layout, p),
            ft,
            cat,
        ),
{
    assert(event_entry_ids(es) =~= placed_ids(layout));
    lemma_insertion_point_bound(placed_ids(layout), p.id);
    let k = insertion_point(placed_ids(layout), p.id);
    let e2 = es.insert(k, c);
    let l2 = place(layout, p);
    assert forall|j: int| 0 <= j < e2.len() implies (#[trigger] e2[j]).id@ == l2[j].id && same_event(
        e2[j].event,
        origin_event(ft, cat, l2[j].origin),
    ) by {
        if j < k {
            assert(e2[j] == es[j] && l2[j] == layout[j]);
        } else if j > k {
            assert(e2[j] == es[j - 1] && l2[j] == layout[j - 1]);
        }
    }
}

proof fn lemma_insertion_point_bound(names: Seq<Seq<char>>, x: Seq<char>)
    ensures
        0 <= insertion_point(names, x) <= names.len(),
    decreases names.len(),
{
    if names.len() > 0 {
        lemma_insertion_point_bound(names.drop_first(), x);
    }
}

/// `ft` with what `plan` takes in from the catalog's libraries.
fn expand_tree(ft: FaultTree, cat: &Vec<CatalogEntry>, plan: &Vec<Splice>) -> (r: FaultTree)
    ensures
        tree_expanded(ft, r, cat@, splice_views(plan@)),
{
    let ghost old = ft;
    let ghost pv = splice_views(plan@);
    let FaultTree { top_event, gates, basic_events, transfers } = ft;
    let had_gates = gates.is_some();
    let mut gs: Vec<GateEntry> = match gates {
        Some(g) => g,
        None => Vec::new(),
    };
    let mut es = basic_events;
    assert(pv.take(0) =~= Seq::<SpliceView>::empty());
    assert(gates_match(gs@, gate_layout(old, cat@, pv.take(0)), old, cat@));
    assert(events_match(es@, event_layout(old, cat@, pv.take(0)), old, cat@));
    let mut i: usize = 0;
    while i < plan.len()
        invariant
            i <= plan@.len(),
            pv == splice_views(plan@),
            gates_match(gs@, gate_layout(old, cat@, pv.take(i as int)), old, cat@),
            events_match(es@, event_layout(old, cat@, pv.take(i as int)), old, cat@),
            had_gates == (old.gates is Some),
            !had_gates ==> own_gates(old).len() == 0,
        decreases plan.len() - i,
    {
        let s = &plan[i];
        let ghost gl = gate_layout(old, cat@, pv.take(i as int));
        let ghost el = event_layout(old, cat@, pv.take(i as int));
        proof {
            assert(pv.take(i as int + 1).drop_last() =~= pv.take(i as int));
            assert(pv.take(i as int + 1).last() == s@);
        }
        match s.item {
            SpliceItem::Gate(g) => {
                if s.entry < cat.len() {
                    match &cat[s.entry].loaded {
                        Ok((_, d)) => {
                            if g < d.gates.len() {
                                let c = GateEntry { id: owned(s.qualified_id.as_str()), gate: copy_gate(&d.gates[g].gate) };
                                let ghost p = Placed { id: s.qualified_id@, origin: Origin::Library(s.entry as int, g as int) };
                                proof {
                                    lemma_place_gate(gs@, gl, old, cat@, c, p);
                                }
                                let pos = {
                                    let ids = gate_ids(&gs);
                                    insertion_index(&ids, s.qualified_id.as_str())
                                };
                                gs.insert(pos, c);
                            }
                        },
                        Err(_) => {},
                    }
                }
            },
            SpliceItem::BasicEvent(b) => {
                if s.entry < cat.len() {
                    match &cat[s.entry].loaded {
                        Ok((_, d)) => {
                            if b < d.basic_events.len() {
                                let c = BasicEventEntry {
                                    id: owned(s.qualified_id.as_str()),
                                    event: copy_event(&d.basic_events[b].event),
                                };
                                let ghost p = Placed { id: s.qualified_id@, origin: Origin::Library(s.entry as int, b as int) };
                                proof {
                                    lemma_place_event(es@, el, old, cat@, c, p);
                                }
                                let pos = {
                                    let ids = event_ids(&es);
                                    insertion_index(&ids, s.qualified_id.as_str())
                                };
                                es.insert(pos, c);
                            }
                        },
                        Err(_) => {},
                    }
                }
            },
        }
        i = i + 1;
    }
    assert(pv.take(plan@.len() as int) =~= pv);
    let out_gates = if !had_gates && gs.len() == 0 {
        None
    } else {
        Some(gs)
    };
    FaultTree { top_event, gates: out_gates, basic_events: es, transfers }
}

/// The document with, in each fault tree, the library gates and basic
/// events its plan (`splices`, by tree position) takes in, each under its
/// qualified id at its place in id order; every other part of the document
/// is kept as it is. A tree beyond the plans given is kept as it is.
pub fn expanded_document(doc: Document, cat: &Vec<CatalogEntry>, splices: &Vec<Vec<Splice>>) -> (r: Document)
    ensures
        document_expanded(doc, r, cat@, splices@),
{
    let ghost old = doc;
    let Document {
        etdl,
        supplements,
        libraries,
        asyncapi_aliases,
        component_messages,
        event_trees,
        fault_trees,
    } = doc;
    let new_trees = match fault_trees {
        None => None,
        Some(fts) => {
            let ghost o = fts@;
            let mut rest = fts;
            let n = rest.len();
            let mut out: Vec<FaultTreeEntry> = Vec::new();
            let mut k: usize = 0;
            assert(o.skip(0) =~= o);
            while rest.len() > 0
                invariant
                    k == out@.len(),
                    k <= o.len(),
                    o.len() == n,
                    rest@ == o.skip(k as int),
                    forall|j: int|
                        0 <= j < k ==> (#[trigger] out@[j]).name == o[j].name && tree_expanded(
                            o[j].tree,
                            out@[j].tree,
                            cat@,
                            plan_for(splices@, j),
                        ),
                decreases rest.len(),
            {
                let e = rest.remove(0);
                proof {
                    assert(e == o[k as int]);
                    assert(rest@ =~= o.skip(k as int + 1));
                }
                let FaultTreeEntry { name, tree } = e;
                let expanded = if k < splices.len() {
                    expand_tree(tree, cat, &splices[k])
                } else {
                    let none: Vec<Splice> = Vec::new();
                    assert(splice_views(none@) =~= Seq::<SpliceView>::empty());
                    expand_tree(tree, cat, &none)
                };
                out.push(FaultTreeEntry { name, tree: expanded });
                k = k + 1;
            }
            Some(out)
        },
    };
    Document {
        etdl,
        supplements,
        libraries,
        asyncapi_aliases,
        component_messages,
        event_trees,
        fault_trees: new_trees,
    }
}

} // verus!
