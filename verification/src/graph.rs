//! A document's unified graph: the nodes and edges of every event tree,
//! fault tree and generic tree, in one namespace where a node is
//! `<tree>/<id>`.

use vstd::prelude::*;
use crate::diagnostic::{lemma_flat_map_step, lemma_flat_map_empty, lemma_take_all};
use crate::fault_rules::gates_of;
use crate::fault_structure::transfers_of;
use crate::model::{
    BasicEventEntry, Branch, ChannelRef, ConsequenceOperation, Document, EventTreeEntry,
    FaultTreeEntry, GateEntry, GateType, Measure, MessageRef, Node, NodeEntry, TransferEntry,
};
use crate::reliability::{trees_of, opt_view};
use crate::text::{owned, cat3};
use crate::tree_event::{OutlineNode, OutlineNodeKind, TreeManifest, TreeOutline, parse_and_validate_trees, trees_outcome};

verus! {

/// One directed edge; `label` names the relationship where the shape alone
/// does not (a branch outcome, `success`, `failure`, `rootCause`, `input`,
/// `transfersTo`).
#[derive(Debug, Clone)]
pub struct GraphEdge {
    pub from: String,
    pub to: String,
    pub label: Option<String>,
}

pub struct GraphEdgeView {
    pub from: Seq<char>,
    pub to: Seq<char>,
    pub label: Option<Seq<char>>,
}

impl View for GraphEdge {
    type V = GraphEdgeView;

    open spec fn view(&self) -> GraphEdgeView {
        GraphEdgeView { from: self.from@, to: self.to@, label: opt_view(self.label) }
    }
}

pub open spec fn edge_views(es: Seq<GraphEdge>) -> Seq<GraphEdgeView> {
    es.map_values(|e: GraphEdge| e@)
}

/// The graph id of node `id` of tree `t`.
pub open spec fn qualified(t: Seq<char>, id: Seq<char>) -> Seq<char> {
    t + "/"@ + id
}

pub open spec fn edge(from: Seq<char>, to: Seq<char>, label: Option<Seq<char>>) -> GraphEdgeView {
    GraphEdgeView { from, to, label }
}

pub open spec fn branch_edge(t: Seq<char>, id: Seq<char>, b: Branch) -> GraphEdgeView {
    edge(qualified(t, id), qualified(t, b.next@), Some(b.outcome@))
}

/// The edges leaving node `n` of event tree `t`: a barrier's branches,
/// labelled by outcome; an operation's `success` and, when declared,
/// `failure`; none from a consequence.
pub open spec fn node_edges(t: Seq<char>, n: NodeEntry) -> Seq<GraphEdgeView> {
    match n.node {
        Node::Barrier(b) => b.branches@.map_values(|br: Branch| branch_edge(t, n.id@, br)),
        Node::Operation(op) => seq![
            edge(qualified(t, n.id@), qualified(t, op.next@), Some("success"@)),
        ] + match op.on_failure {
            Some(f) => seq![edge(qualified(t, n.id@), qualified(t, f@), Some("failure"@))],
            None => Seq::<GraphEdgeView>::empty(),
        },
        Node::Consequence(_) => Seq::empty(),
    }
}

/// The edges of an event tree: the initiating event to its `next`, then
/// each node's edges in order.
pub open spec fn event_tree_edges(e: EventTreeEntry) -> Seq<GraphEdgeView> {
    let t = e.name@;
    let ie = e.tree.initiating_event;
    seq![edge(qualified(t, ie.id@), qualified(t, ie.next@), None)] + e.tree.nodes@.flat_map(
        |n: NodeEntry| node_edges(t, n),
    )
}

pub open spec fn gate_edges(ft: Seq<char>, g: GateEntry) -> Seq<GraphEdgeView> {
    g.gate.inputs@.map_values(|i: String| edge(qualified(ft, g.id@), qualified(ft, i@), Some("input"@)))
}

pub open spec fn transfer_edge(ft: Seq<char>, t: TransferEntry) -> GraphEdgeView {
    edge(qualified(ft, t.id@), t.transfer.target@, Some("transfersTo"@))
}

/// The edges of a fault tree: the top event to its root cause, each gate
/// to each of its inputs, each transfer to its target (verbatim, since it
/// may lie in another tree).
pub open spec fn fault_tree_edges(e: FaultTreeEntry) -> Seq<GraphEdgeView> {
    let ft = e.name@;
    seq![
        edge(qualified(ft, "topEvent"@), qualified(ft, e.tree.top_event.root_cause@), Some("rootCause"@)),
    ] + gates_of(e.tree).flat_map(|g: GateEntry| gate_edges(ft, g)) + transfers_of(e.tree).map_values(
        |t: TransferEntry| transfer_edge(ft, t),
    )
}

/// The edges of the whole document: event trees first, then fault trees.
pub open spec fn document_edges(doc: Document) -> Seq<GraphEdgeView> {
    doc.event_trees@.flat_map(|e: EventTreeEntry| event_tree_edges(e)) + trees_of(doc).flat_map(
        |e: FaultTreeEntry| fault_tree_edges(e),
    )
}

fn qualify(t: &str, id: &str) -> (r: String)
    ensures
        r@ == qualified(t@, id@),
{
    cat3(t, "/", id)
}

fn push_edge(out: &mut Vec<GraphEdge>, from: String, to: String, label: Option<String>)
    ensures
        edge_views(final(out)@) == edge_views(old(out)@).push(
            edge(from@, to@, opt_view(label)),
        ),
{
    let e = GraphEdge { from, to, label };
    out.push(e);
    assert(edge_views(out@) =~= edge_views(old(out)@).push(e@));
}

fn add_node_edges(t: &str, n: &NodeEntry, out: &mut Vec<GraphEdge>)
    ensures
        edge_views(final(out)@) == edge_views(old(out)@) + node_edges(t@, *n),
{
    match &n.node {
        Node::Barrier(b) => {
            let ghost f = |br: Branch| branch_edge(t@, n.id@, br);
            let mut i: usize = 0;
            while i < b.branches.len()
                invariant
                    i <= b.branches@.len(),
                    n.node == Node::Barrier(*b),
                    f == (|br: Branch| branch_edge(t@, n.id@, br)),
                    edge_views(out@) == edge_views(old(out)@) + b.branches@.take(i as int).map_values(f),
                decreases b.branches.len() - i,
            {
                let br = &b.branches[i];
                push_edge(
                    out,
                    qualify(t, n.id.as_str()),
                    qualify(t, br.next.as_str()),
                    Some(owned(br.outcome.as_str())),
                );
                assert(b.branches@.take(i as int + 1).map_values(f) =~= b.branches@.take(
                    i as int,
                ).map_values(f).push(f(*br)));
                i = i + 1;
            }
            assert(b.branches@.take(b.branches@.len() as int) =~= b.branches@);
            assert(edge_views(out@) =~= edge_views(old(out)@) + node_edges(t@, *n));
        },
        Node::Operation(op) => {
            push_edge(out, qualify(t, n.id.as_str()), qualify(t, op.next.as_str()), Some(owned("success")));
            match &op.on_failure {
                Some(f) => {
                    push_edge(out, qualify(t, n.id.as_str()), qualify(t, f.as_str()), Some(owned("failure")));
                },
                None => {},
            }
            assert(edge_views(out@) =~= edge_views(old(out)@) + node_edges(t@, *n));
        },
        Node::Consequence(_) => {
            assert(edge_views(out@) =~= edge_views(old(out)@) + node_edges(t@, *n));
        },
    }
}

fn add_event_tree_edges(e: &EventTreeEntry, out: &mut Vec<GraphEdge>)
    ensures
        edge_views(final(out)@) == edge_views(old(out)@) + event_tree_edges(*e),
{
    let t = e.name.as_str();
    let ie = &e.tree.initiating_event;
    push_edge(out, qualify(t, ie.id.as_str()), qualify(t, ie.next.as_str()), None);
    let ghost start = edge_views(out@);
    let nodes = &e.tree.nodes;
    let ghost f = |n: NodeEntry| node_edges(t@, n);
    proof {
        lemma_flat_map_empty(nodes@, f);
    }
    let mut i: usize = 0;
    while i < nodes.len()
        invariant
            i <= nodes@.len(),
            nodes@ == e.tree.nodes@,
            t@ == e.name@,
            f == (|n: NodeEntry| node_edges(t@, n)),
            edge_views(out@) == start + nodes@.take(i as int).flat_map(f),
        decreases nodes.len() - i,
    {
        add_node_edges(t, &nodes[i], out);
        proof {
            lemma_flat_map_step(nodes@, f, i as int);
        }
        i = i + 1;
    }
    proof {
        lemma_take_all(nodes@);
    }
    assert(edge_views(out@) =~= edge_views(old(out)@) + event_tree_edges(*e));
}

fn add_gate_edges(ft: &str, g: &GateEntry, out: &mut Vec<GraphEdge>)
    ensures
        edge_views(final(out)@) == edge_views(old(out)@) + gate_edges(ft@, *g),
{
    let ghost f = |i: String| edge(qualified(ft@, g.id@), qualified(ft@, i@), Some("input"@));
    let inputs = &g.gate.inputs;
    let mut i: usize = 0;
    while i < inputs.len()
        invariant
            i <= inputs@.len(),
            inputs@ == g.gate.inputs@,
            f == (|i: String| edge(qualified(ft@, g.id@), qualified(ft@, i@), Some("input"@))),
            edge_views(out@) == edge_views(old(out)@) + inputs@.take(i as int).map_values(f),
        decreases inputs.len() - i,
    {
        push_edge(out, qualify(ft, g.id.as_str()), qualify(ft, inputs[i].as_str()), Some(owned("input")));
        assert(inputs@.take(i as int + 1).map_values(f) =~= inputs@.take(i as int).map_values(f).push(
            f(inputs@[i as int]),
        ));
        i = i + 1;
    }
    assert(inputs@.take(inputs@.len() as int) =~= inputs@);
}

fn add_fault_tree_edges(e: &FaultTreeEntry, out: &mut Vec<GraphEdge>)
    ensures
        edge_views(final(out)@) == edge_views(old(out)@) + fault_tree_edges(*e),
{
    let ft = e.name.as_str();
    push_edge(
        out,
        qualify(ft, "topEvent"),
        qualify(ft, e.tree.top_event.root_cause.as_str()),
        Some(owned("rootCause")),
    );
    let ghost start = edge_views(out@);
    let ghost fg = |g: GateEntry| gate_edges(ft@, g);
    match &e.tree.gates {
        Some(gates) => {
            proof {
                lemma_flat_map_empty(gates@, fg);
            }
            let mut i: usize = 0;
            while i < gates.len()
                invariant
                    i <= gates@.len(),
                    gates@ == gates_of(e.tree),
                    fg == (|g: GateEntry| gate_edges(ft@, g)),
                    edge_views(out@) == start + gates@.take(i as int).flat_map(fg),
                decreases gates.len() - i,
            {
                add_gate_edges(ft, &gates[i], out);
                proof {
                    lemma_flat_map_step(gates@, fg, i as int);
                }
                i = i + 1;
            }
            proof {
                lemma_take_all(gates@);
            }
        },
        None => {
            assert(gates_of(e.tree).map_values(fg) =~= Seq::<Seq<GraphEdgeView>>::empty());
            assert(gates_of(e.tree).flat_map(fg) =~= Seq::<GraphEdgeView>::empty());
            assert(edge_views(out@) =~= start + gates_of(e.tree).flat_map(fg));
        },
    }
    let ghost mid = edge_views(out@);
    let ghost ft_ = |t: TransferEntry| transfer_edge(ft@, t);
    match &e.tree.transfers {
        Some(ts) => {
            let mut i: usize = 0;
            while i < ts.len()
                invariant
                    i <= ts@.len(),
                    ts@ == transfers_of(e.tree),
                    ft_ == (|t: TransferEntry| transfer_edge(ft@, t)),
                    edge_views(out@) == mid + ts@.take(i as int).map_values(ft_),
                decreases ts.len() - i,
            {
                let t = &ts[i];
                push_edge(
                    out,
                    qualify(ft, t.id.as_str()),
                    owned(t.transfer.target.as_str()),
                    Some(owned("transfersTo")),
                );
                assert(ts@.take(i as int + 1).map_values(ft_) =~= ts@.take(i as int).map_values(
                    ft_,
                ).push(ft_(*t)));
                i = i + 1;
            }
            assert(ts@.take(ts@.len() as int) =~= ts@);
        },
        None => {
            assert(transfers_of(e.tree).map_values(ft_) =~= Seq::<GraphEdgeView>::empty());
            assert(edge_views(out@) =~= mid + transfers_of(e.tree).map_values(ft_));
        },
    }
    assert(edge_views(out@) =~= edge_views(old(out)@) + fault_tree_edges(*e));
}

/// The edges of the document's graph: for each event tree, its initiating
/// event to its `next`, then each barrier branch (labelled by outcome) and
/// each operation's `success` and `failure` edges; then for each fault
/// tree, `rootCause`, each gate's `input` edges and each transfer's
/// `transfersTo` edge. Node ids are `<tree>/<id>`.
pub fn graph_edges(doc: &Document) -> (r: Vec<GraphEdge>)
    ensures
        edge_views(r@) == document_edges(*doc),
{
    let mut out: Vec<GraphEdge> = Vec::new();
    let ets = &doc.event_trees;
    let ghost fe = |e: EventTreeEntry| event_tree_edges(e);
    proof {
        lemma_flat_map_empty(ets@, fe);
    }
    let mut i: usize = 0;
    while i < ets.len()
        invariant
            i <= ets@.len(),
            ets@ == doc.event_trees@,
            fe == (|e: EventTreeEntry| event_tree_edges(e)),
            edge_views(out@) == ets@.take(i as int).flat_map(fe),
        decreases ets.len() - i,
    {
        add_event_tree_edges(&ets[i], &mut out);
        proof {
            lemma_flat_map_step(ets@, fe, i as int);
        }
        i = i + 1;
    }
    proof {
        lemma_take_all(ets@);
    }
    let ghost mid = edge_views(out@);
    let ghost ff = |e: FaultTreeEntry| fault_tree_edges(e);
    match &doc.fault_trees {
        Some(fts) => {
            proof {
                lemma_flat_map_empty(fts@, ff);
            }
            let mut j: usize = 0;
            while j < fts.len()
                invariant
                    j <= fts@.len(),
                    fts@ == trees_of(*doc),
                    ff == (|e: FaultTreeEntry| fault_tree_edges(e)),
                    edge_views(out@) == mid + fts@.take(j as int).flat_map(ff),
                decreases fts.len() - j,
            {
                add_fault_tree_edges(&fts[j], &mut out);
                proof {
                    lemma_flat_map_step(fts@, ff, j as int);
                }
                j = j + 1;
            }
            proof {
                lemma_take_all(fts@);
            }
        },
        None => {
            assert(trees_of(*doc).map_values(ff) =~= Seq::<Seq<GraphEdgeView>>::empty());
            assert(trees_of(*doc).flat_map(ff) =~= Seq::<GraphEdgeView>::empty());
            assert(edge_views(out@) =~= mid + trees_of(*doc).flat_map(ff));
        },
    }
    out
}

} // verus!

verus! {

/// What a barrier node says of one of its branches.
#[derive(Debug, Clone)]
pub struct BranchAttributes {
    pub outcome: String,
    /// The pointer of `probabilitySource`, when declared.
    pub probability_source: Option<String>,
    pub next: String,
}

pub struct BranchAttributesView {
    pub outcome: Seq<char>,
    pub probability_source: Option<Seq<char>>,
    pub next: Seq<char>,
}

impl View for BranchAttributes {
    type V = BranchAttributesView;

    open spec fn view(&self) -> BranchAttributesView {
        BranchAttributesView {
            outcome: self.outcome@,
            probability_source: opt_view(self.probability_source),
            next: self.next@,
        }
    }
}

/// What a node carries besides its id, kind and label, by kind. Numbers
/// are carried as their display text.
#[derive(Debug, Clone)]
pub enum NodeAttributes {
    InitiatingEvent { message: String },
    Barrier { branches: Vec<BranchAttributes> },
    Operation { handler: String },
    Consequence { operation: String, channel: Option<String> },
    TopEvent,
    Gate { gate_type: String, k: Option<u32> },
    BasicEvent { probability: Option<String>, failure_rate: Option<String> },
    Transfer { target: String, label: Option<String> },
    GenericNode { description: Option<String>, event_ref: Option<String> },
}

pub enum AttributesView {
    InitiatingEvent { message: Seq<char> },
    Barrier { branches: Seq<BranchAttributesView> },
    Operation { handler: Seq<char> },
    Consequence { operation: Seq<char>, channel: Option<Seq<char>> },
    TopEvent,
    Gate { gate_type: Seq<char>, k: Option<u32> },
    BasicEvent { probability: Option<Seq<char>>, failure_rate: Option<Seq<char>> },
    Transfer { target: Seq<char>, label: Option<Seq<char>> },
    GenericNode { description: Option<Seq<char>>, event_ref: Option<Seq<char>> },
}

impl View for NodeAttributes {
    type V = AttributesView;

    open spec fn view(&self) -> AttributesView {
        match *self {
            NodeAttributes::InitiatingEvent { message } => AttributesView::InitiatingEvent { message: message@ },
            NodeAttributes::Barrier { branches } => AttributesView::Barrier {
                branches: branches@.map_values(|b: BranchAttributes| b@),
            },
            NodeAttributes::Operation { handler } => AttributesView::Operation { handler: handler@ },
            NodeAttributes::Consequence { operation, channel } => AttributesView::Consequence {
                operation: operation@,
                channel: opt_view(channel),
            },
            NodeAttributes::TopEvent => AttributesView::TopEvent,
            NodeAttributes::Gate { gate_type, k } => AttributesView::Gate { gate_type: gate_type@, k },
            NodeAttributes::BasicEvent { probability, failure_rate } => AttributesView::BasicEvent {
                probability: opt_view(probability),
                failure_rate: opt_view(failure_rate),
            },
            NodeAttributes::Transfer { target, label } => AttributesView::Transfer {
                target: target@,
                label: opt_view(label),
            },
            NodeAttributes::GenericNode { description, event_ref } => AttributesView::GenericNode {
                description: opt_view(description),
                event_ref: opt_view(event_ref),
            },
        }
    }
}

/// One node of the graph: its qualified id, a kind tag, the tree it
/// belongs to, a display label and its attributes.
#[derive(Debug, Clone)]
pub struct GraphNode {
    pub id: String,
    pub kind: String,
    pub tree_id: String,
    pub label: String,
    pub attributes: NodeAttributes,
}

pub struct GraphNodeView {
    pub id: Seq<char>,
    pub kind: Seq<char>,
    pub tree_id: Seq<char>,
    pub label: Seq<char>,
    pub attributes: AttributesView,
}

impl View for GraphNode {
    type V = GraphNodeView;

    open spec fn view(&self) -> GraphNodeView {
        GraphNodeView {
            id: self.id@,
            kind: self.kind@,
            tree_id: self.tree_id@,
            label: self.label@,
            attributes: self.attributes@,
        }
    }
}

/// A message reference as written: `<alias>#<pointer>`, or the pointer.
pub open spec fn message_text(m: MessageRef) -> Seq<char> {
    match m {
        MessageRef::External(r) => r.alias@ + "#"@ + r.pointer@,
        MessageRef::Internal(p) => p@,
    }
}

/// A channel reference as written: `<alias>#<pointer>`, or the bare name.
pub open spec fn channel_text(c: ChannelRef) -> Seq<char> {
    match c {
        ChannelRef::External(r) => r.alias@ + "#"@ + r.pointer@,
        ChannelRef::Bare(b) => b@,
    }
}

pub open spec fn operation_label(o: ConsequenceOperation) -> Seq<char> {
    match o {
        ConsequenceOperation::Send => "send"@,
        ConsequenceOperation::Terminate => "terminate"@,
    }
}

/// A gate type as written in a document.
pub open spec fn gate_type_text(g: GateType) -> Seq<char> {
    match g {
        GateType::And => "AND"@,
        GateType::Or => "OR"@,
        GateType::Not => "NOT"@,
        GateType::Xor => "XOR"@,
        GateType::Voting => "VOTING"@,
        GateType::Inhibit => "INHIBIT"@,
        GateType::PriorityAnd => "PRIORITY_AND"@,
    }
}

pub open spec fn measure_text(m: Option<Measure>) -> Option<Seq<char>> {
    match m {
        Some(x) => Some(x.text@),
        None => None,
    }
}

pub open spec fn branch_attributes(b: Branch) -> BranchAttributesView {
    BranchAttributesView { outcome: b.outcome@, probability_source: opt_view(b.probability_source), next: b.next@ }
}

/// The attributes of an event-tree node.
pub open spec fn node_attributes(n: Node) -> AttributesView {
    match n {
        Node::Barrier(b) => AttributesView::Barrier {
            branches: b.branches@.map_values(|br: Branch| branch_attributes(br)),
        },
        Node::Operation(op) => AttributesView::Operation { handler: op.handler@ },
        Node::Consequence(c) => AttributesView::Consequence {
            operation: operation_label(c.operation),
            channel: match c.channel {
                Some(ch) => Some(channel_text(ch)),
                None => None,
            },
        },
    }
}

pub open spec fn outline_attributes(n: OutlineNode) -> AttributesView {
    AttributesView::GenericNode {
        description: opt_view(n.description),
        event_ref: match n.kind {
            OutlineNodeKind::Leaf { event_ref } => opt_view(event_ref),
            OutlineNodeKind::Gate { .. } => None,
        },
    }
}

pub open spec fn node_views(ns: Seq<GraphNode>) -> Seq<GraphNodeView> {
    ns.map_values(|n: GraphNode| n@)
}

/// Node `local` of tree `t`, of kind `kind`, shown as `label`.
pub open spec fn graph_node(
    t: Seq<char>,
    local: Seq<char>,
    kind: Seq<char>,
    label: Seq<char>,
    attributes: AttributesView,
) -> GraphNodeView {
    GraphNodeView { id: qualified(t, local), kind, tree_id: t, label, attributes }
}

pub open spec fn node_kind(n: Node) -> Seq<char> {
    match n {
        Node::Barrier(_) => "barrier"@,
        Node::Operation(_) => "operation"@,
        Node::Consequence(_) => "consequence"@,
    }
}

pub open spec fn tree_node(t: Seq<char>, n: NodeEntry) -> GraphNodeView {
    graph_node(t, n.id@, node_kind(n.node), n.id@, node_attributes(n.node))
}

/// The nodes of an event tree: its initiating event, then each node in
/// order.
pub open spec fn event_tree_nodes(e: EventTreeEntry) -> Seq<GraphNodeView> {
    let t = e.name@;
    let ie = e.tree.initiating_event;
    seq![graph_node(t, ie.id@, "initiating_event"@, ie.id@, AttributesView::InitiatingEvent { message: message_text(ie.message) })] + e.tree.nodes@.map_values(
        |n: NodeEntry| tree_node(t, n),
    )
}

pub open spec fn gate_node(ft: Seq<char>, g: GateEntry) -> GraphNodeView {
    graph_node(ft, g.id@, "gate"@, g.id@, AttributesView::Gate { gate_type: gate_type_text(g.gate.gate_type), k: g.gate.k })
}

pub open spec fn basic_event_node(ft: Seq<char>, b: BasicEventEntry) -> GraphNodeView {
    graph_node(
        ft,
        b.id@,
        "basic_event"@,
        b.id@,
        AttributesView::BasicEvent {
            probability: measure_text(b.event.probability),
            failure_rate: measure_text(b.event.failure_rate),
        },
    )
}

pub open spec fn transfer_node(ft: Seq<char>, t: TransferEntry) -> GraphNodeView {
    graph_node(
        ft,
        t.id@,
        "transfer"@,
        t.id@,
        AttributesView::Transfer { target: t.transfer.target@, label: opt_view(t.transfer.label) },
    )
}

/// The nodes of a fault tree: its top event (as `topEvent`, labelled with
/// the event's id), then its gates, basic events and transfers in order.
pub open spec fn fault_tree_nodes(e: FaultTreeEntry) -> Seq<GraphNodeView> {
    let ft = e.name@;
    seq![graph_node(ft, "topEvent"@, "fault_tree_top_event"@, e.tree.top_event.id@, AttributesView::TopEvent)]
        + gates_of(e.tree).map_values(|g: GateEntry| gate_node(ft, g))
        + e.tree.basic_events@.map_values(|b: BasicEventEntry| basic_event_node(ft, b))
        + transfers_of(e.tree).map_values(|t: TransferEntry| transfer_node(ft, t))
}

/// The nodes of the whole document: event trees first, then fault trees.
pub open spec fn document_nodes(doc: Document) -> Seq<GraphNodeView> {
    doc.event_trees@.flat_map(|e: EventTreeEntry| event_tree_nodes(e)) + trees_of(doc).flat_map(
        |e: FaultTreeEntry| fault_tree_nodes(e),
    )
}

fn copy_opt(o: &Option<String>) -> (c: Option<String>)
    ensures
        opt_view(c) == opt_view(*o),
{
    match o {
        Some(s) => Some(owned(s.as_str())),
        None => None,
    }
}

fn message_string(m: &MessageRef) -> (s: String)
    ensures
        s@ == message_text(*m),
{
    match m {
        MessageRef::External(r) => cat3(r.alias.as_str(), "#", r.pointer.as_str()),
        MessageRef::Internal(p) => owned(p.as_str()),
    }
}

fn channel_string(c: &ChannelRef) -> (s: String)
    ensures
        s@ == channel_text(*c),
{
    match c {
        ChannelRef::External(r) => cat3(r.alias.as_str(), "#", r.pointer.as_str()),
        ChannelRef::Bare(b) => owned(b.as_str()),
    }
}

fn gate_type_str(g: GateType) -> (s: &'static str)
    ensures
        s@ == gate_type_text(g),
{
    match g {
        GateType::And => "AND",
        GateType::Or => "OR",
        GateType::Not => "NOT",
        GateType::Xor => "XOR",
        GateType::Voting => "VOTING",
        GateType::Inhibit => "INHIBIT",
        GateType::PriorityAnd => "PRIORITY_AND",
    }
}

fn measure_string(m: &Option<Measure>) -> (s: Option<String>)
    ensures
        opt_view(s) == measure_text(*m),
{
    match m {
        Some(x) => Some(owned(x.text.as_str())),
        None => None,
    }
}

fn attributes_of(n: &Node) -> (a: NodeAttributes)
    ensures
        a@ == node_attributes(*n),
{
    match n {
        Node::Barrier(b) => {
            let ghost f = |br: Branch| branch_attributes(br);
            let mut out: Vec<BranchAttributes> = Vec::new();
            let mut i: usize = 0;
            while i < b.branches.len()
                invariant
                    i <= b.branches@.len(),
                    f == (|br: Branch| branch_attributes(br)),
                    out@.map_values(|x: BranchAttributes| x@) == b.branches@.take(i as int).map_values(f),
                decreases b.branches.len() - i,
            {
                let br = &b.branches[i];
                let x = BranchAttributes {
                    outcome: owned(br.outcome.as_str()),
                    probability_source: copy_opt(&br.probability_source),
                    next: owned(br.next.as_str()),
                };
                let ghost before = out@;
                out.push(x);
                assert(out@.map_values(|x: BranchAttributes| x@) =~= before.map_values(
                    |x: BranchAttributes| x@,
                ).push(x@));
                assert(b.branches@.take(i as int + 1).map_values(f) =~= b.branches@.take(i as int).map_values(
                    f,
                ).push(f(*br)));
                i = i + 1;
            }
            assert(b.branches@.take(b.branches@.len() as int) =~= b.branches@);
            NodeAttributes::Barrier { branches: out }
        },
        Node::Operation(op) => NodeAttributes::Operation { handler: owned(op.handler.as_str()) },
        Node::Consequence(c) => NodeAttributes::Consequence {
            operation: owned(
                match c.operation {
                    ConsequenceOperation::Send => "send",
                    ConsequenceOperation::Terminate => "terminate",
                },
            ),
            channel: match &c.channel {
                Some(ch) => Some(channel_string(ch)),
                None => None,
            },
        },
    }
}

fn outline_attributes_of(n: &OutlineNode) -> (a: NodeAttributes)
    ensures
        a@ == outline_attributes(*n),
{
    NodeAttributes::GenericNode {
        description: copy_opt(&n.description),
        event_ref: match &n.kind {
            OutlineNodeKind::Leaf { event_ref } => copy_opt(event_ref),
            OutlineNodeKind::Gate { .. } => None,
        },
    }
}

fn kind_of(n: &Node) -> (s: &'static str)
    ensures
        s@ == node_kind(*n),
{
    match n {
        Node::Barrier(_) => "barrier",
        Node::Operation(_) => "operation",
        Node::Consequence(_) => "consequence",
    }
}

fn push_node(out: &mut Vec<GraphNode>, t: &str, local: &str, kind: &str, label: &str, attributes: NodeAttributes)
    ensures
        node_views(final(out)@) == node_views(old(out)@).push(graph_node(t@, local@, kind@, label@, attributes@)),
{
    let n = GraphNode {
        id: qualify(t, local),
        kind: owned(kind),
        tree_id: owned(t),
        label: owned(label),
        attributes,
    };
    out.push(n);
    assert(node_views(out@) =~= node_views(old(out)@).push(n@));
}

fn add_event_tree_nodes(e: &EventTreeEntry, out: &mut Vec<GraphNode>)
    ensures
        node_views(final(out)@) == node_views(old(out)@) + event_tree_nodes(*e),
{
    let t = e.name.as_str();
    let ie = &e.tree.initiating_event;
    push_node(
        out,
        t,
        ie.id.as_str(),
        "initiating_event",
        ie.id.as_str(),
        NodeAttributes::InitiatingEvent { message: message_string(&ie.message) },
    );
    let ghost start = node_views(out@);
    let nodes = &e.tree.nodes;
    let ghost f = |n: NodeEntry| tree_node(t@, n);
    let mut i: usize = 0;
    while i < nodes.len()
        invariant
            i <= nodes@.len(),
            nodes@ == e.tree.nodes@,
            f == (|n: NodeEntry| tree_node(t@, n)),
            node_views(out@) == start + nodes@.take(i as int).map_values(f),
        decreases nodes.len() - i,
    {
        let n = &nodes[i];
        push_node(out, t, n.id.as_str(), kind_of(&n.node), n.id.as_str(), attributes_of(&n.node));
        assert(nodes@.take(i as int + 1).map_values(f) =~= nodes@.take(i as int).map_values(f).push(
            f(*n),
        ));
        i = i + 1;
    }
    assert(nodes@.take(nodes@.len() as int) =~= nodes@);
    assert(node_views(out@) =~= node_views(old(out)@) + event_tree_nodes(*e));
}

fn add_fault_tree_nodes(e: &FaultTreeEntry, out: &mut Vec<GraphNode>)
    ensures
        node_views(final(out)@) == node_views(old(out)@) + fault_tree_nodes(*e),
{
    let ft = e.name.as_str();
    push_node(out, ft, "topEvent", "fault_tree_top_event", e.tree.top_event.id.as_str(), NodeAttributes::TopEvent);
    let ghost s0 = node_views(out@);
    let ghost fg = |g: GateEntry| gate_node(ft@, g);
    match &e.tree.gates {
        Some(gates) => {
            let mut i: usize = 0;
            while i < gates.len()
                invariant
                    i <= gates@.len(),
                    gates@ == gates_of(e.tree),
                    fg == (|g: GateEntry| gate_node(ft@, g)),
                    node_views(out@) == s0 + gates@.take(i as int).map_values(fg),
                decreases gates.len() - i,
            {
                let g = &gates[i];
                push_node(
                    out,
                    ft,
                    g.id.as_str(),
                    "gate",
                    g.id.as_str(),
                    NodeAttributes::Gate { gate_type: owned(gate_type_str(g.gate.gate_type)), k: g.gate.k },
                );
                assert(gates@.take(i as int + 1).map_values(fg) =~= gates@.take(i as int).map_values(
                    fg,
                ).push(fg(*g)));
                i = i + 1;
            }
            assert(gates@.take(gates@.len() as int) =~= gates@);
        },
        None => {
            assert(gates_of(e.tree).map_values(fg) =~= Seq::<GraphNodeView>::empty());
            assert(node_views(out@) =~= s0 + gates_of(e.tree).map_values(fg));
        },
    }
    let ghost s1 = node_views(out@);
    let ghost fb = |b: BasicEventEntry| basic_event_node(ft@, b);
    let bes = &e.tree.basic_events;
    let mut i: usize = 0;
    while i < bes.len()
        invariant
            i <= bes@.len(),
            bes@ == e.tree.basic_events@,
            fb == (|b: BasicEventEntry| basic_event_node(ft@, b)),
            node_views(out@) == s1 + bes@.take(i as int).map_values(fb),
        decreases bes.len() - i,
    {
        let b = &bes[i];
        push_node(
            out,
            ft,
            b.id.as_str(),
            "basic_event",
            b.id.as_str(),
            NodeAttributes::BasicEvent {
                probability: measure_string(&b.event.probability),
                failure_rate: measure_string(&b.event.failure_rate),
            },
        );
        assert(bes@.take(i as int + 1).map_values(fb) =~= bes@.take(i as int).map_values(fb).push(
            fb(*b),
        ));
        i = i + 1;
    }
    assert(bes@.take(bes@.len() as int) =~= bes@);
    let ghost s2 = node_views(out@);
    let ghost fx = |t: TransferEntry| transfer_node(ft@, t);
    match &e.tree.transfers {
        Some(ts) => {
            let mut j: usize = 0;
            while j < ts.len()
                invariant
                    j <= ts@.len(),
                    ts@ == transfers_of(e.tree),
                    fx == (|t: TransferEntry| transfer_node(ft@, t)),
                    node_views(out@) == s2 + ts@.take(j as int).map_values(fx),
                decreases ts.len() - j,
            {
                let t = &ts[j];
                push_node(
                    out,
                    ft,
                    t.id.as_str(),
                    "transfer",
                    t.id.as_str(),
                    NodeAttributes::Transfer {
                        target: owned(t.transfer.target.as_str()),
                        label: copy_opt(&t.transfer.label),
                    },
                );
                assert(ts@.take(j as int + 1).map_values(fx) =~= ts@.take(j as int).map_values(fx).push(
                    fx(*t),
                ));
                j = j + 1;
            }
            assert(ts@.take(ts@.len() as int) =~= ts@);
        },
        None => {
            assert(transfers_of(e.tree).map_values(fx) =~= Seq::<GraphNodeView>::empty());
            assert(node_views(out@) =~= s2 + transfers_of(e.tree).map_values(fx));
        },
    }
    assert(node_views(out@) =~= node_views(old(out)@) + fault_tree_nodes(*e));
}

/// The nodes of the document's graph: for each event tree, its initiating
/// event (`initiating_event`) and each node (`barrier`, `operation`,
/// `consequence`); then for each fault tree, its top event
/// (`fault_tree_top_event`, id `<tree>/topEvent`), gates (`gate`), basic
/// events (`basic_event`) and transfers (`transfer`).
pub fn graph_nodes(doc: &Document) -> (r: Vec<GraphNode>)
    ensures
        node_views(r@) == document_nodes(*doc),
{
    let mut out: Vec<GraphNode> = Vec::new();
    let ets = &doc.event_trees;
    let ghost fe = |e: EventTreeEntry| event_tree_nodes(e);
    proof {
        lemma_flat_map_empty(ets@, fe);
    }
    assert(node_views(out@) =~= Seq::<GraphNodeView>::empty());
    let mut i: usize = 0;
    while i < ets.len()
        invariant
            i <= ets@.len(),
            ets@ == doc.event_trees@,
            fe == (|e: EventTreeEntry| event_tree_nodes(e)),
            node_views(out@) == ets@.take(i as int).flat_map(fe),
        decreases ets.len() - i,
    {
        add_event_tree_nodes(&ets[i], &mut out);
        proof {
            lemma_flat_map_step(ets@, fe, i as int);
        }
        i = i + 1;
    }
    proof {
        lemma_take_all(ets@);
    }
    let ghost mid = node_views(out@);
    let ghost ff = |e: FaultTreeEntry| fault_tree_nodes(e);
    match &doc.fault_trees {
        Some(fts) => {
            proof {
                lemma_flat_map_empty(fts@, ff);
            }
            let mut j: usize = 0;
            while j < fts.len()
                invariant
                    j <= fts@.len(),
                    fts@ == trees_of(*doc),
                    ff == (|e: FaultTreeEntry| fault_tree_nodes(e)),
                    node_views(out@) == mid + fts@.take(j as int).flat_map(ff),
                decreases fts.len() - j,
            {
                add_fault_tree_nodes(&fts[j], &mut out);
                proof {
                    lemma_flat_map_step(fts@, ff, j as int);
                }
                j = j + 1;
            }
            proof {
                lemma_take_all(fts@);
            }
        },
        None => {
            assert(trees_of(*doc).map_values(ff) =~= Seq::<Seq<GraphNodeView>>::empty());
            assert(trees_of(*doc).flat_map(ff) =~= Seq::<GraphNodeView>::empty());
            assert(node_views(out@) =~= mid + trees_of(*doc).flat_map(ff));
        },
    }
    out
}

pub open spec fn outline_kind(n: OutlineNode) -> Seq<char> {
    match n.kind {
        OutlineNodeKind::Leaf { .. } => "generic_tree_leaf"@,
        OutlineNodeKind::Gate { .. } => "generic_tree_gate"@,
    }
}

pub open spec fn outline_children(n: OutlineNode) -> Seq<String> {
    match n.kind {
        OutlineNodeKind::Leaf { .. } => Seq::empty(),
        OutlineNodeKind::Gate { children } => children@,
    }
}

/// The nodes of a generic tree: one per node, a leaf or a gate.
pub open spec fn generic_tree_nodes(t: TreeOutline) -> Seq<GraphNodeView> {
    t.nodes@.map_values(|n: OutlineNode| graph_node(t.id@, n.id@, outline_kind(n), n.id@, outline_attributes(n)))
}

pub open spec fn outline_node_edges(t: Seq<char>, n: OutlineNode) -> Seq<GraphEdgeView> {
    outline_children(n).map_values(|c: String| edge(qualified(t, n.id@), qualified(t, c@), None))
}

/// The edges of a generic tree: each node to each of its children,
/// unlabelled.
pub open spec fn generic_tree_edges(t: TreeOutline) -> Seq<GraphEdgeView> {
    t.nodes@.flat_map(|n: OutlineNode| outline_node_edges(t.id@, n))
}

fn add_generic_tree(t: &TreeOutline, nodes: &mut Vec<GraphNode>, edges: &mut Vec<GraphEdge>)
    ensures
        node_views(final(nodes)@) == node_views(old(nodes)@) + generic_tree_nodes(*t),
        edge_views(final(edges)@) == edge_views(old(edges)@) + generic_tree_edges(*t),
{
    let tid = t.id.as_str();
    let ns = &t.nodes;
    let ghost fnode = |n: OutlineNode| graph_node(tid@, n.id@, outline_kind(n), n.id@, outline_attributes(n));
    let ghost fedge = |n: OutlineNode| outline_node_edges(tid@, n);
    let ghost e0 = edge_views(edges@);
    proof {
        lemma_flat_map_empty(ns@, fedge);
    }
    let mut i: usize = 0;
    while i < ns.len()
        invariant
            i <= ns@.len(),
            ns@ == t.nodes@,
            tid@ == t.id@,
            fnode == (|n: OutlineNode| graph_node(tid@, n.id@, outline_kind(n), n.id@, outline_attributes(n))),
            fedge == (|n: OutlineNode| outline_node_edges(tid@, n)),
            node_views(nodes@) == node_views(old(nodes)@) + ns@.take(i as int).map_values(fnode),
            edge_views(edges@) == e0 + ns@.take(i as int).flat_map(fedge),
        decreases ns.len() - i,
    {
        let n = &ns[i];
        let kind = match &n.kind {
            OutlineNodeKind::Leaf { .. } => "generic_tree_leaf",
            OutlineNodeKind::Gate { .. } => "generic_tree_gate",
        };
        push_node(nodes, tid, n.id.as_str(), kind, n.id.as_str(), outline_attributes_of(n));
        assert(ns@.take(i as int + 1).map_values(fnode) =~= ns@.take(i as int).map_values(fnode).push(
            fnode(*n),
        ));
        let ghost before = edge_views(edges@);
        match &n.kind {
            OutlineNodeKind::Leaf { .. } => {
                assert(outline_node_edges(tid@, *n) =~= Seq::<GraphEdgeView>::empty());
            },
            OutlineNodeKind::Gate { children } => {
                let ghost fc = |c: String| edge(qualified(tid@, n.id@), qualified(tid@, c@), None);
                let mut j: usize = 0;
                while j < children.len()
                    invariant
                        j <= children@.len(),
                        n.kind == (OutlineNodeKind::Gate { children: *children }),
                        fc == (|c: String| edge(qualified(tid@, n.id@), qualified(tid@, c@), None)),
                        edge_views(edges@) == before + children@.take(j as int).map_values(fc),
                    decreases children.len() - j,
                {
                    push_edge(edges, qualify(tid, n.id.as_str()), qualify(tid, children[j].as_str()), None);
                    assert(children@.take(j as int + 1).map_values(fc) =~= children@.take(j as int).map_values(
                        fc,
                    ).push(fc(children@[j as int])));
                    j = j + 1;
                }
                assert(children@.take(children@.len() as int) =~= children@);
            },
        }
        assert(edge_views(edges@) == before + fedge(*n));
        proof {
            lemma_flat_map_step(ns@, fedge, i as int);
        }
        i = i + 1;
    }
    proof {
        lemma_take_all(ns@);
    }
}

/// A whole document as one graph: event trees, fault trees and the generic
/// trees that pass validation, in one node and edge namespace.
#[derive(Debug, Clone)]
pub struct DocumentGraph {
    pub nodes: Vec<GraphNode>,
    pub edges: Vec<GraphEdge>,
}

/// Project `doc` into its unified graph: the nodes of [`graph_nodes`] and
/// the edges of [`graph_edges`], then those of each generic tree of
/// `x-tree-event` (given as the caller read them) that passes validation.
pub fn build_graph(doc: &Document, trees: Option<TreeManifest>) -> (g: DocumentGraph)
    ensures
        node_views(g.nodes@) == document_nodes(*doc) + trees_outcome(*doc, trees).0.flat_map(
            |t: TreeOutline| generic_tree_nodes(t),
        ),
        edge_views(g.edges@) == document_edges(*doc) + trees_outcome(*doc, trees).0.flat_map(
            |t: TreeOutline| generic_tree_edges(t),
        ),
{
    let mut nodes = graph_nodes(doc);
    let mut edges = graph_edges(doc);
    let (generic, _) = parse_and_validate_trees(doc, trees);
    let ghost n0 = node_views(nodes@);
    let ghost e0 = edge_views(edges@);
    let ghost fn_ = |t: TreeOutline| generic_tree_nodes(t);
    let ghost fe = |t: TreeOutline| generic_tree_edges(t);
    proof {
        lemma_flat_map_empty(generic@, fn_);
        lemma_flat_map_empty(generic@, fe);
    }
    let mut i: usize = 0;
    while i < generic.len()
        invariant
            i <= generic@.len(),
            fn_ == (|t: TreeOutline| generic_tree_nodes(t)),
            fe == (|t: TreeOutline| generic_tree_edges(t)),
            node_views(nodes@) == n0 + generic@.take(i as int).flat_map(fn_),
            edge_views(edges@) == e0 + generic@.take(i as int).flat_map(fe),
        decreases generic.len() - i,
    {
        add_generic_tree(&generic[i], &mut nodes, &mut edges);
        proof {
            lemma_flat_map_step(generic@, fn_, i as int);
            lemma_flat_map_step(generic@, fe, i as int);
        }
        i = i + 1;
    }
    proof {
        lemma_take_all(generic@);
    }
    DocumentGraph { nodes, edges }
}

} // verus!
