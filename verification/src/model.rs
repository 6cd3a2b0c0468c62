//! The ETDL document, modelled as plain values.
//!
//! Every keyed collection of the source document (event trees, nodes, fault
//! trees, gates, basic events, transfers) is an ordered list of entries,
//! each carrying its key; the order is the document's iteration order.
//! Floating-point fields are carried as a [`Measure`]: the classification
//! of the number that the checks read, plus its display text.

use vstd::prelude::*;
use crate::ecel::Condition;

verus! {

/// A floating-point value of the document, as the checks read it.
#[derive(Debug, Clone)]
pub struct Measure {
    /// The value as it is displayed in messages.
    pub text: String,
    /// Neither NaN nor infinite.
    pub finite: bool,
    /// Strictly below zero.
    pub negative: bool,
    /// Strictly above zero.
    pub positive: bool,
    /// Strictly above one.
    pub above_one: bool,
    /// Strictly below one.
    pub below_one: bool,
}

/// A `supplements:` declaration.
#[derive(Debug, Clone)]
pub struct Supplement {
    pub id: String,
    pub version: String,
    pub required: bool,
}

/// A `libraries:` import.
#[derive(Debug, Clone)]
pub struct LibraryImport {
    pub name: String,
    pub version: String,
    pub required: bool,
}

/// `<alias>#<pointer>`: a reference into an imported AsyncAPI document.
#[derive(Debug, Clone)]
pub struct ExternalRef {
    pub alias: String,
    pub pointer: String,
}

/// A message reference: into an AsyncAPI import, or into the document's own
/// `components.messages` (by pointer).
#[derive(Debug, Clone)]
pub enum MessageRef {
    External(ExternalRef),
    Internal(String),
}

/// A channel reference: into an AsyncAPI import, or a bare channel name.
#[derive(Debug, Clone)]
pub enum ChannelRef {
    External(ExternalRef),
    Bare(String),
}

#[derive(Debug, Clone)]
pub struct InitiatingEvent {
    pub id: String,
    pub message: MessageRef,
    pub next: String,
}

/// One branch of a barrier.
#[derive(Debug)]
pub struct Branch {
    pub outcome: String,
    pub condition: Condition,
    /// Whether the branch declares (or caches) a probability.
    pub has_probability: bool,
    /// The pointer of `probabilitySource`, when declared.
    pub probability_source: Option<String>,
    pub next: String,
}

#[derive(Debug)]
pub struct Barrier {
    pub branches: Vec<Branch>,
}

#[derive(Debug, Clone)]
pub struct Operation {
    pub handler: String,
    pub next: String,
    pub on_failure: Option<String>,
    pub emits: Option<MessageRef>,
    /// The pointer of `onFailureProbabilitySource`, when declared.
    pub on_failure_probability_source: Option<String>,
}

#[derive(Debug, Clone, Copy, PartialEq, Eq, Structural)]
pub enum ConsequenceOperation {
    Send,
    Terminate,
}

#[derive(Debug, Clone)]
pub struct Consequence {
    pub operation: ConsequenceOperation,
    pub channel: Option<ChannelRef>,
    pub message: Option<MessageRef>,
}

#[derive(Debug)]
pub enum Node {
    Barrier(Barrier),
    Operation(Operation),
    Consequence(Consequence),
}

#[derive(Debug)]
pub struct NodeEntry {
    pub id: String,
    pub node: Node,
}

#[derive(Debug)]
pub struct EventTree {
    pub initiating_event: InitiatingEvent,
    pub nodes: Vec<NodeEntry>,
}

#[derive(Debug)]
pub struct EventTreeEntry {
    pub name: String,
    pub tree: EventTree,
}

#[derive(Debug, Clone, Copy, PartialEq, Eq, Structural)]
pub enum GateType {
    And,
    Or,
    Not,
    Xor,
    Voting,
    Inhibit,
    PriorityAnd,
}

#[derive(Debug, Clone)]
pub struct Gate {
    pub gate_type: GateType,
    pub inputs: Vec<String>,
    pub k: Option<u32>,
    pub has_inhibit_condition: bool,
}

#[derive(Debug, Clone)]
pub struct GateEntry {
    pub id: String,
    pub gate: Gate,
}

#[derive(Debug, Clone)]
pub struct BasicEvent {
    pub probability: Option<Measure>,
    pub failure_rate: Option<Measure>,
    pub mission_time: Option<Measure>,
    /// Declared `type: house`.
    pub is_house: bool,
    pub message: Option<MessageRef>,
    /// Whether `x-reliability.source` is present, whatever its value.
    pub declares_reliability_source: bool,
    /// `x-reliability.source`, when declared as a string.
    pub reliability_source: Option<String>,
    /// `x-reliability.estimate`, when declared as a string.
    pub reliability_estimate: Option<String>,
}

#[derive(Debug, Clone)]
pub struct BasicEventEntry {
    pub id: String,
    pub event: BasicEvent,
}

#[derive(Debug, Clone)]
pub struct Transfer {
    pub target: String,
    pub label: Option<String>,
}

#[derive(Debug, Clone)]
pub struct TransferEntry {
    pub id: String,
    pub transfer: Transfer,
}

#[derive(Debug, Clone)]
pub struct TopEvent {
    pub id: String,
    pub message: Option<MessageRef>,
    pub root_cause: String,
}

#[derive(Debug, Clone)]
pub struct FaultTree {
    pub top_event: TopEvent,
    pub gates: Option<Vec<GateEntry>>,
    pub basic_events: Vec<BasicEventEntry>,
    pub transfers: Option<Vec<TransferEntry>>,
}

#[derive(Debug, Clone)]
pub struct FaultTreeEntry {
    pub name: String,
    pub tree: FaultTree,
}

/// A parsed ETDL document.
#[derive(Debug)]
pub struct Document {
    /// The `etdl` language version.
    pub etdl: String,
    pub supplements: Vec<Supplement>,
    pub libraries: Vec<LibraryImport>,
    /// The keys of `asyncapi_imports`.
    pub asyncapi_aliases: Vec<String>,
    /// The keys of the document's own `components.messages`.
    pub component_messages: Vec<String>,
    pub event_trees: Vec<EventTreeEntry>,
    pub fault_trees: Option<Vec<FaultTreeEntry>>,
}

/// The resolvable part of the loaded AsyncAPI imports: every external
/// reference whose JSON pointer resolves in the document its alias names.
#[derive(Debug, Clone)]
pub struct AsyncApiRegistry {
    pub resolvable: Vec<ExternalRef>,
}

/// The index of the first node of `nodes` with id `id`, or `nodes.len()`.
pub open spec fn node_index(nodes: Seq<NodeEntry>, id: Seq<char>) -> int
    decreases nodes.len(),
{
    if nodes.len() == 0 {
        0
    } else if nodes[0].id@ == id {
        0
    } else {
        1 + node_index(nodes.drop_first(), id)
    }
}

/// Whether some node of `nodes` has id `id`.
pub open spec fn has_node(nodes: Seq<NodeEntry>, id: Seq<char>) -> bool {
    exists|i: int| 0 <= i < nodes.len() && nodes[i].id@ == id
}

pub proof fn lemma_node_index(nodes: Seq<NodeEntry>, id: Seq<char>)
    ensures
        0 <= node_index(nodes, id) <= nodes.len(),
        node_index(nodes, id) < nodes.len() <==> has_node(nodes, id),
        node_index(nodes, id) < nodes.len() ==> nodes[node_index(nodes, id)].id@ == id,
        forall|j: int| 0 <= j < node_index(nodes, id) ==> nodes[j].id@ != id,
    decreases nodes.len(),
{
    if nodes.len() > 0 && nodes[0].id@ != id {
        lemma_node_index(nodes.drop_first(), id);
        assert forall|j: int| 0 <= j < node_index(nodes, id) implies nodes[j].id@ != id by {
            if j > 0 {
                assert(nodes[j] == nodes.drop_first()[j - 1]);
            }
        }
        if has_node(nodes, id) {
            let w = choose|i: int| 0 <= i < nodes.len() && nodes[i].id@ == id;
            assert(nodes.drop_first()[w - 1].id@ == id);
        }
        if has_node(nodes.drop_first(), id) {
            let w = choose|i: int| 0 <= i < nodes.len() - 1 && nodes.drop_first()[i].id@ == id;
            assert(nodes[w + 1].id@ == id);
        }
    }
}

} // verus!

verus! {

/// The index of the first occurrence of `x` in `ids`, or `ids.len()`.
pub open spec fn index_of(ids: Seq<Seq<char>>, x: Seq<char>) -> int
    decreases ids.len(),
{
    if ids.len() == 0 {
        0
    } else if ids[0] == x {
        0
    } else {
        1 + index_of(ids.drop_first(), x)
    }
}

pub proof fn lemma_index_of(ids: Seq<Seq<char>>, x: Seq<char>)
    ensures
        0 <= index_of(ids, x) <= ids.len(),
        index_of(ids, x) < ids.len() <==> ids.contains(x),
        index_of(ids, x) < ids.len() ==> ids[index_of(ids, x)] == x,
        forall|j: int| 0 <= j < index_of(ids, x) ==> ids[j] != x,
    decreases ids.len(),
{
    if ids.len() > 0 && ids[0] != x {
        lemma_index_of(ids.drop_first(), x);
        assert forall|j: int| 0 <= j < index_of(ids, x) implies ids[j] != x by {
            if j > 0 {
                assert(ids[j] == ids.drop_first()[j - 1]);
            }
        }
        if ids.contains(x) {
            let w = choose|i: int| 0 <= i < ids.len() && ids[i] == x;
            assert(ids.drop_first()[w - 1] == x);
        }
        if ids.drop_first().contains(x) {
            let w = choose|i: int| 0 <= i < ids.len() - 1 && ids.drop_first()[i] == x;
            assert(ids[w + 1] == x);
        }
    } else if ids.len() > 0 {
        assert(ids.contains(x));
    }
}

pub proof fn lemma_index_of_is(ids: Seq<Seq<char>>, x: Seq<char>, i: int)
    requires
        0 <= i <= ids.len(),
        i < ids.len() ==> ids[i] == x,
        forall|j: int| 0 <= j < i ==> ids[j] != x,
    ensures
        index_of(ids, x) == i,
    decreases ids.len(),
{
    if ids.len() > 0 && i > 0 {
        assert forall|j: int| 0 <= j < i - 1 implies ids.drop_first()[j] != x by {
            assert(ids.drop_first()[j] == ids[j + 1]);
        }
        lemma_index_of_is(ids.drop_first(), x, i - 1);
    }
}

/// The ids of the gates.
pub open spec fn gate_entry_ids(gs: Seq<GateEntry>) -> Seq<Seq<char>> {
    gs.map_values(|e: GateEntry| e.id@)
}

/// The ids of the nodes.
pub open spec fn node_entry_ids(ns: Seq<NodeEntry>) -> Seq<Seq<char>> {
    ns.map_values(|e: NodeEntry| e.id@)
}

/// The position of the first gate named `id`, or `gs.len()`.
pub fn gate_position(gs: &Vec<GateEntry>, id: &str) -> (r: usize)
    ensures
        r == index_of(gate_entry_ids(gs@), id@),
{
    let ghost ids = gate_entry_ids(gs@);
    let mut i: usize = 0;
    while i < gs.len()
        invariant
            i <= gs.len(),
            ids == gate_entry_ids(gs@),
            forall|j: int| 0 <= j < i ==> ids[j] != id@,
        decreases gs.len() - i,
    {
        if crate::text::same(gs[i].id.as_str(), id) {
            proof {
                lemma_index_of_is(ids, id@, i as int);
            }
            return i;
        }
        i = i + 1;
    }
    proof {
        lemma_index_of_is(ids, id@, i as int);
    }
    i
}

/// The position of the first node named `id`, or `ns.len()`.
pub fn node_position(ns: &Vec<NodeEntry>, id: &str) -> (r: usize)
    ensures
        r == index_of(node_entry_ids(ns@), id@),
{
    let ghost ids = node_entry_ids(ns@);
    let mut i: usize = 0;
    while i < ns.len()
        invariant
            i <= ns.len(),
            ids == node_entry_ids(ns@),
            forall|j: int| 0 <= j < i ==> ids[j] != id@,
        decreases ns.len() - i,
    {
        if crate::text::same(ns[i].id.as_str(), id) {
            proof {
                lemma_index_of_is(ids, id@, i as int);
            }
            return i;
        }
        i = i + 1;
    }
    proof {
        lemma_index_of_is(ids, id@, i as int);
    }
    i
}

} // verus!
