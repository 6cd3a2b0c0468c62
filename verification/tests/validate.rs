use etdl_compiler::diagnostic::Diagnostic;
use etdl_compiler::ecel::Condition;
use etdl_compiler::model::{
    AsyncApiRegistry, Barrier, BasicEvent, BasicEventEntry, Branch, ChannelRef, Consequence,
    ConsequenceOperation, Document, EventTree, EventTreeEntry, ExternalRef, FaultTree,
    FaultTreeEntry, Gate, GateEntry, GateType, InitiatingEvent, Measure, MessageRef, Node,
    NodeEntry, Operation, Supplement, TopEvent,
};
use etdl_compiler::validate::validate_document;

fn measure(x: f64) -> Measure {
    Measure {
        text: format!("{}", x),
        finite: x.is_finite(),
        negative: x < 0.0,
        positive: x > 0.0,
        above_one: x > 1.0,
        below_one: x < 1.0,
    }
}

fn ext(alias: &str, pointer: &str) -> ExternalRef {
    ExternalRef { alias: alias.to_string(), pointer: pointer.to_string() }
}

fn branch(outcome: &str, condition: Condition, probability: bool, next: &str) -> Branch {
    Branch {
        outcome: outcome.to_string(),
        condition,
        has_probability: probability,
        probability_source: None,
        next: next.to_string(),
    }
}

fn default_branch(next: &str) -> Branch {
    branch("DEFAULT", Condition::Default, false, next)
}

fn operation(handler: &str, next: &str, on_failure: Option<&str>) -> Node {
    Node::Operation(Operation {
        handler: handler.to_string(),
        next: next.to_string(),
        on_failure: on_failure.map(|s| s.to_string()),
        emits: None,
        on_failure_probability_source: None,
    })
}

fn terminate() -> Node {
    Node::Consequence(Consequence { operation: ConsequenceOperation::Terminate, channel: None, message: None })
}

fn node(id: &str, node: Node) -> NodeEntry {
    NodeEntry { id: id.to_string(), node }
}

fn basic_event(id: &str, probability: Option<f64>, failure_rate: Option<f64>) -> BasicEventEntry {
    BasicEventEntry {
        id: id.to_string(),
        event: BasicEvent {
            probability: probability.map(measure),
            failure_rate: failure_rate.map(measure),
            mission_time: None,
            is_house: false,
            message: None,
            declares_reliability_source: false,
            reliability_source: None,
            reliability_estimate: None,
        },
    }
}

fn gate(id: &str, gate_type: GateType, inputs: &[&str]) -> GateEntry {
    GateEntry {
        id: id.to_string(),
        gate: Gate { gate_type, inputs: inputs.iter().map(|s| s.to_string()).collect(), k: None, has_inhibit_condition: false },
    }
}

/// A document that passes every check: `I -> B`; `B` branches `OK` (with a
/// probability) to `Op` and by default to `C`; `Op` goes to `C` either way;
/// fault tree `FT` is `G = OR(A, B)`.
fn valid_doc() -> Document {
    Document {
        etdl: "1.0.0".to_string(),
        supplements: vec![],
        libraries: vec![],
        asyncapi_aliases: vec!["a".to_string()],
        component_messages: vec![],
        event_trees: vec![EventTreeEntry {
            name: "T".to_string(),
            tree: EventTree {
                initiating_event: InitiatingEvent {
                    id: "I".to_string(),
                    message: MessageRef::External(ext("a", "/m")),
                    next: "B".to_string(),
                },
                nodes: vec![
                    node(
                        "B",
                        Node::Barrier(Barrier {
                            branches: vec![branch("OK", Condition::Default, true, "Op"), default_branch("C")],
                        }),
                    ),
                    node("Op", operation("handle_payment", "C", Some("C"))),
                    node("C", terminate()),
                ],
            },
        }],
        fault_trees: Some(vec![FaultTreeEntry {
            name: "FT".to_string(),
            tree: FaultTree {
                top_event: TopEvent { id: "Top".to_string(), message: None, root_cause: "G".to_string() },
                gates: Some(vec![gate("G", GateType::Or, &["A", "B"])]),
                basic_events: vec![basic_event("A", Some(0.1), None), basic_event("B", Some(0.2), None)],
                transfers: None,
            },
        }]),
    }
}

fn registry() -> AsyncApiRegistry {
    AsyncApiRegistry { resolvable: vec![ext("a", "/m")] }
}

fn validate(doc: &Document) -> Vec<Diagnostic> {
    let mut d = Vec::new();
    validate_document(doc, &registry(), &mut d);
    d
}

fn codes(doc: &Document) -> Vec<String> {
    validate(doc).into_iter().map(|d| d.code).collect()
}

fn nodes(doc: &mut Document) -> &mut Vec<NodeEntry> {
    &mut doc.event_trees[0].tree.nodes
}

fn fault_tree(doc: &mut Document) -> &mut FaultTree {
    &mut doc.fault_trees.as_mut().unwrap()[0].tree
}

fn valid_with_condition() -> Document {
    // The first branch of `B` carries a real (non-default) condition.
    let mut doc = valid_doc();
    if let Node::Barrier(b) = &mut nodes(&mut doc)[0].node {
        b.branches[0].condition = Condition::Expr(etdl_compiler::ecel::BoolExpr::Defined(etdl_compiler::ecel::PathExpr {
            segments: vec![etdl_compiler::ecel::PathSegment::Field("message".to_string())],
        }));
    }
    doc
}

#[test]
fn a_valid_document_has_no_diagnostics() {
    let d = validate(&valid_with_condition());
    assert!(d.is_empty(), "unexpected: {d:?}");
}

#[test]
fn unsupported_language_version_is_e100() {
    let mut doc = valid_with_condition();
    doc.etdl = "2.0.0".to_string();
    assert!(codes(&doc).contains(&"E-100".to_string()));
}

#[test]
fn dangling_initiating_next_is_v101() {
    let mut doc = valid_with_condition();
    doc.event_trees[0].tree.initiating_event.next = "Missing".to_string();
    let d = validate(&doc);
    assert!(d.iter().any(|x| x.code == "V-101"
        && x.message == "tree 'T': initiatingEvent.next 'Missing' does not resolve to a node in this tree"), "{d:?}");
}

#[test]
fn barrier_with_one_branch_is_v201() {
    let mut doc = valid_with_condition();
    nodes(&mut doc)[0].node = Node::Barrier(Barrier { branches: vec![default_branch("Op")] });
    assert!(codes(&doc).contains(&"V-201".to_string()));
}

#[test]
fn default_branch_not_last_is_v202() {
    let mut doc = valid_with_condition();
    if let Node::Barrier(b) = &mut nodes(&mut doc)[0].node {
        b.branches.reverse();
    }
    assert!(codes(&doc).contains(&"V-202".to_string()));
}

#[test]
fn conditional_branch_without_probability_is_v203() {
    let mut doc = valid_with_condition();
    if let Node::Barrier(b) = &mut nodes(&mut doc)[0].node {
        b.branches[0].has_probability = false;
    }
    assert!(codes(&doc).contains(&"V-203".to_string()));
}

#[test]
fn operation_rules_w401_and_v301() {
    let mut doc = valid_with_condition();
    nodes(&mut doc)[1].node = operation("9bad", "C", None);
    let c = codes(&doc);
    assert!(c.contains(&"W-401".to_string()), "{c:?}");
    assert!(c.contains(&"V-301".to_string()), "{c:?}");
}

#[test]
fn send_without_channel_is_v302() {
    let mut doc = valid_with_condition();
    nodes(&mut doc)[2].node = Node::Consequence(Consequence {
        operation: ConsequenceOperation::Send,
        channel: None,
        message: Some(MessageRef::External(ext("a", "/m"))),
    });
    assert!(codes(&doc).contains(&"V-302".to_string()));
    let mut ok = valid_with_condition();
    nodes(&mut ok)[2].node = Node::Consequence(Consequence {
        operation: ConsequenceOperation::Send,
        channel: Some(ChannelRef::Bare("orders".to_string())),
        message: Some(MessageRef::External(ext("a", "/m"))),
    });
    assert!(!codes(&ok).contains(&"V-302".to_string()));
}

#[test]
fn cycle_is_v102() {
    let mut doc = valid_with_condition();
    nodes(&mut doc)[1].node = operation("handle_payment", "B", Some("C"));
    assert!(codes(&doc).contains(&"V-102".to_string()));
}

#[test]
fn unreachable_node_is_v103() {
    let mut doc = valid_with_condition();
    nodes(&mut doc).push(node("Orphan", terminate()));
    let d = validate(&doc);
    assert!(d.iter().any(|x| x.code == "V-103" && x.message.contains("'Orphan'")), "{d:?}");
}

#[test]
fn unknown_import_alias_is_reported() {
    let mut doc = valid_with_condition();
    doc.event_trees[0].tree.initiating_event.message = MessageRef::External(ext("zzz", "/m"));
    let c = codes(&doc);
    assert!(c.contains(&"E-103".to_string()), "{c:?}");
}

#[test]
fn unresolved_root_cause_is_v401() {
    let mut doc = valid_with_condition();
    fault_tree(&mut doc).top_event.root_cause = "Nope".to_string();
    assert!(codes(&doc).contains(&"V-401".to_string()));
}

#[test]
fn gate_and_basic_event_sharing_an_id_is_v402() {
    let mut doc = valid_with_condition();
    fault_tree(&mut doc).basic_events.push(basic_event("G", Some(0.1), None));
    assert!(codes(&doc).contains(&"V-402".to_string()));
}

#[test]
fn gate_cycle_is_v403() {
    let mut doc = valid_with_condition();
    fault_tree(&mut doc).gates = Some(vec![gate("G", GateType::Or, &["A", "H"]), gate("H", GateType::Or, &["G", "B"])]);
    assert!(codes(&doc).contains(&"V-403".to_string()));
}

#[test]
fn unreachable_basic_event_is_v404() {
    let mut doc = valid_with_condition();
    fault_tree(&mut doc).basic_events.push(basic_event("Z", Some(0.1), None));
    assert!(codes(&doc).contains(&"V-404".to_string()));
}

#[test]
fn and_gate_with_one_input_is_v501() {
    let mut doc = valid_with_condition();
    fault_tree(&mut doc).gates = Some(vec![gate("G", GateType::And, &["A"])]);
    fault_tree(&mut doc).basic_events.truncate(1);
    assert!(codes(&doc).contains(&"V-501".to_string()));
}

#[test]
fn basic_event_without_probability_or_rate_is_v503() {
    let mut doc = valid_with_condition();
    fault_tree(&mut doc).basic_events[0] = basic_event("A", None, None);
    assert!(codes(&doc).contains(&"V-503".to_string()));
}

#[test]
fn failure_rate_without_mission_time_is_v504() {
    let mut doc = valid_with_condition();
    fault_tree(&mut doc).basic_events[0] = basic_event("A", None, Some(0.001));
    assert!(codes(&doc).contains(&"V-504".to_string()));
}

#[test]
fn probability_above_one_is_v507() {
    let mut doc = valid_with_condition();
    fault_tree(&mut doc).basic_events[0] = basic_event("A", Some(1.5), None);
    assert!(codes(&doc).contains(&"V-507".to_string()));
}

#[test]
fn unknown_required_supplement_is_an_error_and_optional_a_warning() {
    let mut doc = valid_with_condition();
    doc.supplements = vec![Supplement { id: "etdl.custom".to_string(), version: "1.0".to_string(), required: true }];
    let d = validate(&doc);
    assert!(d.iter().any(|x| x.is_error()), "{d:?}");
    doc.supplements[0].required = false;
    let d = validate(&doc);
    assert!(!d.is_empty() && !d.iter().any(|x| x.is_error()), "{d:?}");
}

#[test]
fn supplement_id_outside_the_etdl_namespace_is_e106() {
    let mut doc = valid_with_condition();
    doc.supplements = vec![Supplement { id: "acme.custom".to_string(), version: "1.0".to_string(), required: false }];
    assert!(codes(&doc).contains(&"E-106".to_string()));
}
