use etdl_compiler::diagnostic::Diagnostic;
use etdl_compiler::extension::builtin_registry;
use etdl_compiler::live_reliability::{
    parse_and_validate_live_reliability, LiveBasicEventDecl, LiveFaultTreeDecl, LiveReliabilityData,
    LiveReliabilityManifest, LiveReliabilityResult,
};
use etdl_compiler::model::{
    BasicEvent, BasicEventEntry, Consequence, ConsequenceOperation, Document, EventTree,
    EventTreeEntry, ExternalRef, FaultTree, FaultTreeEntry, InitiatingEvent, Measure, MessageRef,
    Node, NodeEntry, Supplement, TopEvent,
};

fn measure(x: f64) -> Measure {
    Measure {
        text: format!("{}", x),
        finite: x.is_finite(),
        negative: x < 0.0,
        positive: x > 0.0,
        above_one: x > 1.0,
        below_one: x < 1.0,
    }
}

/// The value a declaration gets where `threshold` is omitted.
const DEFAULT_THRESHOLD: f64 = 0.10;
/// The value an entry gets where `priorStrength` is omitted.
const DEFAULT_PRIOR_STRENGTH: f64 = 20.0;

fn basic_event(id: &str, p: f64) -> BasicEventEntry {
    BasicEventEntry {
        id: id.to_string(),
        event: BasicEvent {
            probability: Some(measure(p)),
            failure_rate: None,
            mission_time: None,
            is_house: false,
            message: None,
            declares_reliability_source: false,
            reliability_source: None,
            reliability_estimate: None,
        },
    }
}

/// Event tree `T` with a lone consequence, and fault tree
/// `PaymentGatewayFailure` with basic events `GatewayUnreachable` and
/// `ChargeRejected`.
fn base_doc(declare: bool) -> Document {
    Document {
        etdl: "1.0.0".to_string(),
        supplements: if declare {
            vec![Supplement { id: "etdl.live-reliability".to_string(), version: "1.0".to_string(), required: true }]
        } else {
            vec![]
        },
        libraries: vec![],
        asyncapi_aliases: vec![],
        component_messages: vec![],
        event_trees: vec![EventTreeEntry {
            name: "T".to_string(),
            tree: EventTree {
                initiating_event: InitiatingEvent {
                    id: "I".to_string(),
                    message: MessageRef::External(ExternalRef { alias: "a".to_string(), pointer: "/m".to_string() }),
                    next: "C".to_string(),
                },
                nodes: vec![NodeEntry {
                    id: "C".to_string(),
                    node: Node::Consequence(Consequence {
                        operation: ConsequenceOperation::Terminate,
                        channel: None,
                        message: None,
                    }),
                }],
            },
        }],
        fault_trees: if declare {
            Some(vec![FaultTreeEntry {
                name: "PaymentGatewayFailure".to_string(),
                tree: FaultTree {
                    top_event: TopEvent {
                        id: "PaymentCaptureFailed".to_string(),
                        message: None,
                        root_cause: "#/faultTrees/PaymentGatewayFailure/basicEvents/GatewayUnreachable".to_string(),
                    },
                    gates: None,
                    basic_events: vec![basic_event("GatewayUnreachable", 0.01), basic_event("ChargeRejected", 0.02)],
                    transfers: None,
                },
            }])
        } else {
            None
        },
    }
}

fn entry(id: &str, source: &str, prior_strength: f64) -> LiveBasicEventDecl {
    LiveBasicEventDecl { id: id.to_string(), source: source.to_string(), prior_strength: measure(prior_strength) }
}

fn decl(id: &str, threshold: f64, basic_events: Vec<LiveBasicEventDecl>) -> LiveFaultTreeDecl {
    LiveFaultTreeDecl { id: id.to_string(), basic_events, threshold: measure(threshold) }
}

fn run(fault_trees: Option<Result<Vec<LiveFaultTreeDecl>, String>>) -> (LiveReliabilityData, Vec<Diagnostic>) {
    parse_and_validate_live_reliability(&base_doc(true), Some(LiveReliabilityManifest { fault_trees }))
}

fn has(ds: &[Diagnostic], code: &str) -> bool {
    ds.iter().any(|d| d.code == code)
}

#[test]
fn live_reliability_extension_is_registered_and_built_in() {
    let registry = builtin_registry();
    assert!(registry.contains("etdl.live-reliability"));
    assert!(registry.list().contains(&"etdl.live-reliability".to_string()));
}

#[test]
fn document_without_x_live_reliability_has_no_diagnostics() {
    let (data, d) = parse_and_validate_live_reliability(&base_doc(false), None);
    assert!(data.fault_trees.is_empty());
    assert!(d.is_empty());
}

#[test]
fn valid_declaration_has_no_diagnostics() {
    let (data, d) = run(Some(Ok(vec![decl(
        "PaymentGatewayFailure",
        0.1,
        vec![entry("GatewayUnreachable", "local", 20.0), entry("ChargeRejected", "inbound", DEFAULT_PRIOR_STRENGTH)],
    )])));
    assert!(d.is_empty(), "unexpected: {d:?}");
    assert_eq!(data.fault_trees.len(), 1);
    assert_eq!(data.fault_trees[0].basic_events.len(), 2);
}

#[test]
fn defaults_apply_when_threshold_and_prior_strength_are_omitted() {
    let (data, d) = run(Some(Ok(vec![decl(
        "PaymentGatewayFailure",
        DEFAULT_THRESHOLD,
        vec![entry("GatewayUnreachable", "local", DEFAULT_PRIOR_STRENGTH)],
    )])));
    assert!(d.is_empty(), "unexpected: {d:?}");
    assert_eq!(data.fault_trees[0].threshold.text.parse::<f64>().unwrap(), 0.10);
    assert_eq!(data.fault_trees[0].basic_events[0].prior_strength.text.parse::<f64>().unwrap(), 20.0);
}

#[test]
fn malformed_manifest_produces_e170() {
    let (data, d) = run(Some(Err("invalid type: string \"oops\", expected a sequence".to_string())));
    assert!(data.fault_trees.is_empty());
    assert!(has(&d, "E-170"));
}

#[test]
fn unresolvable_fault_tree_id_produces_e171() {
    let (data, d) = run(Some(Ok(vec![decl("NoSuchFaultTree", DEFAULT_THRESHOLD, vec![])])));
    assert!(data.fault_trees.is_empty());
    assert!(has(&d, "E-171"));
}

#[test]
fn unresolvable_basic_event_id_produces_e171() {
    let (data, d) = run(Some(Ok(vec![decl(
        "PaymentGatewayFailure",
        DEFAULT_THRESHOLD,
        vec![entry("DoesNotExist", "local", DEFAULT_PRIOR_STRENGTH)],
    )])));
    assert!(data.fault_trees[0].basic_events.is_empty());
    assert!(has(&d, "E-171"));
}

#[test]
fn invalid_source_produces_e170() {
    let (data, d) = run(Some(Ok(vec![decl(
        "PaymentGatewayFailure",
        DEFAULT_THRESHOLD,
        vec![entry("GatewayUnreachable", "sometimes", DEFAULT_PRIOR_STRENGTH)],
    )])));
    assert!(data.fault_trees[0].basic_events.is_empty());
    assert!(has(&d, "E-170"));
}

#[test]
fn non_positive_prior_strength_produces_e170() {
    let (data, d) = run(Some(Ok(vec![decl(
        "PaymentGatewayFailure",
        DEFAULT_THRESHOLD,
        vec![entry("GatewayUnreachable", "local", 0.0)],
    )])));
    assert!(data.fault_trees[0].basic_events.is_empty());
    assert!(has(&d, "E-170"));
}

#[test]
fn small_prior_strength_produces_w414_but_is_still_accepted() {
    let (data, d) = run(Some(Ok(vec![decl(
        "PaymentGatewayFailure",
        DEFAULT_THRESHOLD,
        vec![entry("GatewayUnreachable", "local", 0.5)],
    )])));
    assert_eq!(data.fault_trees[0].basic_events.len(), 1);
    assert!(has(&d, "W-414"));
    assert!(!d.iter().any(|x| x.is_error()));
}

#[test]
fn negative_threshold_produces_e170() {
    let (data, d) = run(Some(Ok(vec![decl("PaymentGatewayFailure", -0.1, vec![])])));
    assert!(data.fault_trees.is_empty());
    assert!(has(&d, "E-170"));
}

#[test]
fn duplicate_fault_tree_entry_produces_e172() {
    let (_data, d) = run(Some(Ok(vec![
        decl("PaymentGatewayFailure", DEFAULT_THRESHOLD, vec![]),
        decl("PaymentGatewayFailure", DEFAULT_THRESHOLD, vec![]),
    ])));
    assert!(d.iter().any(|x| x.code == "E-172" && x.message.contains("duplicate")));
}

#[test]
fn duplicate_basic_event_entry_produces_e172() {
    let (data, d) = run(Some(Ok(vec![decl(
        "PaymentGatewayFailure",
        DEFAULT_THRESHOLD,
        vec![
            entry("GatewayUnreachable", "local", DEFAULT_PRIOR_STRENGTH),
            entry("GatewayUnreachable", "inbound", DEFAULT_PRIOR_STRENGTH),
        ],
    )])));
    assert_eq!(data.fault_trees[0].basic_events.len(), 1);
    assert!(d.iter().any(|x| x.code == "E-172" && x.message.contains("duplicate")));
}

#[test]
fn live_reliability_process_returns_typed_result_with_correct_extension_id() {
    let (_data, d) = run(Some(Ok(vec![decl(
        "PaymentGatewayFailure",
        DEFAULT_THRESHOLD,
        vec![entry("GatewayUnreachable", "local", DEFAULT_PRIOR_STRENGTH)],
    )])));
    assert!(d.is_empty(), "unexpected: {d:?}");
    assert_eq!(LiveReliabilityResult.extension_id(), "etdl.live-reliability");
}
