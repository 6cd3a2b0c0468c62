use etdl_compiler::diagnostic::Diagnostic;
use etdl_compiler::ecel::Condition;
use etdl_compiler::extension::builtin_registry;
use etdl_compiler::model::{
    Barrier, Branch, Consequence, ConsequenceOperation, Document, EventTree, EventTreeEntry,
    ExternalRef, InitiatingEvent, MessageRef, Node, NodeEntry, Operation, Supplement,
};
use etdl_compiler::safety::{
    parse_and_validate_safety, Hazard, SafetyBarrier, SafetyData, SafetyManifest, SafetyResult,
};

fn node(id: &str, node: Node) -> NodeEntry {
    NodeEntry { id: id.to_string(), node }
}

/// One event tree `OrderFulfillment`: barrier `RetryBarrier`, operation
/// `ProcessPaymentOperation`, consequence `FulfillmentConsequence`.
fn base_doc(declare: bool) -> Document {
    let nodes = vec![
        node(
            "RetryBarrier",
            Node::Barrier(Barrier {
                branches: vec![Branch {
                    outcome: "SUCCESS".to_string(),
                    condition: Condition::Default,
                    has_probability: true,
                    probability_source: None,
                    next: "ProcessPaymentOperation".to_string(),
                }],
            }),
        ),
        node(
            "ProcessPaymentOperation",
            Node::Operation(Operation {
                handler: "h".to_string(),
                next: "FulfillmentConsequence".to_string(),
                on_failure: None,
                emits: None,
                on_failure_probability_source: None,
            }),
        ),
        node(
            "FulfillmentConsequence",
            Node::Consequence(Consequence {
                operation: ConsequenceOperation::Terminate,
                channel: None,
                message: None,
            }),
        ),
    ];
    Document {
        etdl: "1.0.0".to_string(),
        supplements: if declare {
            vec![Supplement { id: "etdl.safety".to_string(), version: "1.0".to_string(), required: true }]
        } else {
            vec![]
        },
        libraries: vec![],
        asyncapi_aliases: vec![],
        component_messages: vec![],
        event_trees: vec![EventTreeEntry {
            name: "OrderFulfillment".to_string(),
            tree: EventTree {
                initiating_event: InitiatingEvent {
                    id: "I".to_string(),
                    message: MessageRef::External(ExternalRef {
                        alias: "a".to_string(),
                        pointer: "/m".to_string(),
                    }),
                    next: "RetryBarrier".to_string(),
                },
                nodes,
            },
        }],
        fault_trees: None,
    }
}

const CONSEQUENCE: &str = "#/eventTrees/OrderFulfillment/nodes/FulfillmentConsequence";
const BARRIER: &str = "#/eventTrees/OrderFulfillment/nodes/RetryBarrier";
const OP: &str = "#/eventTrees/OrderFulfillment/nodes/ProcessPaymentOperation";

fn hazard(id: &str, severity: &str, likelihood: &str, risk_index: i64, consequence_ref: &str) -> Hazard {
    Hazard {
        id: id.to_string(),
        description: "d".to_string(),
        severity: severity.to_string(),
        likelihood: likelihood.to_string(),
        risk_index,
        consequence_ref: consequence_ref.to_string(),
    }
}

fn barrier(id: &str, node_ref: &str, sil: i64, independent_of: &[&str], group: Option<&str>) -> SafetyBarrier {
    SafetyBarrier {
        id: id.to_string(),
        node_ref: node_ref.to_string(),
        sil,
        independent_of: independent_of.iter().map(|s| s.to_string()).collect(),
        common_cause_group: group.map(|g| g.to_string()),
    }
}

fn run(
    hazards: Option<Result<Vec<Hazard>, String>>,
    barriers: Option<Result<Vec<SafetyBarrier>, String>>,
) -> (SafetyData, Vec<Diagnostic>) {
    parse_and_validate_safety(&base_doc(true), Some(SafetyManifest { hazards, barriers }))
}

fn has(ds: &[Diagnostic], code: &str) -> bool {
    ds.iter().any(|d| d.code == code)
}

#[test]
fn safety_extension_is_registered_and_built_in() {
    let registry = builtin_registry();
    assert!(registry.contains("etdl.safety"));
    assert!(registry.list().contains(&"etdl.safety".to_string()));
}

#[test]
fn document_without_x_safety_has_no_diagnostics() {
    let (data, d) = parse_and_validate_safety(&base_doc(false), None);
    assert!(data.hazards.is_empty());
    assert!(data.barriers.is_empty());
    assert!(d.is_empty());
}

#[test]
fn valid_hazard_and_barrier_have_no_diagnostics() {
    let mut h = hazard("gateway-unavailable", "critical", "remote", 2, CONSEQUENCE);
    h.description = "payment cannot be captured while the gateway is down".to_string();
    let (data, d) = run(Some(Ok(vec![h])), Some(Ok(vec![barrier("retry-barrier", BARRIER, 2, &[], None)])));
    assert!(d.is_empty(), "unexpected: {d:?}");
    assert_eq!(data.hazards.len(), 1);
    assert_eq!(data.barriers.len(), 1);
}

#[test]
fn missing_hazards_and_barriers_keys_are_not_an_error() {
    let (data, d) = run(None, None);
    assert!(data.hazards.is_empty());
    assert!(data.barriers.is_empty());
    assert!(d.is_empty());
}

#[test]
fn malformed_hazards_produces_e130() {
    let (data, d) = run(Some(Err("invalid type: string \"oops\", expected a sequence".to_string())), None);
    assert!(data.hazards.is_empty());
    assert!(has(&d, "E-130"));
}

#[test]
fn invalid_severity_produces_e130() {
    let (data, d) = run(Some(Ok(vec![hazard("h1", "extremely-bad", "remote", 2, CONSEQUENCE)])), None);
    assert!(data.hazards.is_empty());
    assert!(has(&d, "E-130"));
}

#[test]
fn invalid_likelihood_produces_e130() {
    let (_data, d) = run(Some(Ok(vec![hazard("h1", "critical", "all-the-time", 2, CONSEQUENCE)])), None);
    assert!(has(&d, "E-130"));
}

#[test]
fn out_of_range_risk_index_produces_e130() {
    let (_data, d) = run(Some(Ok(vec![hazard("h1", "critical", "remote", 9, CONSEQUENCE)])), None);
    assert!(has(&d, "E-130"));
    assert!(!has(&d, "W-410"));
}

#[test]
fn consequence_ref_at_wrong_node_kind_produces_e131() {
    let (data, d) = run(Some(Ok(vec![hazard("h1", "critical", "remote", 2, BARRIER)])), None);
    assert!(data.hazards.is_empty());
    assert!(has(&d, "E-131"));
}

#[test]
fn barrier_node_ref_at_wrong_node_kind_produces_e131() {
    let (data, d) = run(None, Some(Ok(vec![barrier("b1", OP, 2, &[], None)])));
    assert!(data.barriers.is_empty());
    assert!(has(&d, "E-131"));
}

#[test]
fn unresolvable_node_ref_produces_e131() {
    let (_data, d) = run(
        None,
        Some(Ok(vec![barrier("b1", "#/eventTrees/OrderFulfillment/nodes/DoesNotExist", 2, &[], None)])),
    );
    assert!(has(&d, "E-131"));
}

#[test]
fn out_of_range_sil_produces_e130() {
    let (data, d) = run(None, Some(Ok(vec![barrier("b1", BARRIER, 7, &[], None)])));
    assert!(data.barriers.is_empty());
    assert!(has(&d, "E-130"));
}

#[test]
fn duplicate_hazard_id_produces_e130() {
    let mut first = hazard("dup", "critical", "remote", 2, CONSEQUENCE);
    first.description = "d1".to_string();
    let mut second = hazard("dup", "marginal", "probable", 2, CONSEQUENCE);
    second.description = "d2".to_string();
    let (_data, d) = run(Some(Ok(vec![first, second])), None);
    assert!(d.iter().any(|x| x.code == "E-130" && x.message.contains("duplicate hazard id")));
}

#[test]
fn duplicate_barrier_id_produces_e130() {
    let (_data, d) = run(
        None,
        Some(Ok(vec![barrier("dup", BARRIER, 1, &[], None), barrier("dup", BARRIER, 2, &[], None)])),
    );
    assert!(d.iter().any(|x| x.code == "E-130" && x.message.contains("duplicate safety barrier id")));
}

#[test]
fn mismatched_risk_index_produces_w410() {
    let (data, d) = run(Some(Ok(vec![hazard("h1", "catastrophic", "remote", 4, CONSEQUENCE)])), None);
    assert_eq!(data.hazards.len(), 1);
    assert!(has(&d, "W-410"));
    assert!(!d.iter().any(|x| x.is_error()));
}

#[test]
fn matching_risk_index_has_no_w410() {
    let (_data, d) = run(Some(Ok(vec![hazard("h1", "catastrophic", "remote", 2, CONSEQUENCE)])), None);
    assert!(d.is_empty(), "unexpected: {d:?}");
}

#[test]
fn mutual_independent_of_with_shared_common_cause_group_produces_e132() {
    let (data, d) = run(
        None,
        Some(Ok(vec![
            barrier("retry-barrier", BARRIER, 2, &["fallback-barrier"], Some("primary-network-path")),
            barrier("fallback-barrier", BARRIER, 1, &["retry-barrier"], Some("primary-network-path")),
        ])),
    );
    assert_eq!(data.barriers.len(), 2);
    assert!(has(&d, "E-132"));
}

#[test]
fn one_sided_independent_of_does_not_produce_e132() {
    let (_data, d) = run(
        None,
        Some(Ok(vec![
            barrier("retry-barrier", BARRIER, 2, &["fallback-barrier"], Some("primary-network-path")),
            barrier("fallback-barrier", BARRIER, 1, &[], Some("primary-network-path")),
        ])),
    );
    assert!(!has(&d, "E-132"));
}

#[test]
fn mutual_independent_of_with_different_common_cause_groups_does_not_produce_e132() {
    let (_data, d) = run(
        None,
        Some(Ok(vec![
            barrier("retry-barrier", BARRIER, 2, &["fallback-barrier"], Some("primary-network-path")),
            barrier("fallback-barrier", BARRIER, 1, &["retry-barrier"], Some("secondary-network-path")),
        ])),
    );
    assert!(!has(&d, "E-132"));
}

#[test]
fn safety_process_returns_typed_result_with_correct_extension_id() {
    let (data, d) = run(None, Some(Ok(vec![barrier("retry-barrier", BARRIER, 2, &[], None)])));
    assert!(d.is_empty(), "unexpected: {d:?}");
    let result = SafetyResult { hazards: data.hazards, barriers: data.barriers };
    assert_eq!(result.extension_id(), "etdl.safety");
    assert_eq!(result.barriers.len(), 1);
}
