use etdl_compiler::diagnostic::Diagnostic;
use etdl_compiler::diagnostics::{
    parse_and_validate_diagnostics, AnomalyRule, Correlation, DiagnosticsData, DiagnosticsManifest,
    DiagnosticsResult,
};
use etdl_compiler::ecel::Condition;
use etdl_compiler::extension::builtin_registry;
use etdl_compiler::model::{
    Barrier, BasicEvent, BasicEventEntry, Branch, Consequence, ConsequenceOperation, Document,
    EventTree, EventTreeEntry, ExternalRef, FaultTree, FaultTreeEntry, InitiatingEvent, Measure,
    MessageRef, Node, NodeEntry, Operation, Supplement, TopEvent,
};

fn measure(x: f64) -> Measure {
    Measure {
        text: format!("{}", x),
        finite: x.is_finite(),
        negative: x < 0.0,
        positive: x > 0.0,
        above_one: x > 1.0,
        below_one: x < 1.0,
    }
}

fn node(id: &str, node: Node) -> NodeEntry {
    NodeEntry { id: id.to_string(), node }
}

/// Event tree `OrderFulfillment` (barrier `RetryBarrier`, operation
/// `ProcessPaymentOperation` whose failure probability comes from fault tree
/// `PaymentGatewayFailure`, consequence `C`), and that fault tree with one
/// basic event `GatewayUnreachable`.
fn base_doc(declare: bool) -> Document {
    let nodes = vec![
        node(
            "RetryBarrier",
            Node::Barrier(Barrier {
                branches: vec![Branch {
                    outcome: "SUCCESS".to_string(),
                    condition: Condition::Default,
                    has_probability: true,
                    probability_source: None,
                    next: "ProcessPaymentOperation".to_string(),
                }],
            }),
        ),
        node(
            "ProcessPaymentOperation",
            Node::Operation(Operation {
                handler: "h".to_string(),
                next: "C".to_string(),
                on_failure: None,
                emits: None,
                on_failure_probability_source: Some("#/faultTrees/PaymentGatewayFailure/topEvent".to_string()),
            }),
        ),
        node(
            "C",
            Node::Consequence(Consequence {
                operation: ConsequenceOperation::Terminate,
                channel: None,
                message: None,
            }),
        ),
    ];
    let fault_tree = FaultTree {
        top_event: TopEvent { id: "Top".to_string(), message: None, root_cause: "GatewayUnreachable".to_string() },
        gates: None,
        basic_events: vec![BasicEventEntry {
            id: "GatewayUnreachable".to_string(),
            event: BasicEvent {
                probability: Some(measure(0.01)),
                failure_rate: None,
                mission_time: None,
                is_house: false,
                message: None,
                declares_reliability_source: false,
                reliability_source: None,
                reliability_estimate: None,
            },
        }],
        transfers: None,
    };
    Document {
        etdl: "1.0.0".to_string(),
        supplements: if declare {
            vec![Supplement { id: "etdl.diagnostics".to_string(), version: "1.0".to_string(), required: true }]
        } else {
            vec![]
        },
        libraries: vec![],
        asyncapi_aliases: vec![],
        component_messages: vec![],
        event_trees: vec![EventTreeEntry {
            name: "OrderFulfillment".to_string(),
            tree: EventTree {
                initiating_event: InitiatingEvent {
                    id: "I".to_string(),
                    message: MessageRef::External(ExternalRef {
                        alias: "a".to_string(),
                        pointer: "/m".to_string(),
                    }),
                    next: "RetryBarrier".to_string(),
                },
                nodes,
            },
        }],
        fault_trees: if declare {
            Some(vec![FaultTreeEntry { name: "PaymentGatewayFailure".to_string(), tree: fault_tree }])
        } else {
            None
        },
    }
}

const CAUSE: &str = "#/faultTrees/PaymentGatewayFailure/basicEvents/GatewayUnreachable";
const OP: &str = "#/eventTrees/OrderFulfillment/nodes/ProcessPaymentOperation";
const BARRIER: &str = "#/eventTrees/OrderFulfillment/nodes/RetryBarrier";

fn correlation(id: &str, attribute: &str, value: &str, cause_ref: &str) -> Correlation {
    Correlation {
        id: id.to_string(),
        span_attribute: attribute.to_string(),
        span_value: value.to_string(),
        cause_ref: cause_ref.to_string(),
        description: None,
    }
}

fn rule(id: &str, monitors: &str) -> AnomalyRule {
    AnomalyRule { id: id.to_string(), monitors: monitors.to_string(), description: None }
}

fn run(
    correlations: Option<Result<Vec<Correlation>, String>>,
    anomaly_rules: Option<Result<Vec<AnomalyRule>, String>>,
) -> (DiagnosticsData, Vec<Diagnostic>) {
    parse_and_validate_diagnostics(&base_doc(true), Some(DiagnosticsManifest { correlations, anomaly_rules }))
}

fn has(ds: &[Diagnostic], code: &str) -> bool {
    ds.iter().any(|d| d.code == code)
}

#[test]
fn diagnostics_extension_is_registered_and_built_in() {
    let registry = builtin_registry();
    assert!(registry.contains("etdl.diagnostics"));
    assert!(registry.list().contains(&"etdl.diagnostics".to_string()));
}

#[test]
fn document_without_x_diagnostics_has_no_diagnostics() {
    let (data, d) = parse_and_validate_diagnostics(&base_doc(false), None);
    assert!(data.correlations.is_empty());
    assert!(data.anomaly_rules.is_empty());
    assert!(d.is_empty());
}

#[test]
fn valid_correlation_and_correlated_anomaly_rule_have_no_diagnostics() {
    let (data, d) = run(
        Some(Ok(vec![correlation("gateway-timeout-correlation", "etdl.node.id", "ProcessPaymentOperation", CAUSE)])),
        Some(Ok(vec![rule("payment-operation-anomaly", OP)])),
    );
    assert!(d.is_empty(), "unexpected: {d:?}");
    assert_eq!(data.correlations.len(), 1);
    assert_eq!(data.anomaly_rules.len(), 1);
}

#[test]
fn missing_correlations_and_anomaly_rules_keys_are_not_an_error() {
    let (data, d) = run(None, None);
    assert!(data.correlations.is_empty());
    assert!(data.anomaly_rules.is_empty());
    assert!(d.is_empty());
}

#[test]
fn malformed_correlations_produces_e150() {
    let (data, d) = run(Some(Err("invalid type: string \"oops\", expected a sequence".to_string())), None);
    assert!(data.correlations.is_empty());
    assert!(has(&d, "E-150"));
}

#[test]
fn unresolvable_cause_ref_produces_e150() {
    let (data, d) = run(
        Some(Ok(vec![correlation(
            "c1",
            "etdl.node.id",
            "x",
            "#/faultTrees/PaymentGatewayFailure/basicEvents/DoesNotExist",
        )])),
        None,
    );
    assert!(data.correlations.is_empty());
    assert!(has(&d, "E-150"));
}

#[test]
fn cause_ref_at_undeclared_gate_produces_e150() {
    let (_data, d) = run(
        Some(Ok(vec![correlation("c1", "etdl.node.id", "x", "#/faultTrees/PaymentGatewayFailure/gates/DoesNotExist")])),
        None,
    );
    assert!(has(&d, "E-150"));
}

#[test]
fn unresolvable_monitors_produces_e150() {
    let (data, d) = run(None, Some(Ok(vec![rule("r1", "#/eventTrees/OrderFulfillment/nodes/DoesNotExist")])));
    assert!(data.anomaly_rules.is_empty());
    assert!(has(&d, "E-150"));
}

#[test]
fn duplicate_correlation_id_produces_e151() {
    let (_data, d) = run(
        Some(Ok(vec![correlation("dup", "a", "x", CAUSE), correlation("dup", "b", "y", CAUSE)])),
        None,
    );
    assert!(d.iter().any(|x| x.code == "E-151" && x.message.contains("duplicate correlation id")));
}

#[test]
fn duplicate_anomaly_rule_id_produces_e151() {
    let (_data, d) = run(None, Some(Ok(vec![rule("dup", BARRIER), rule("dup", OP)])));
    assert!(d.iter().any(|x| x.code == "E-151" && x.message.contains("duplicate anomaly rule id")));
}

#[test]
fn correlation_and_anomaly_rule_may_share_an_id() {
    let (_data, d) = run(
        Some(Ok(vec![correlation("shared", "a", "x", CAUSE)])),
        Some(Ok(vec![rule("shared", OP)])),
    );
    assert!(!has(&d, "E-151"));
}

#[test]
fn monitored_operation_with_no_probability_source_produces_w412() {
    let (data, d) = run(None, Some(Ok(vec![rule("r1", BARRIER)])));
    assert_eq!(data.anomaly_rules.len(), 1);
    assert!(!has(&d, "W-412"));
}

#[test]
fn monitored_operation_with_uncorrelated_probability_source_produces_w412() {
    let (data, d) = run(None, Some(Ok(vec![rule("r1", OP)])));
    assert_eq!(data.anomaly_rules.len(), 1);
    assert!(has(&d, "W-412"));
    assert!(!d.iter().any(|x| x.is_error()));
}

#[test]
fn monitored_operation_with_correlated_probability_source_has_no_w412() {
    let (_data, d) = run(
        Some(Ok(vec![correlation("c1", "etdl.node.id", "ProcessPaymentOperation", CAUSE)])),
        Some(Ok(vec![rule("r1", OP)])),
    );
    assert!(d.is_empty(), "unexpected: {d:?}");
}

#[test]
fn diagnostics_process_returns_typed_result_with_correct_extension_id() {
    let (data, d) = run(
        Some(Ok(vec![correlation("c1", "etdl.node.id", "ProcessPaymentOperation", CAUSE)])),
        None,
    );
    assert!(d.is_empty(), "unexpected: {d:?}");
    let result = DiagnosticsResult { correlations: data.correlations, anomaly_rules: data.anomaly_rules };
    assert_eq!(result.extension_id(), "etdl.diagnostics");
}

#[test]
fn etdl_node_id_span_value_not_a_real_node_produces_e152() {
    let (data, d) = run(Some(Ok(vec![correlation("c1", "etdl.node.id", "DoesNotExist", CAUSE)])), None);
    assert!(data.correlations.is_empty());
    assert!(has(&d, "E-152"), "got {d:?}");
}

#[test]
fn etdl_node_id_span_value_matching_a_real_node_has_no_e152() {
    let (data, d) = run(
        Some(Ok(vec![correlation("c1", "etdl.node.id", "ProcessPaymentOperation", CAUSE)])),
        None,
    );
    assert!(d.is_empty(), "unexpected: {d:?}");
    assert_eq!(data.correlations.len(), 1);
}

#[test]
fn non_etdl_node_id_span_attribute_is_never_checked_against_nodes() {
    let (data, d) = run(
        Some(Ok(vec![correlation("c1", "some.other.attribute", "DoesNotExistEither", CAUSE)])),
        None,
    );
    assert!(d.is_empty(), "unexpected: {d:?}");
    assert_eq!(data.correlations.len(), 1);
}
