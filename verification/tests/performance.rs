use etdl_compiler::diagnostic::Diagnostic;
use etdl_compiler::ecel::Condition;
use etdl_compiler::extension::builtin_registry;
use etdl_compiler::model::{
    Barrier, Branch, Consequence, ConsequenceOperation, Document, EventTree, EventTreeEntry,
    ExternalRef, InitiatingEvent, Measure, MessageRef, Node, NodeEntry, Operation, Supplement,
};
use etdl_compiler::performance::{
    parse_and_validate_performance, BarrierCheck, Budget, PerformanceData, PerformanceExtension,
    PerformanceManifest, PerformanceResult,
};

fn measure(x: f64) -> Measure {
    Measure {
        text: format!("{}", x),
        finite: x.is_finite(),
        negative: x < 0.0,
        positive: x > 0.0,
        above_one: x > 1.0,
        below_one: x < 1.0,
    }
}

fn node(id: &str, node: Node) -> NodeEntry {
    NodeEntry { id: id.to_string(), node }
}

/// One event tree `OrderFulfillment` with a barrier `RetryBarrier`, an
/// operation `ProcessPaymentOperation` and a consequence `C`.
fn base_doc(declare: bool) -> Document {
    let nodes = vec![
        node(
            "RetryBarrier",
            Node::Barrier(Barrier {
                branches: vec![Branch {
                    outcome: "SUCCESS".to_string(),
                    condition: Condition::Default,
                    has_probability: true,
                    probability_source: None,
                    next: "ProcessPaymentOperation".to_string(),
                }],
            }),
        ),
        node(
            "ProcessPaymentOperation",
            Node::Operation(Operation {
                handler: "h".to_string(),
                next: "C".to_string(),
                on_failure: None,
                emits: None,
                on_failure_probability_source: None,
            }),
        ),
        node(
            "C",
            Node::Consequence(Consequence {
                operation: ConsequenceOperation::Terminate,
                channel: None,
                message: None,
            }),
        ),
    ];
    Document {
        etdl: "1.0.0".to_string(),
        supplements: if declare {
            vec![Supplement { id: "etdl.performance".to_string(), version: "1.0".to_string(), required: true }]
        } else {
            vec![]
        },
        libraries: vec![],
        asyncapi_aliases: vec![],
        component_messages: vec![],
        event_trees: vec![EventTreeEntry {
            name: "OrderFulfillment".to_string(),
            tree: EventTree {
                initiating_event: InitiatingEvent {
                    id: "I".to_string(),
                    message: MessageRef::External(ExternalRef {
                        alias: "a".to_string(),
                        pointer: "/m".to_string(),
                    }),
                    next: "RetryBarrier".to_string(),
                },
                nodes,
            },
        }],
        fault_trees: None,
    }
}

fn budget(id: &str, node_ref: &str, p50: f64, p95: f64, p99: f64) -> Budget {
    Budget {
        id: id.to_string(),
        node_ref: node_ref.to_string(),
        p50_ms: measure(p50),
        p95_ms: measure(p95),
        p99_ms: measure(p99),
        max_concurrency: None,
        expected_rate_per_second: None,
        percentiles_out_of_order: p50 > p95 || p95 > p99,
    }
}

fn check(id: &str, node_ref: &str, budget_ref: &str) -> BarrierCheck {
    BarrierCheck { id: id.to_string(), node_ref: node_ref.to_string(), budget_ref: budget_ref.to_string() }
}

const OP: &str = "#/eventTrees/OrderFulfillment/nodes/ProcessPaymentOperation";
const BARRIER: &str = "#/eventTrees/OrderFulfillment/nodes/RetryBarrier";
const TREE: &str = "#/eventTrees/OrderFulfillment";

fn run(budgets: Option<Result<Vec<Budget>, String>>, checks: Option<Result<Vec<BarrierCheck>, String>>)
    -> (PerformanceData, Vec<Diagnostic>)
{
    parse_and_validate_performance(
        &base_doc(true),
        Some(PerformanceManifest { budgets, barrier_checks: checks }),
    )
}

fn with_budgets(bs: Vec<Budget>) -> (PerformanceData, Vec<Diagnostic>) {
    run(Some(Ok(bs)), None)
}

fn has(ds: &[Diagnostic], code: &str) -> bool {
    ds.iter().any(|d| d.code == code)
}

#[test]
fn performance_extension_is_registered_and_built_in() {
    let registry = builtin_registry();
    assert!(registry.contains("etdl.performance"));
    assert!(registry.list().contains(&"etdl.performance".to_string()));
}

#[test]
fn document_without_x_performance_has_no_diagnostics() {
    let (data, diagnostics) = parse_and_validate_performance(&base_doc(false), None);
    assert!(data.budgets.is_empty());
    assert!(diagnostics.is_empty());
}

#[test]
fn valid_budget_operation_node_ref_has_no_diagnostics() {
    let (data, d) = with_budgets(vec![budget("op-budget", OP, 150.0, 800.0, 2000.0)]);
    assert!(d.is_empty(), "unexpected: {d:?}");
    assert_eq!(data.budgets.len(), 1);
}

#[test]
fn valid_budget_whole_tree_node_ref_has_no_diagnostics() {
    let mut b = budget("e2e-budget", TREE, 400.0, 2500.0, 5000.0);
    b.max_concurrency = Some(200);
    b.expected_rate_per_second = Some(measure(50.0));
    let (data, d) = with_budgets(vec![b]);
    assert!(d.is_empty(), "unexpected: {d:?}");
    assert_eq!(data.budgets.len(), 1);
}

#[test]
fn missing_budgets_key_is_not_an_error() {
    let (data, d) = run(None, None);
    assert!(data.budgets.is_empty());
    assert!(d.is_empty());
}

#[test]
fn malformed_budgets_produces_e160() {
    let (data, d) = run(Some(Err("invalid type: string \"oops\", expected a sequence".to_string())), None);
    assert!(data.budgets.is_empty());
    assert!(has(&d, "E-160"));
}

#[test]
fn bad_percentile_ordering_produces_e161() {
    let (_data, d) = with_budgets(vec![budget("bad-order", TREE, 900.0, 800.0, 2000.0)]);
    assert!(has(&d, "E-161"));
    assert!(!has(&d, "E-160"));
}

#[test]
fn duplicate_node_ref_produces_w413_and_keeps_both_budgets() {
    let (data, d) = with_budgets(vec![
        budget("first", TREE, 100.0, 200.0, 300.0),
        budget("second", TREE, 100.0, 200.0, 300.0),
    ]);
    assert_eq!(data.budgets.len(), 2);
    assert!(has(&d, "W-413"));
    assert!(!d.iter().any(|x| x.is_error()));
}

#[test]
fn unresolvable_node_ref_produces_e160() {
    let (data, d) = with_budgets(vec![budget("dangling", "#/eventTrees/DoesNotExist", 100.0, 200.0, 300.0)]);
    assert!(data.budgets.is_empty());
    assert!(has(&d, "E-160"));
}

#[test]
fn node_ref_at_barrier_is_rejected_produces_e160() {
    let (data, d) = with_budgets(vec![budget("at-barrier", BARRIER, 100.0, 200.0, 300.0)]);
    assert!(data.budgets.is_empty());
    assert!(has(&d, "E-160"));
}

#[test]
fn non_positive_percentile_produces_e160_without_spurious_e161() {
    let (data, d) = with_budgets(vec![budget("negative-p50", TREE, -5.0, 200.0, 300.0)]);
    assert!(data.budgets.is_empty());
    assert!(has(&d, "E-160"));
    assert!(!has(&d, "E-161"));
}

#[test]
fn duplicate_budget_id_produces_e160() {
    let (_data, d) = with_budgets(vec![
        budget("dup", OP, 100.0, 200.0, 300.0),
        budget("dup", TREE, 100.0, 200.0, 300.0),
    ]);
    assert!(d.iter().any(|x| x.code == "E-160" && x.message.contains("duplicate budget id")));
}

#[test]
fn performance_process_returns_typed_result_with_correct_extension_id() {
    let (data, d) = with_budgets(vec![budget("op-budget", OP, 150.0, 800.0, 2000.0)]);
    assert!(d.is_empty(), "unexpected: {d:?}");
    let result = PerformanceResult { budgets: data.budgets, barrier_checks: data.barrier_checks };
    assert_eq!(result.extension_id(), PerformanceExtension::new().id());
    assert_eq!(result.extension_id(), "etdl.performance");
    assert_eq!(result.budgets.len(), 1);
}

fn op_budget() -> Budget {
    budget("op-budget", OP, 150.0, 800.0, 2000.0)
}

#[test]
fn missing_barrier_checks_key_is_not_an_error() {
    let (data, d) = with_budgets(vec![op_budget()]);
    assert!(d.is_empty(), "unexpected: {d:?}");
    assert!(data.barrier_checks.is_empty());
}

#[test]
fn valid_barrier_check_has_no_diagnostics() {
    let (data, d) = run(Some(Ok(vec![op_budget()])), Some(Ok(vec![check("perf-guard", BARRIER, "op-budget")])));
    assert!(d.is_empty(), "unexpected: {d:?}");
    assert_eq!(data.barrier_checks.len(), 1);
}

#[test]
fn malformed_barrier_checks_produces_e162() {
    let (data, d) = run(
        Some(Ok(vec![])),
        Some(Err("invalid type: string \"oops\", expected a sequence".to_string())),
    );
    assert!(data.barrier_checks.is_empty());
    assert!(has(&d, "E-162"));
}

#[test]
fn barrier_check_node_ref_at_operation_is_rejected_produces_e162() {
    let (data, d) = run(Some(Ok(vec![op_budget()])), Some(Ok(vec![check("bad-guard", OP, "op-budget")])));
    assert!(data.barrier_checks.is_empty());
    assert!(has(&d, "E-162"));
}

#[test]
fn barrier_check_unresolvable_node_ref_produces_e162() {
    let (data, d) = run(
        Some(Ok(vec![op_budget()])),
        Some(Ok(vec![check("bad-guard", "#/eventTrees/OrderFulfillment/nodes/DoesNotExist", "op-budget")])),
    );
    assert!(data.barrier_checks.is_empty());
    assert!(has(&d, "E-162"));
}

#[test]
fn barrier_check_unresolvable_budget_ref_produces_e162() {
    let (data, d) = run(Some(Ok(vec![op_budget()])), Some(Ok(vec![check("bad-guard", BARRIER, "no-such-budget")])));
    assert!(data.barrier_checks.is_empty());
    assert!(has(&d, "E-162"));
}

#[test]
fn budget_ref_naming_an_invalid_budget_is_also_e162() {
    let (data, d) = run(
        Some(Ok(vec![budget("broken-budget", OP, 900.0, 800.0, 2000.0)])),
        Some(Ok(vec![check("guard", BARRIER, "broken-budget")])),
    );
    assert!(data.barrier_checks.is_empty());
    assert!(has(&d, "E-162"));
    assert!(has(&d, "E-161"));
}

#[test]
fn duplicate_barrier_check_id_produces_e162() {
    let (_data, d) = run(
        Some(Ok(vec![op_budget()])),
        Some(Ok(vec![check("dup", BARRIER, "op-budget"), check("dup", BARRIER, "op-budget")])),
    );
    assert!(d.iter().any(|x| x.code == "E-162" && x.message.contains("duplicate barrierChecks id")));
}

#[test]
fn duplicate_barrier_check_node_ref_produces_w415_and_keeps_both() {
    let (data, d) = run(
        Some(Ok(vec![op_budget()])),
        Some(Ok(vec![check("first", BARRIER, "op-budget"), check("second", BARRIER, "op-budget")])),
    );
    assert_eq!(data.barrier_checks.len(), 2);
    assert!(has(&d, "W-415"));
    assert!(!d.iter().any(|x| x.is_error()));
}
