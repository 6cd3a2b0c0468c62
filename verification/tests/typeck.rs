use etdl_compiler::diagnostic::Diagnostic;
use etdl_compiler::ecel::{
    BoolExpr, Comparator, Comparison, Condition, Literal, NumberLiteral, Operand, PathExpr,
    PathSegment, ValueExpr,
};
use etdl_compiler::model::{
    AsyncApiRegistry, Barrier, Branch, Consequence, ConsequenceOperation, Document, EventTree,
    EventTreeEntry, InitiatingEvent, MessageRef, Node, NodeEntry, Supplement,
};
use etdl_compiler::typeck::{type_check_conditions, MessageSchemas};

fn path(dotted: &str) -> PathExpr {
    PathExpr { segments: dotted.split('.').map(|s| PathSegment::Field(s.to_string())).collect() }
}

fn path_operand(dotted: &str) -> Operand {
    Operand::Value(ValueExpr::Path(path(dotted)))
}

fn comparison(left: &str, op: Comparator, right: Literal, right_text: &str) -> BoolExpr {
    BoolExpr::Comparison(Comparison {
        left: path_operand(left),
        op,
        right: Operand::Literal(right),
        left_text: left.to_string(),
        right_text: right_text.to_string(),
    })
}

fn number(text: &str) -> Literal {
    Literal::Number(NumberLiteral { text: text.to_string(), is_zero: text == "0" })
}

/// `<path> == true`
fn is_true(p: &str) -> BoolExpr {
    comparison(p, Comparator::Eq, Literal::Bool(true), "true")
}

/// `<path> == "x"`
fn is_x(p: &str) -> BoolExpr {
    comparison(p, Comparator::Eq, Literal::String("x".to_string()), "\"x\"")
}

/// `<path> == 1`
fn is_one(p: &str) -> BoolExpr {
    comparison(p, Comparator::Eq, number("1"), "1")
}

/// `<path> == true && message.payload.qty > 0`
fn true_and_qty(p: &str) -> BoolExpr {
    BoolExpr::And(
        Box::new(is_true(p)),
        Box::new(comparison("message.payload.qty", Comparator::Gt, number("0"), "0")),
    )
}

/// `!(<path> == true)`
fn not_true(p: &str) -> BoolExpr {
    BoolExpr::Not(Box::new(is_true(p)))
}

/// A document with one barrier whose first branch has `condition`,
/// declaring the supplements `ids` (all version "1.0").
fn doc_with_condition_and_supplements(condition: BoolExpr, ids: &[&str]) -> Document {
    let nodes = vec![
        NodeEntry {
            id: "B".to_string(),
            node: Node::Barrier(Barrier {
                branches: vec![
                    Branch {
                        outcome: "NORMAL".to_string(),
                        condition: Condition::Expr(condition),
                        has_probability: false,
                        probability_source: None,
                        next: "C".to_string(),
                    },
                    Branch {
                        outcome: "ABNORMAL".to_string(),
                        condition: Condition::Default,
                        has_probability: false,
                        probability_source: None,
                        next: "C".to_string(),
                    },
                ],
            }),
        },
        NodeEntry {
            id: "C".to_string(),
            node: Node::Consequence(Consequence {
                operation: ConsequenceOperation::Terminate,
                channel: None,
                message: None,
            }),
        },
    ];
    Document {
        etdl: "1.0.0".to_string(),
        supplements: ids
            .iter()
            .map(|id| Supplement { id: id.to_string(), version: "1.0".to_string(), required: true })
            .collect(),
        libraries: vec![],
        asyncapi_aliases: vec![],
        component_messages: vec!["M".to_string()],
        event_trees: vec![EventTreeEntry {
            name: "T".to_string(),
            tree: EventTree {
                initiating_event: InitiatingEvent {
                    id: "I".to_string(),
                    message: MessageRef::Internal("#/components/messages/M".to_string()),
                    next: "B".to_string(),
                },
                nodes,
            },
        }],
        fault_trees: None,
    }
}

fn doc_with_condition(condition: BoolExpr, declare_supplement: bool) -> Document {
    let ids: &[&str] = if declare_supplement { &["etdl.live-reliability"] } else { &[] };
    doc_with_condition_and_supplements(condition, ids)
}

fn doc_with_performance_condition(condition: BoolExpr, declare_supplement: bool) -> Document {
    let ids: &[&str] = if declare_supplement { &["etdl.performance"] } else { &[] };
    doc_with_condition_and_supplements(condition, ids)
}

fn type_check(doc: &Document) -> Vec<Diagnostic> {
    let registry = AsyncApiRegistry { resolvable: vec![] };
    let schemas = MessageSchemas { entries: vec![] };
    let mut diagnostics = Vec::new();
    type_check_conditions(doc, &registry, &schemas, &mut diagnostics);
    diagnostics
}

fn has(ds: &[Diagnostic], code: &str) -> bool {
    ds.iter().any(|d| d.code == code)
}

fn has_whole_condition(ds: &[Diagnostic], code: &str) -> bool {
    ds.iter().any(|d| d.code == code && d.message.contains("entire branch condition"))
}

#[test]
fn reliability_in_range_without_the_supplement_declared_is_e173() {
    let d = type_check(&doc_with_condition(is_true("reliability.in_range"), false));
    assert!(has(&d, "E-173"), "got {d:?}");
}

#[test]
fn reliability_in_range_with_the_supplement_declared_has_no_diagnostics() {
    let d = type_check(&doc_with_condition(is_true("reliability.in_range"), true));
    assert!(d.is_empty(), "unexpected: {d:?}");
}

#[test]
fn reliability_wrong_shape_is_e173_even_with_the_supplement_declared() {
    let d = type_check(&doc_with_condition(is_true("reliability.something_else"), true));
    assert!(has(&d, "E-173"), "got {d:?}");
}

#[test]
fn reliability_compared_against_a_string_is_still_e173_not_v204() {
    let d = type_check(&doc_with_condition(is_x("reliability.something_else"), true));
    assert!(has(&d, "E-173"), "got {d:?}");
}

#[test]
fn reliability_in_range_combined_with_and_is_e173() {
    let d = type_check(&doc_with_condition(true_and_qty("reliability.in_range"), true));
    assert!(has_whole_condition(&d, "E-173"), "got {d:?}");
}

#[test]
fn reliability_in_range_negated_is_e173() {
    let d = type_check(&doc_with_condition(not_true("reliability.in_range"), true));
    assert!(has_whole_condition(&d, "E-173"), "got {d:?}");
}

#[test]
fn reliability_in_range_compared_against_a_number_is_v204() {
    let d = type_check(&doc_with_condition(is_one("reliability.in_range"), true));
    assert!(!has(&d, "E-173"), "got {d:?}");
    assert!(has(&d, "V-204"), "got {d:?}");
}

#[test]
fn performance_in_budget_without_the_supplement_declared_is_e163() {
    let d = type_check(&doc_with_performance_condition(is_true("performance.in_budget"), false));
    assert!(has(&d, "E-163"), "got {d:?}");
}

#[test]
fn performance_in_budget_with_the_supplement_declared_has_no_diagnostics() {
    let d = type_check(&doc_with_performance_condition(is_true("performance.in_budget"), true));
    assert!(d.is_empty(), "unexpected: {d:?}");
}

#[test]
fn performance_wrong_shape_is_e163_even_with_the_supplement_declared() {
    let d = type_check(&doc_with_performance_condition(is_true("performance.something_else"), true));
    assert!(has(&d, "E-163"), "got {d:?}");
}

#[test]
fn performance_compared_against_a_string_is_still_e163_not_v204() {
    let d = type_check(&doc_with_performance_condition(is_x("performance.something_else"), true));
    assert!(has(&d, "E-163"), "got {d:?}");
}

#[test]
fn performance_in_budget_combined_with_and_is_e163() {
    let d = type_check(&doc_with_performance_condition(true_and_qty("performance.in_budget"), true));
    assert!(has_whole_condition(&d, "E-163"), "got {d:?}");
}

#[test]
fn performance_in_budget_negated_is_e163() {
    let d = type_check(&doc_with_performance_condition(not_true("performance.in_budget"), true));
    assert!(has_whole_condition(&d, "E-163"), "got {d:?}");
}

#[test]
fn performance_in_budget_compared_against_a_number_is_v204() {
    let d = type_check(&doc_with_performance_condition(is_one("performance.in_budget"), true));
    assert!(!has(&d, "E-163"), "got {d:?}");
    assert!(has(&d, "V-204"), "got {d:?}");
}

const BOTH_SAFETY: &[&str] = &["etdl.safety", "etdl.live-reliability"];
const BOTH_SECURITY: &[&str] = &["etdl.security", "etdl.live-reliability"];

#[test]
fn safety_sil_maintained_without_either_supplement_is_e135() {
    let d = type_check(&doc_with_condition_and_supplements(is_true("safety.sil_maintained"), &[]));
    assert!(has(&d, "E-135"), "got {d:?}");
}

#[test]
fn safety_sil_maintained_with_only_safety_declared_is_e135() {
    let d = type_check(&doc_with_condition_and_supplements(
        is_true("safety.sil_maintained"),
        &["etdl.safety"],
    ));
    assert!(has(&d, "E-135"), "got {d:?}");
}

#[test]
fn safety_sil_maintained_with_only_live_reliability_declared_is_e135() {
    let d = type_check(&doc_with_condition_and_supplements(
        is_true("safety.sil_maintained"),
        &["etdl.live-reliability"],
    ));
    assert!(has(&d, "E-135"), "got {d:?}");
}

#[test]
fn safety_sil_maintained_with_both_supplements_declared_has_no_diagnostics() {
    let d = type_check(&doc_with_condition_and_supplements(is_true("safety.sil_maintained"), BOTH_SAFETY));
    assert!(d.is_empty(), "unexpected: {d:?}");
}

#[test]
fn safety_wrong_shape_is_e135_even_with_both_supplements_declared() {
    let d = type_check(&doc_with_condition_and_supplements(is_true("safety.something_else"), BOTH_SAFETY));
    assert!(has(&d, "E-135"), "got {d:?}");
}

#[test]
fn safety_sil_maintained_combined_with_and_is_e135() {
    let d = type_check(&doc_with_condition_and_supplements(
        true_and_qty("safety.sil_maintained"),
        BOTH_SAFETY,
    ));
    assert!(has_whole_condition(&d, "E-135"), "got {d:?}");
}

#[test]
fn safety_sil_maintained_negated_is_e135() {
    let d = type_check(&doc_with_condition_and_supplements(not_true("safety.sil_maintained"), BOTH_SAFETY));
    assert!(has_whole_condition(&d, "E-135"), "got {d:?}");
}

#[test]
fn safety_sil_maintained_compared_against_a_number_is_v204() {
    let d = type_check(&doc_with_condition_and_supplements(is_one("safety.sil_maintained"), BOTH_SAFETY));
    assert!(!has(&d, "E-135"), "got {d:?}");
    assert!(has(&d, "V-204"), "got {d:?}");
}

#[test]
fn security_control_effective_without_either_supplement_is_e143() {
    let d = type_check(&doc_with_condition_and_supplements(is_true("security.control_effective"), &[]));
    assert!(has(&d, "E-143"), "got {d:?}");
}

#[test]
fn security_control_effective_with_only_security_declared_is_e143() {
    let d = type_check(&doc_with_condition_and_supplements(
        is_true("security.control_effective"),
        &["etdl.security"],
    ));
    assert!(has(&d, "E-143"), "got {d:?}");
}

#[test]
fn security_control_effective_with_only_live_reliability_declared_is_e143() {
    let d = type_check(&doc_with_condition_and_supplements(
        is_true("security.control_effective"),
        &["etdl.live-reliability"],
    ));
    assert!(has(&d, "E-143"), "got {d:?}");
}

#[test]
fn security_control_effective_with_both_supplements_declared_has_no_diagnostics() {
    let d = type_check(&doc_with_condition_and_supplements(
        is_true("security.control_effective"),
        BOTH_SECURITY,
    ));
    assert!(d.is_empty(), "unexpected: {d:?}");
}

#[test]
fn security_wrong_shape_is_e143_even_with_both_supplements_declared() {
    let d = type_check(&doc_with_condition_and_supplements(
        is_true("security.something_else"),
        BOTH_SECURITY,
    ));
    assert!(has(&d, "E-143"), "got {d:?}");
}

#[test]
fn security_control_effective_combined_with_and_is_e143() {
    let d = type_check(&doc_with_condition_and_supplements(
        true_and_qty("security.control_effective"),
        BOTH_SECURITY,
    ));
    assert!(has_whole_condition(&d, "E-143"), "got {d:?}");
}

#[test]
fn security_control_effective_negated_is_e143() {
    let d = type_check(&doc_with_condition_and_supplements(
        not_true("security.control_effective"),
        BOTH_SECURITY,
    ));
    assert!(has_whole_condition(&d, "E-143"), "got {d:?}");
}

#[test]
fn security_control_effective_compared_against_a_number_is_v204() {
    let d = type_check(&doc_with_condition_and_supplements(
        is_one("security.control_effective"),
        BOTH_SECURITY,
    ));
    assert!(!has(&d, "E-143"), "got {d:?}");
    assert!(has(&d, "V-204"), "got {d:?}");
}
