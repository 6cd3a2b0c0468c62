use etdl_compiler::diagnostic::Diagnostic;
use etdl_compiler::ecel::Condition;
use etdl_compiler::extension::builtin_registry;
use etdl_compiler::model::{
    Barrier, Branch, Consequence, ConsequenceOperation, Document, EventTree, EventTreeEntry,
    ExternalRef, InitiatingEvent, MessageRef, Node, NodeEntry, Operation, Supplement,
};
use etdl_compiler::security::{
    parse_and_validate_security, Control, LeafCategory, SecurityData, SecurityManifest,
    SecurityResult, ThreatModel,
};
use etdl_compiler::tree_event::{TreeManifest, TreeOutline};

fn node(id: &str, node: Node) -> NodeEntry {
    NodeEntry { id: id.to_string(), node }
}

fn supplement(id: &str) -> Supplement {
    Supplement { id: id.to_string(), version: "1.0".to_string(), required: true }
}

/// One event tree `OrderFulfillment`: barrier `RateLimitBarrier`,
/// operation `ProcessPaymentOperation`, consequence `C`.
fn base_doc(supplements: Vec<Supplement>) -> Document {
    let nodes = vec![
        node(
            "RateLimitBarrier",
            Node::Barrier(Barrier {
                branches: vec![Branch {
                    outcome: "SUCCESS".to_string(),
                    condition: Condition::Default,
                    has_probability: true,
                    probability_source: None,
                    next: "ProcessPaymentOperation".to_string(),
                }],
            }),
        ),
        node(
            "ProcessPaymentOperation",
            Node::Operation(Operation {
                handler: "h".to_string(),
                next: "C".to_string(),
                on_failure: None,
                emits: None,
                on_failure_probability_source: None,
            }),
        ),
        node(
            "C",
            Node::Consequence(Consequence {
                operation: ConsequenceOperation::Terminate,
                channel: None,
                message: None,
            }),
        ),
    ];
    Document {
        etdl: "1.0.0".to_string(),
        supplements,
        libraries: vec![],
        asyncapi_aliases: vec![],
        component_messages: vec![],
        event_trees: vec![EventTreeEntry {
            name: "OrderFulfillment".to_string(),
            tree: EventTree {
                initiating_event: InitiatingEvent {
                    id: "I".to_string(),
                    message: MessageRef::External(ExternalRef {
                        alias: "a".to_string(),
                        pointer: "/m".to_string(),
                    }),
                    next: "RateLimitBarrier".to_string(),
                },
                nodes,
            },
        }],
        fault_trees: None,
    }
}

/// The attack tree `gateway-compromise`: leaves `CredentialStuffing` and
/// `ApiKeyLeak` under the OR gate `GatewayCompromised`.
fn attack_trees() -> TreeManifest {
    TreeManifest {
        trees: Some(Ok(vec![TreeOutline {
            id: "gateway-compromise".to_string(),
            leaves: vec!["CredentialStuffing".to_string(), "ApiKeyLeak".to_string()],
            problems: vec![],
            nodes: vec![],
        }])),
    }
}

const BARRIER: &str = "#/eventTrees/OrderFulfillment/nodes/RateLimitBarrier";
const OP: &str = "#/eventTrees/OrderFulfillment/nodes/ProcessPaymentOperation";

fn model(id: &str, tree_ref: &str, categories: &[(&str, &str)]) -> ThreatModel {
    ThreatModel {
        id: id.to_string(),
        tree_ref: tree_ref.to_string(),
        leaf_categories: categories
            .iter()
            .map(|(l, c)| LeafCategory { leaf: l.to_string(), category: c.to_string() })
            .collect(),
    }
}

fn control(id: &str, node_ref: &str, control_id: &str, mitigates: &[&str]) -> Control {
    Control {
        id: id.to_string(),
        node_ref: node_ref.to_string(),
        framework: None,
        control_id: control_id.to_string(),
        mitigates: mitigates.iter().map(|s| s.to_string()).collect(),
    }
}

fn run(
    threat_models: Option<Result<Vec<ThreatModel>, String>>,
    controls: Option<Result<Vec<Control>, String>>,
) -> (SecurityData, Vec<Diagnostic>) {
    let doc = base_doc(vec![supplement("etdl.security"), supplement("etdl.tree-event")]);
    parse_and_validate_security(&doc, Some(attack_trees()), Some(SecurityManifest { threat_models, controls }))
}

fn has(ds: &[Diagnostic], code: &str) -> bool {
    ds.iter().any(|d| d.code == code)
}

#[test]
fn security_extension_is_registered_and_built_in() {
    let registry = builtin_registry();
    assert!(registry.contains("etdl.security"));
    assert!(registry.list().contains(&"etdl.security".to_string()));
}

#[test]
fn document_without_x_security_has_no_diagnostics() {
    let (data, d) = parse_and_validate_security(&base_doc(vec![]), None, None);
    assert!(data.threat_models.is_empty());
    assert!(data.controls.is_empty());
    assert!(d.is_empty());
}

#[test]
fn valid_threat_model_and_control_have_no_diagnostics() {
    let mut c = control("gateway-rate-limiter", BARRIER, "SC-5", &["CredentialStuffing"]);
    c.framework = Some("NIST-800-53".to_string());
    let (data, d) = run(
        Some(Ok(vec![model(
            "payment-gateway-attack-tree",
            "gateway-compromise",
            &[("CredentialStuffing", "spoofing"), ("ApiKeyLeak", "information-disclosure")],
        )])),
        Some(Ok(vec![c])),
    );
    assert!(d.is_empty(), "unexpected: {d:?}");
    assert_eq!(data.threat_models.len(), 1);
    assert_eq!(data.controls.len(), 1);
}

#[test]
fn missing_threat_models_and_controls_keys_are_not_an_error() {
    let (data, d) = run(None, None);
    assert!(data.threat_models.is_empty());
    assert!(data.controls.is_empty());
    assert!(d.is_empty());
}

#[test]
fn malformed_threat_models_produces_e140() {
    let (data, d) = run(Some(Err("invalid type: string \"oops\", expected a sequence".to_string())), None);
    assert!(data.threat_models.is_empty());
    assert!(has(&d, "E-140"));
}

#[test]
fn unresolvable_tree_ref_produces_e140() {
    let (data, d) = run(Some(Ok(vec![model("tm1", "does-not-exist", &[])])), None);
    assert!(data.threat_models.is_empty());
    assert!(has(&d, "E-140"));
}

#[test]
fn invalid_stride_category_produces_e140() {
    let (_data, d) = run(
        Some(Ok(vec![model("tm1", "gateway-compromise", &[("CredentialStuffing", "not-a-stride-category")])])),
        None,
    );
    assert!(has(&d, "E-140"));
}

#[test]
fn leaf_categories_key_at_non_leaf_produces_e141() {
    let (data, d) = run(
        Some(Ok(vec![model("tm1", "gateway-compromise", &[("GatewayCompromised", "spoofing")])])),
        None,
    );
    assert!(data.threat_models.is_empty());
    assert!(has(&d, "E-141"));
}

#[test]
fn uncategorized_leaf_is_not_an_error() {
    let (data, d) = run(
        Some(Ok(vec![model("tm1", "gateway-compromise", &[("CredentialStuffing", "spoofing")])])),
        None,
    );
    assert!(d.is_empty(), "unexpected: {d:?}");
    assert_eq!(data.threat_models.len(), 1);
}

#[test]
fn control_node_ref_at_wrong_node_kind_produces_e141() {
    let (data, d) = run(None, Some(Ok(vec![control("c1", OP, "SC-5", &["x"])])));
    assert!(data.controls.is_empty());
    assert!(has(&d, "E-141"));
}

#[test]
fn empty_mitigates_produces_e141() {
    let (data, d) = run(None, Some(Ok(vec![control("c1", BARRIER, "SC-5", &[])])));
    assert!(data.controls.is_empty());
    assert!(has(&d, "E-141"));
}

#[test]
fn mitigates_entry_not_a_leaf_produces_e141() {
    let (data, d) = run(None, Some(Ok(vec![control("c1", BARRIER, "SC-5", &["NotALeaf"])])));
    assert!(data.controls.is_empty());
    assert!(has(&d, "E-141"));
}

#[test]
fn mitigates_entry_uncategorized_leaf_produces_w411() {
    let (data, d) = run(
        Some(Ok(vec![model("tm1", "gateway-compromise", &[("CredentialStuffing", "spoofing")])])),
        Some(Ok(vec![control("c1", BARRIER, "SC-5", &["ApiKeyLeak"])])),
    );
    assert_eq!(data.controls.len(), 1);
    assert!(has(&d, "W-411"));
    assert!(!d.iter().any(|x| x.is_error()));
}

#[test]
fn duplicate_threat_model_id_produces_e140() {
    let (_data, d) = run(
        Some(Ok(vec![model("dup", "gateway-compromise", &[]), model("dup", "gateway-compromise", &[])])),
        None,
    );
    assert!(d.iter().any(|x| x.code == "E-140" && x.message.contains("duplicate threat model id")));
}

#[test]
fn duplicate_control_id_produces_e141() {
    let (_data, d) = run(
        None,
        Some(Ok(vec![control("dup", BARRIER, "SC-5", &["x"]), control("dup", BARRIER, "SC-6", &["y"])])),
    );
    assert!(d.iter().any(|x| x.code == "E-141" && x.message.contains("duplicate control id")));
}

#[test]
fn security_without_tree_event_declared_has_unresolvable_tree_refs() {
    let doc = base_doc(vec![supplement("etdl.security")]);
    let (data, d) = parse_and_validate_security(
        &doc,
        None,
        Some(SecurityManifest { threat_models: Some(Ok(vec![model("tm1", "anything", &[])])), controls: None }),
    );
    assert!(data.threat_models.is_empty());
    assert!(has(&d, "E-140"));
}

#[test]
fn security_process_returns_typed_result_with_correct_extension_id() {
    let (data, d) = run(
        Some(Ok(vec![model("tm1", "gateway-compromise", &[("CredentialStuffing", "spoofing")])])),
        None,
    );
    assert!(d.is_empty(), "unexpected: {d:?}");
    let result = SecurityResult { threat_models: data.threat_models, controls: data.controls };
    assert_eq!(result.extension_id(), "etdl.security");
}

#[test]
fn mitigating_a_categorized_gate_that_is_not_a_leaf_produces_e141() {
    let (data, d) = run(
        Some(Ok(vec![model("tm1", "gateway-compromise", &[("GatewayCompromised", "spoofing")])])),
        Some(Ok(vec![control("c1", BARRIER, "SC-5", &["GatewayCompromised"])])),
    );
    assert!(data.controls.is_empty());
    assert!(d.iter().any(|x| x.code == "E-141"
        && x.message
            == "x-security: control 'c1': mitigates entry 'GatewayCompromised' is not a leaf node id of any declared threat model's tree"));
}
