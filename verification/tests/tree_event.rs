use etdl_compiler::extension::builtin_registry;
use etdl_compiler::model::{
    Consequence, ConsequenceOperation, Document, EventTree, EventTreeEntry, ExternalRef,
    InitiatingEvent, MessageRef, Node, NodeEntry, Supplement,
};
use etdl_compiler::tree_event::{parse_and_validate_trees, TreeEventExtension, TreeManifest, TreeOutline};

fn base_doc(declare: bool) -> Document {
    Document {
        etdl: "1.0.0".to_string(),
        supplements: if declare {
            vec![Supplement { id: "etdl.tree-event".to_string(), version: "1.0".to_string(), required: true }]
        } else {
            vec![]
        },
        libraries: vec![],
        asyncapi_aliases: vec![],
        component_messages: vec![],
        event_trees: vec![EventTreeEntry {
            name: "T".to_string(),
            tree: EventTree {
                initiating_event: InitiatingEvent {
                    id: "I".to_string(),
                    message: MessageRef::External(ExternalRef { alias: "a".to_string(), pointer: "/m".to_string() }),
                    next: "C".to_string(),
                },
                nodes: vec![NodeEntry {
                    id: "C".to_string(),
                    node: Node::Consequence(Consequence {
                        operation: ConsequenceOperation::Terminate,
                        channel: None,
                        message: None,
                    }),
                }],
            },
        }],
        fault_trees: None,
    }
}

fn outline(id: &str, leaves: &[&str], problems: &[&str]) -> TreeOutline {
    TreeOutline {
        id: id.to_string(),
        leaves: leaves.iter().map(|s| s.to_string()).collect(),
        problems: problems.iter().map(|s| s.to_string()).collect(),
        nodes: vec![],
    }
}

#[test]
fn tree_event_extension_is_registered_and_built_in() {
    let registry = builtin_registry();
    assert!(registry.contains("etdl.tree-event"));
    assert!(registry.list().contains(&"etdl.tree-event".to_string()));
}

#[test]
fn valid_tree_parses_and_processes() {
    let (trees, d) = parse_and_validate_trees(
        &base_doc(true),
        Some(TreeManifest { trees: Some(Ok(vec![outline("demo", &["A"], &[])])) }),
    );
    assert!(d.is_empty(), "unexpected: {d:?}");
    assert_eq!(trees.len(), 1);
    assert_eq!(TreeEventExtension::new().id(), "etdl.tree-event");
}

#[test]
fn cyclic_tree_produces_e121() {
    let (trees, d) = parse_and_validate_trees(
        &base_doc(true),
        Some(TreeManifest {
            trees: Some(Ok(vec![outline("demo", &[], &["tree 'demo': cycle detected through node 'A'"])])),
        }),
    );
    assert!(trees.is_empty());
    assert!(d.iter().any(|x| x.code == "E-121" && x.message.contains("cycle")));
}

#[test]
fn duplicate_tree_id_produces_e122() {
    let (trees, d) = parse_and_validate_trees(
        &base_doc(true),
        Some(TreeManifest { trees: Some(Ok(vec![outline("demo", &["A"], &[]), outline("demo", &["B"], &[])])) }),
    );
    assert_eq!(trees.len(), 1);
    assert!(d.iter().any(|x| x.code == "E-122"));
}

#[test]
fn document_without_x_tree_event_has_no_trees_and_no_diagnostics() {
    let (trees, d) = parse_and_validate_trees(&base_doc(false), None);
    assert!(trees.is_empty());
    assert!(d.is_empty());
}
