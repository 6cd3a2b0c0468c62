use etdl_compiler::ecel::Condition;
use etdl_compiler::graph::{build_graph, graph_edges, graph_nodes, NodeAttributes};
use etdl_compiler::model::Supplement;
use etdl_compiler::tree_event::{OutlineNode, OutlineNodeKind, TreeManifest, TreeOutline};
use etdl_compiler::model::{
    Barrier, BasicEvent, BasicEventEntry, Branch, Consequence, ConsequenceOperation, Document,
    EventTree, EventTreeEntry, ExternalRef, FaultTree, FaultTreeEntry, Gate, GateEntry, GateType,
    InitiatingEvent, MessageRef, Node, NodeEntry, Operation, TopEvent, Transfer, TransferEntry,
};

fn doc() -> Document {
    let nodes = vec![
        NodeEntry {
            id: "Barrier1".to_string(),
            node: Node::Barrier(Barrier {
                branches: vec![Branch {
                    outcome: "OK".to_string(),
                    condition: Condition::Default,
                    has_probability: true,
                    probability_source: None,
                    next: "Op1".to_string(),
                }],
            }),
        },
        NodeEntry {
            id: "Op1".to_string(),
            node: Node::Operation(Operation {
                handler: "h".to_string(),
                next: "C1".to_string(),
                on_failure: Some("C1".to_string()),
                emits: None,
                on_failure_probability_source: None,
            }),
        },
        NodeEntry {
            id: "C1".to_string(),
            node: Node::Consequence(Consequence { operation: ConsequenceOperation::Terminate, channel: None, message: None }),
        },
    ];
    let be = BasicEvent {
        probability: None,
        failure_rate: None,
        mission_time: None,
        is_house: false,
        message: None,
        declares_reliability_source: false,
        reliability_source: None,
        reliability_estimate: None,
    };
    Document {
        etdl: "1.0.0".to_string(),
        supplements: vec![],
        libraries: vec![],
        asyncapi_aliases: vec![],
        component_messages: vec![],
        event_trees: vec![EventTreeEntry {
            name: "T1".to_string(),
            tree: EventTree {
                initiating_event: InitiatingEvent {
                    id: "I1".to_string(),
                    message: MessageRef::External(ExternalRef { alias: "a".to_string(), pointer: "/m".to_string() }),
                    next: "Barrier1".to_string(),
                },
                nodes,
            },
        }],
        fault_trees: Some(vec![FaultTreeEntry {
            name: "FT1".to_string(),
            tree: FaultTree {
                top_event: TopEvent { id: "Top".to_string(), message: None, root_cause: "Gate1".to_string() },
                gates: Some(vec![GateEntry {
                    id: "Gate1".to_string(),
                    gate: Gate { gate_type: GateType::Or, inputs: vec!["BE1".to_string()], k: None, has_inhibit_condition: false },
                }]),
                basic_events: vec![BasicEventEntry { id: "BE1".to_string(), event: be }],
                transfers: Some(vec![TransferEntry {
                    id: "X1".to_string(),
                    transfer: Transfer { target: "FT2/Top".to_string(), label: None },
                }]),
            },
        }]),
    }
}

fn edges() -> Vec<(String, String, Option<String>)> {
    graph_edges(&doc()).into_iter().map(|e| (e.from, e.to, e.label)).collect()
}

fn e(from: &str, to: &str, label: Option<&str>) -> (String, String, Option<String>) {
    (from.to_string(), to.to_string(), label.map(|l| l.to_string()))
}

#[test]
fn graph_edges_follow_both_kinds_of_tree_in_document_order() {
    assert_eq!(
        edges(),
        vec![
            e("T1/I1", "T1/Barrier1", None),
            e("T1/Barrier1", "T1/Op1", Some("OK")),
            e("T1/Op1", "T1/C1", Some("success")),
            e("T1/Op1", "T1/C1", Some("failure")),
            e("FT1/topEvent", "FT1/Gate1", Some("rootCause")),
            e("FT1/Gate1", "FT1/BE1", Some("input")),
            e("FT1/X1", "FT2/Top", Some("transfersTo")),
        ]
    );
}

fn n(id: &str, kind: &str, tree: &str, label: &str) -> (String, String, String, String) {
    (id.to_string(), kind.to_string(), tree.to_string(), label.to_string())
}

#[test]
fn graph_nodes_list_every_element_under_its_qualified_id() {
    let nodes: Vec<_> =
        graph_nodes(&doc()).into_iter().map(|x| (x.id, x.kind, x.tree_id, x.label)).collect();
    assert_eq!(
        nodes,
        vec![
            n("T1/I1", "initiating_event", "T1", "I1"),
            n("T1/Barrier1", "barrier", "T1", "Barrier1"),
            n("T1/Op1", "operation", "T1", "Op1"),
            n("T1/C1", "consequence", "T1", "C1"),
            n("FT1/topEvent", "fault_tree_top_event", "FT1", "Top"),
            n("FT1/Gate1", "gate", "FT1", "Gate1"),
            n("FT1/BE1", "basic_event", "FT1", "BE1"),
            n("FT1/X1", "transfer", "FT1", "X1"),
        ]
    );
}

#[test]
fn document_without_trees_has_an_empty_graph() {
    let mut d = doc();
    d.event_trees.clear();
    d.fault_trees = None;
    assert!(graph_nodes(&d).is_empty());
    assert!(graph_edges(&d).is_empty());
}

#[test]
fn build_graph_holds_the_nodes_and_the_edges() {
    let g = build_graph(&doc(), None);
    assert_eq!(g.nodes.len(), 8);
    assert_eq!(g.edges.len(), 7);
    assert_eq!(g.nodes[4].id, "FT1/topEvent");
    assert_eq!(g.edges[4].label.as_deref(), Some("rootCause"));
}

/// The generic tree `GT1`: an OR gate `root` over the leaves `leaf1` and
/// `leaf2`.
fn generic_trees() -> TreeManifest {
    let leaf = |id: &str| OutlineNode {
        id: id.to_string(),
        description: None,
        kind: OutlineNodeKind::Leaf { event_ref: None },
    };
    TreeManifest {
        trees: Some(Ok(vec![TreeOutline {
            id: "GT1".to_string(),
            leaves: vec!["leaf1".to_string(), "leaf2".to_string()],
            problems: vec![],
            nodes: vec![
                leaf("leaf1"),
                leaf("leaf2"),
                OutlineNode {
                    id: "root".to_string(),
                    description: None,
                    kind: OutlineNodeKind::Gate { children: vec!["leaf1".to_string(), "leaf2".to_string()] },
                },
            ],
        }])),
    }
}

fn doc_with_trees() -> Document {
    let mut d = doc();
    d.supplements.push(Supplement { id: "etdl.tree-event".to_string(), version: "1.0".to_string(), required: true });
    d
}

#[test]
fn graph_has_expected_nodes_and_edges() {
    let graph = build_graph(&doc_with_trees(), Some(generic_trees()));
    let ids: Vec<&str> = graph.nodes.iter().map(|n| n.id.as_str()).collect();
    for expected in ["T1/I1", "T1/Barrier1", "T1/Op1", "T1/C1", "FT1/topEvent", "FT1/Gate1", "FT1/BE1", "GT1/root", "GT1/leaf1"] {
        assert!(ids.contains(&expected), "{ids:?}");
    }
    let branch_edge = graph.edges.iter().find(|e| e.from == "T1/Barrier1" && e.to == "T1/Op1").expect("branch edge exists");
    assert_eq!(branch_edge.label.as_deref(), Some("OK"));
    assert!(graph.edges.iter().any(|e| e.from == "T1/Op1" && e.to == "T1/C1" && e.label.as_deref() == Some("failure")));
    assert!(graph.edges.iter().any(|e| e.from == "FT1/topEvent" && e.to == "FT1/Gate1"));
    assert!(graph.edges.iter().any(|e| e.from == "FT1/Gate1" && e.to == "FT1/BE1" && e.label.as_deref() == Some("input")));
    assert!(graph.edges.iter().any(|e| e.from == "GT1/root" && e.to == "GT1/leaf1"));
}

#[test]
fn generic_tree_nodes_are_leaves_and_gates() {
    let graph = build_graph(&doc_with_trees(), Some(generic_trees()));
    let generic: Vec<(&str, &str)> =
        graph.nodes.iter().filter(|n| n.tree_id == "GT1").map(|n| (n.id.as_str(), n.kind.as_str())).collect();
    assert_eq!(
        generic,
        vec![("GT1/leaf1", "generic_tree_leaf"), ("GT1/leaf2", "generic_tree_leaf"), ("GT1/root", "generic_tree_gate")]
    );
    let generic_edges: Vec<_> = graph.edges.iter().filter(|e| e.from.starts_with("GT1/")).collect();
    assert_eq!(generic_edges.len(), 2);
    assert!(generic_edges.iter().all(|e| e.label.is_none()));
    let undeclared = build_graph(&doc(), Some(generic_trees()));
    assert!(!undeclared.nodes.iter().any(|n| n.tree_id == "GT1"));
}

#[test]
fn graph_nodes_carry_their_attributes() {
    let g = build_graph(&doc(), None);
    match &g.nodes[0].attributes {
        NodeAttributes::InitiatingEvent { message } => assert_eq!(message, "a#/m"),
        other => panic!("unexpected {other:?}"),
    }
    match &g.nodes[1].attributes {
        NodeAttributes::Barrier { branches } => {
            assert_eq!(branches.len(), 1);
            assert_eq!(branches[0].outcome, "OK");
            assert_eq!(branches[0].next, "Op1");
            assert_eq!(branches[0].probability_source, None);
        }
        other => panic!("unexpected {other:?}"),
    }
    assert!(matches!(&g.nodes[2].attributes, NodeAttributes::Operation { handler } if handler == "h"));
    assert!(matches!(&g.nodes[3].attributes,
        NodeAttributes::Consequence { operation, channel: None } if operation == "terminate"));
    assert!(matches!(&g.nodes[5].attributes,
        NodeAttributes::Gate { gate_type, k: None } if gate_type == "OR"));
    assert!(matches!(&g.nodes[6].attributes,
        NodeAttributes::BasicEvent { probability: None, failure_rate: None }));
    assert!(matches!(&g.nodes[7].attributes,
        NodeAttributes::Transfer { target, label: None } if target == "FT2/Top"));
}
