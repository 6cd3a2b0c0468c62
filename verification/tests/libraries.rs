use etdl_compiler::model::AsyncApiRegistry;
use etdl_compiler::pipeline::validate_with_libraries;
use etdl_compiler::reliability::UnknownProbabilityPolicy;
use etdl_compiler::expansion::expanded_document;
use etdl_compiler::libraries::{
    expand_libraries, locate_library, next_library_to_load, splice_plan, CatalogEntry, LibraryDefinition,
    LibraryDependency, LibraryLocation, ResolvedLibrary, SpliceItem,
};
use etdl_compiler::model::{
    BasicEvent, BasicEventEntry, Consequence, ConsequenceOperation, Document, EventTree,
    EventTreeEntry, ExternalRef, FaultTree, FaultTreeEntry, Gate, GateEntry, GateType,
    InitiatingEvent, LibraryImport, Measure, MessageRef, Node, NodeEntry, TopEvent,
};
use etdl_compiler::stdlib::{LibraryError, LibraryKind};

fn strings(xs: &[&str]) -> Vec<String> {
    xs.iter().map(|s| s.to_string()).collect()
}

fn basic_event(id: &str) -> BasicEventEntry {
    BasicEventEntry {
        id: id.to_string(),
        event: BasicEvent {
            probability: None,
            failure_rate: None,
            mission_time: None,
            is_house: false,
            message: None,
            declares_reliability_source: false,
            reliability_source: None,
            reliability_estimate: None,
        },
    }
}

fn gate(id: &str, inputs: &[&str]) -> GateEntry {
    GateEntry {
        id: id.to_string(),
        gate: Gate { gate_type: GateType::Or, inputs: strings(inputs), k: None, has_inhibit_condition: false },
    }
}

fn library(name: &str, version: &str, deps: &[(&str, &str)], gates: Vec<GateEntry>, events: &[&str]) -> LibraryDefinition {
    LibraryDefinition {
        name: name.to_string(),
        version: version.to_string(),
        description: None,
        depends_on: deps
            .iter()
            .map(|(n, v)| LibraryDependency { name: n.to_string(), version: v.to_string() })
            .collect(),
        gates,
        basic_events: events.iter().map(|e| basic_event(e)).collect(),
    }
}

fn entry(name: &str, def: LibraryDefinition) -> CatalogEntry {
    CatalogEntry { name: name.to_string(), loaded: Ok((LibraryKind::User, def)) }
}

fn import(name: &str, version: &str) -> LibraryImport {
    LibraryImport { name: name.to_string(), version: version.to_string(), required: true }
}

fn document(imports: Vec<LibraryImport>, trees: Option<Vec<FaultTreeEntry>>) -> Document {
    Document {
        etdl: "1.0".to_string(),
        supplements: vec![],
        libraries: imports,
        asyncapi_aliases: vec![],
        component_messages: vec![],
        event_trees: vec![],
        fault_trees: trees,
    }
}

fn tree(root: &str, gates: Option<Vec<GateEntry>>, events: &[&str]) -> FaultTree {
    FaultTree {
        top_event: TopEvent { id: "Top".to_string(), message: None, root_cause: root.to_string() },
        gates,
        basic_events: events.iter().map(|e| basic_event(e)).collect(),
        transfers: None,
    }
}

fn names(resolved: &[ResolvedLibrary]) -> Vec<String> {
    resolved.iter().map(|r| r.name.clone()).collect()
}

#[test]
fn mutual_dependency_is_reported_as_a_cycle_with_its_chain() {
    let cat = vec![
        entry("alpha", library("alpha", "1.0", &[("beta", "1.0")], vec![], &[])),
        entry("beta", library("beta", "1.2", &[("alpha", "1.0")], vec![], &[])),
    ];
    let doc = document(vec![import("alpha", "1.0")], None);
    let r = expand_libraries(&doc, &cat);
    assert_eq!(names(&r.resolved), strings(&["alpha", "beta"]));
    assert_eq!(r.errors.len(), 1);
    match &r.errors[0] {
        LibraryError::Cyclic { chain } => assert_eq!(chain, &strings(&["alpha", "beta", "alpha"])),
        other => panic!("expected a cycle, got {other:?}"),
    }
    assert!(r.splices.is_empty());
}

#[test]
fn major_version_mismatch_is_reported_and_library_still_resolves() {
    let cat = vec![entry("pumps", library("pumps", "1.3.0", &[], vec![], &[]))];
    let doc = document(vec![import("pumps", "2.0")], None);
    let r = expand_libraries(&doc, &cat);
    assert_eq!(names(&r.resolved), strings(&["pumps"]));
    assert_eq!(r.resolved[0].version, "1.3.0");
    match &r.errors[..] {
        [LibraryError::IncompatibleVersion { name, requested, found }] => {
            assert_eq!(name, "pumps");
            assert_eq!(requested, "2.0");
            assert_eq!(found, "1.3.0");
        }
        other => panic!("expected one version error, got {other:?}"),
    }
}

#[test]
fn same_major_version_is_compatible() {
    let cat = vec![entry("pumps", library("pumps", "1.9", &[], vec![], &[]))];
    let doc = document(vec![import("pumps", "1.0")], None);
    let r = expand_libraries(&doc, &cat);
    assert!(r.errors.is_empty());
    assert_eq!(r.resolved[0].kind, LibraryKind::User);
}

#[test]
fn library_missing_from_catalog_is_not_found() {
    let doc = document(vec![import("ghost", "1.0")], None);
    let r = expand_libraries(&doc, &vec![]);
    assert!(r.resolved.is_empty());
    match &r.errors[..] {
        [LibraryError::NotFound { name, searched }] => {
            assert_eq!(name, "ghost");
            assert_eq!(searched, "no catalog entry");
        }
        other => panic!("expected not found, got {other:?}"),
    }
}

#[test]
fn library_declaring_another_name_is_an_invalid_manifest() {
    let cat = vec![entry("valves", library("pipes", "1.0", &[], vec![], &[]))];
    let doc = document(vec![import("valves", "1.0")], None);
    let r = expand_libraries(&doc, &cat);
    assert!(r.resolved.is_empty());
    match &r.errors[..] {
        [LibraryError::InvalidManifest { name, reason }] => {
            assert_eq!(name, "valves");
            assert_eq!(reason, "declares name 'pipes' but was resolved as 'valves'");
        }
        other => panic!("expected invalid manifest, got {other:?}"),
    }
}

#[test]
fn load_failure_in_catalog_is_passed_through() {
    let cat = vec![CatalogEntry {
        name: "broken".to_string(),
        loaded: Err(LibraryError::NotFound { name: "broken".to_string(), searched: "./libs".to_string() }),
    }];
    let doc = document(vec![import("broken", "1.0")], None);
    let r = expand_libraries(&doc, &cat);
    match &r.errors[..] {
        [LibraryError::NotFound { name, searched }] => {
            assert_eq!(name, "broken");
            assert_eq!(searched, "./libs");
        }
        other => panic!("expected the catalog's error, got {other:?}"),
    }
}

#[test]
fn dependencies_are_resolved_in_name_order() {
    let cat = vec![
        entry("zeta", library("zeta", "1.0", &[("eta", "1.0"), ("beta", "1.0")], vec![], &[])),
        entry("eta", library("eta", "1.0", &[], vec![], &[])),
        entry("beta", library("beta", "1.0", &[], vec![], &[])),
    ];
    let doc = document(vec![import("zeta", "1.0")], None);
    let r = expand_libraries(&doc, &cat);
    assert!(r.errors.is_empty());
    assert_eq!(names(&r.resolved), strings(&["beta", "eta", "zeta"]));
}

#[test]
fn referenced_library_gate_is_taken_in_with_its_inputs() {
    let lib = library(
        "pumps",
        "1.0",
        &[],
        vec![gate("PumpFails", &["pumps.MotorFails", "pumps.SealLeak"])],
        &["MotorFails", "SealLeak", "Unused"],
    );
    let cat = vec![entry("pumps", lib)];
    let ft = tree("pumps.PumpFails", None, &[]);
    let doc = document(
        vec![import("pumps", "1.0")],
        Some(vec![FaultTreeEntry { name: "ft".to_string(), tree: ft }]),
    );
    let r = expand_libraries(&doc, &cat);
    assert!(r.errors.is_empty());
    assert_eq!(r.splices.len(), 1);
    let plan = &r.splices[0];
    let ids: Vec<&str> = plan.iter().map(|s| s.qualified_id.as_str()).collect();
    assert_eq!(ids, vec!["pumps.PumpFails", "pumps.SealLeak", "pumps.MotorFails"]);
    assert_eq!(plan[0].item, SpliceItem::Gate(0));
    assert_eq!(plan[1].item, SpliceItem::BasicEvent(1));
    assert_eq!(plan[2].item, SpliceItem::BasicEvent(0));
    assert!(plan.iter().all(|s| s.entry == 0));
}

#[test]
fn local_basic_event_keeps_its_place_in_the_plan() {
    let lib = library(
        "pumps",
        "1.0",
        &[],
        vec![gate("PumpFails", &["pumps.MotorFails", "pumps.SealLeak"])],
        &["MotorFails", "SealLeak"],
    );
    let cat = vec![entry("pumps", lib)];
    let ft = tree("pumps.PumpFails", None, &["pumps.SealLeak"]);
    let resolved = vec![ResolvedLibrary {
        name: "pumps".to_string(),
        version: "1.0".to_string(),
        kind: LibraryKind::User,
        entry: 0,
    }];
    let plan = splice_plan(&ft, &cat, &resolved);
    let ids: Vec<&str> = plan.iter().map(|s| s.qualified_id.as_str()).collect();
    assert_eq!(ids, vec!["pumps.PumpFails", "pumps.MotorFails"]);
}

#[test]
fn unknown_qualified_id_and_plain_ids_are_left_alone() {
    let lib = library("pumps", "1.0", &[], vec![], &["MotorFails"]);
    let cat = vec![entry("pumps", lib)];
    let ft = tree("G", Some(vec![gate("G", &["pumps.Nope", "valves.Stuck", "Local"])]), &["Local"]);
    let resolved = vec![ResolvedLibrary {
        name: "pumps".to_string(),
        version: "1.0".to_string(),
        kind: LibraryKind::User,
        entry: 0,
    }];
    assert!(splice_plan(&ft, &cat, &resolved).is_empty());
}

#[test]
fn self_referencing_library_gate_is_taken_in_once() {
    let lib = library("loop", "1.0", &[], vec![gate("G", &["loop.G", "loop.E"])], &["E"]);
    let cat = vec![entry("loop", lib)];
    let ft = tree("loop.G", None, &[]);
    let resolved = vec![ResolvedLibrary {
        name: "loop".to_string(),
        version: "1.0".to_string(),
        kind: LibraryKind::Optional,
        entry: 0,
    }];
    let plan = splice_plan(&ft, &cat, &resolved);
    let ids: Vec<&str> = plan.iter().map(|s| s.qualified_id.as_str()).collect();
    assert_eq!(ids, vec!["loop.G", "loop.E"]);
}

#[test]
fn provenance_carries_name_version_and_kind_label() {
    let lib = ResolvedLibrary {
        name: "std.events".to_string(),
        version: "1.0.0".to_string(),
        kind: LibraryKind::BuiltIn,
        entry: 0,
    };
    let p = lib.provenance();
    assert_eq!(p.name, "std.events");
    assert_eq!(p.version, "1.0.0");
    assert_eq!(p.kind, "built-in");
}

fn gate_ids(ft: &FaultTree) -> Vec<String> {
    ft.gates.iter().flatten().map(|g| g.id.clone()).collect()
}

fn event_ids(ft: &FaultTree) -> Vec<String> {
    ft.basic_events.iter().map(|e| e.id.clone()).collect()
}

#[test]
fn expanded_document_takes_library_definitions_in_id_order() {
    let lib = library(
        "pumps",
        "1.0",
        &[],
        vec![gate("PumpFails", &["pumps.MotorFails", "pumps.SealLeak"])],
        &["MotorFails", "SealLeak"],
    );
    let cat = vec![entry("pumps", lib)];
    let ft = tree("G", Some(vec![gate("G", &["pumps.PumpFails", "z.local"])]), &["a.local", "z.local"]);
    let doc = document(
        vec![import("pumps", "1.0")],
        Some(vec![FaultTreeEntry { name: "ft".to_string(), tree: ft }]),
    );
    let r = expand_libraries(&doc, &cat);
    assert!(r.errors.is_empty());
    let expanded = expanded_document(doc, &cat, &r.splices);
    let fts = expanded.fault_trees.expect("fault trees kept");
    let t = &fts[0].tree;
    assert_eq!(gate_ids(t), strings(&["G", "pumps.PumpFails"]));
    assert_eq!(event_ids(t), strings(&["a.local", "pumps.MotorFails", "pumps.SealLeak", "z.local"]));
    let spliced = &t.gates.as_ref().unwrap()[1].gate;
    assert_eq!(spliced.inputs, strings(&["pumps.MotorFails", "pumps.SealLeak"]));
    assert_eq!(expanded.libraries.len(), 1);
}

#[test]
fn expanded_document_adds_gates_to_a_tree_that_declared_none() {
    let lib = library("pumps", "1.0", &[], vec![gate("PumpFails", &["pumps.SealLeak"])], &["SealLeak"]);
    let cat = vec![entry("pumps", lib)];
    let plain = tree("pumps.SealLeak", None, &[]);
    let gated = tree("pumps.PumpFails", None, &[]);
    let doc = document(
        vec![import("pumps", "1.0")],
        Some(vec![
            FaultTreeEntry { name: "plain".to_string(), tree: plain },
            FaultTreeEntry { name: "gated".to_string(), tree: gated },
        ]),
    );
    let r = expand_libraries(&doc, &cat);
    let expanded = expanded_document(doc, &cat, &r.splices);
    let fts = expanded.fault_trees.unwrap();
    assert!(fts[0].tree.gates.is_none());
    assert_eq!(event_ids(&fts[0].tree), strings(&["pumps.SealLeak"]));
    assert_eq!(gate_ids(&fts[1].tree), strings(&["pumps.PumpFails"]));
    assert_eq!(event_ids(&fts[1].tree), strings(&["pumps.SealLeak"]));
}

#[test]
fn expanded_document_without_plans_keeps_every_tree() {
    let ft = tree("G", Some(vec![gate("G", &["A"])]), &["A"]);
    let doc = document(vec![], Some(vec![FaultTreeEntry { name: "ft".to_string(), tree: ft }]));
    let expanded = expanded_document(doc, &vec![], &vec![]);
    let fts = expanded.fault_trees.unwrap();
    assert_eq!(fts[0].name, "ft");
    assert_eq!(gate_ids(&fts[0].tree), strings(&["G"]));
    assert_eq!(event_ids(&fts[0].tree), strings(&["A"]));
}

#[test]
fn builtin_library_names_are_built_in() {
    assert_eq!(
        locate_library("std.events", &vec![true], true, "lib/std.events/lib.etdl").unwrap(),
        (LibraryKind::BuiltIn, LibraryLocation::BuiltIn)
    );
}

#[test]
fn reserved_namespace_is_never_searched_elsewhere() {
    match locate_library("std.custom", &vec![false, true], false, "./lib/std.custom/lib.etdl") {
        Err(LibraryError::Shadowing { name, prefix }) => {
            assert_eq!(name, "std.custom");
            assert_eq!(prefix, "std.");
        }
        other => panic!("expected shadowing, got {other:?}"),
    }
    match locate_library("std.custom", &vec![false], false, "./lib/std.custom/lib.etdl") {
        Err(LibraryError::NotFound { name, searched }) => {
            assert_eq!(name, "std.custom");
            assert_eq!(
                searched,
                "the built-in standard library registry (reserved namespace: never searched elsewhere)"
            );
        }
        other => panic!("expected not found, got {other:?}"),
    }
}

#[test]
fn first_search_directory_wins_over_the_document_directory() {
    assert_eq!(
        locate_library("pumps", &vec![false, true, true], true, "x").unwrap(),
        (LibraryKind::Optional, LibraryLocation::SearchPath(1))
    );
    assert_eq!(
        locate_library("pumps", &vec![false, false], true, "x").unwrap(),
        (LibraryKind::User, LibraryLocation::User)
    );
}

#[test]
fn library_found_nowhere_says_where_it_was_looked_for() {
    match locate_library("pumps", &vec![false, false], false, "./lib/pumps/lib.etdl") {
        Err(LibraryError::NotFound { name, searched }) => {
            assert_eq!(name, "pumps");
            assert_eq!(searched, "built-in registry, 2 search path(s), and './lib/pumps/lib.etdl'");
        }
        other => panic!("expected not found, got {other:?}"),
    }
}

fn measure(x: f64) -> Measure {
    Measure {
        text: format!("{}", x),
        finite: x.is_finite(),
        negative: x < 0.0,
        positive: x > 0.0,
        above_one: x > 1.0,
        below_one: x < 1.0,
    }
}

fn event_with(probability: Option<f64>) -> BasicEvent {
    BasicEvent {
        probability: probability.map(measure),
        failure_rate: None,
        mission_time: None,
        is_house: false,
        message: None,
        declares_reliability_source: false,
        reliability_source: None,
        reliability_estimate: None,
    }
}

/// A document importing `libraries`, with one fault tree `FT` whose root
/// gate `G` is an OR over `inputs` and which declares no basic events.
fn doc_importing(libraries: Vec<LibraryImport>, inputs: Vec<&str>) -> Document {
    Document {
        etdl: "1.0.0".to_string(),
        supplements: vec![],
        libraries,
        asyncapi_aliases: vec![],
        component_messages: vec![],
        event_trees: vec![EventTreeEntry {
            name: "T".to_string(),
            tree: EventTree {
                initiating_event: InitiatingEvent {
                    id: "I".to_string(),
                    message: MessageRef::External(ExternalRef { alias: "a".to_string(), pointer: "/m".to_string() }),
                    next: "C".to_string(),
                },
                nodes: vec![NodeEntry {
                    id: "C".to_string(),
                    node: Node::Consequence(Consequence {
                        operation: ConsequenceOperation::Terminate,
                        channel: None,
                        message: None,
                    }),
                }],
            },
        }],
        fault_trees: Some(vec![FaultTreeEntry {
            name: "FT".to_string(),
            tree: FaultTree {
                top_event: TopEvent { id: "Top".to_string(), message: None, root_cause: "G".to_string() },
                gates: Some(vec![gate("G", &inputs)]),
                basic_events: vec![],
                transfers: None,
            },
        }]),
    }
}

fn required(name: &str, version: &str) -> LibraryImport {
    LibraryImport { name: name.to_string(), version: version.to_string(), required: true }
}

/// The built-in events library as it resolves: version 1.0, with the
/// `NetworkTimeout` (probability 0.001) and `ProcessCrash` events.
fn std_events() -> CatalogEntry {
    let mut def = library("std.events", "1.0", &[], vec![], &[]);
    def.basic_events = vec![
        BasicEventEntry { id: "NetworkTimeout".to_string(), event: event_with(Some(0.001)) },
        BasicEventEntry { id: "ProcessCrash".to_string(), event: event_with(None) },
    ];
    CatalogEntry { name: "std.events".to_string(), loaded: Ok((LibraryKind::BuiltIn, def)) }
}

/// The `test.logic` library: default inputs `InputA` and `InputB`,
/// with a gate `AnyOf` over both.
fn test_logic() -> CatalogEntry {
    let def = library(
        "test.logic",
        "1.0",
        &[],
        vec![gate("AnyOf", &["test.logic.InputA", "test.logic.InputB"])],
        &["InputA", "InputB"],
    );
    CatalogEntry { name: "test.logic".to_string(), loaded: Ok((LibraryKind::Optional, def)) }
}

fn the_tree(doc: &Document) -> &FaultTree {
    &doc.fault_trees.as_ref().unwrap()[0].tree
}

fn event<'a>(ft: &'a FaultTree, id: &str) -> Option<&'a BasicEvent> {
    ft.basic_events.iter().find(|e| e.id == id).map(|e| &e.event)
}

fn probability_text(e: &BasicEvent) -> Option<String> {
    e.probability.as_ref().map(|m| m.text.clone())
}

#[test]
fn resolves_builtin_and_splices_referenced_basic_event() {
    let doc = doc_importing(vec![required("std.events", "1.0")], vec!["std.events.NetworkTimeout", "LocalThing"]);
    let cat = vec![std_events()];
    let r = expand_libraries(&doc, &cat);
    assert!(r.errors.is_empty(), "unexpected errors: {:?}", r.errors);
    assert_eq!(r.resolved.len(), 1);
    assert_eq!(r.resolved[0].kind, LibraryKind::BuiltIn);
    assert!(event(the_tree(&doc), "std.events.NetworkTimeout").is_none());
    let expanded = expanded_document(doc, &cat, &r.splices);
    let ft = the_tree(&expanded);
    let be = event(ft, "std.events.NetworkTimeout").expect("spliced in");
    assert_eq!(probability_text(be).as_deref(), Some("0.001"));
    assert!(event(ft, "std.events.ProcessCrash").is_none());
}

#[test]
fn local_declaration_overrides_library_default() {
    let mut doc = doc_importing(vec![required("std.events", "1.0")], vec!["std.events.NetworkTimeout"]);
    doc.fault_trees.as_mut().unwrap()[0]
        .tree
        .basic_events
        .push(BasicEventEntry { id: "std.events.NetworkTimeout".to_string(), event: event_with(Some(0.5)) });
    let cat = vec![std_events()];
    let r = expand_libraries(&doc, &cat);
    assert!(r.errors.is_empty());
    let expanded = expanded_document(doc, &cat, &r.splices);
    let be = event(the_tree(&expanded), "std.events.NetworkTimeout").unwrap();
    assert_eq!(probability_text(be).as_deref(), Some("0.5"));
}

#[test]
fn splices_a_library_gate_and_transitively_its_own_inputs() {
    let doc = doc_importing(vec![required("test.logic", "1.0")], vec!["test.logic.AnyOf", "LocalThing"]);
    let cat = vec![test_logic()];
    let r = expand_libraries(&doc, &cat);
    assert!(r.errors.is_empty(), "unexpected errors: {:?}", r.errors);
    let expanded = expanded_document(doc, &cat, &r.splices);
    let ft = the_tree(&expanded);
    let spliced = ft.gates.iter().flatten().find(|g| g.id == "test.logic.AnyOf").expect("gate spliced in");
    assert_eq!(spliced.gate.inputs, strings(&["test.logic.InputA", "test.logic.InputB"]));
    assert!(event(ft, "test.logic.InputA").is_some());
    assert!(event(ft, "test.logic.InputB").is_some());
}

#[test]
fn overriding_a_library_gates_placeholder_input_flows_through() {
    let mut doc = doc_importing(vec![required("test.logic", "1.0")], vec!["test.logic.AnyOf", "LocalThing"]);
    doc.fault_trees.as_mut().unwrap()[0]
        .tree
        .basic_events
        .push(BasicEventEntry { id: "test.logic.InputA".to_string(), event: event_with(Some(0.42)) });
    let cat = vec![test_logic()];
    let r = expand_libraries(&doc, &cat);
    assert!(r.errors.is_empty(), "unexpected errors: {:?}", r.errors);
    let expanded = expanded_document(doc, &cat, &r.splices);
    let ft = the_tree(&expanded);
    assert_eq!(probability_text(event(ft, "test.logic.InputA").unwrap()).as_deref(), Some("0.42"));
    assert!(event(ft, "test.logic.InputB").unwrap().probability.is_none());
}

#[test]
fn missing_library_is_reported_not_silently_skipped() {
    let doc = doc_importing(vec![required("std.nonexistent", "1.0")], vec![]);
    let loaded = locate_library("std.nonexistent", &vec![], false, "./lib/std.nonexistent/lib.etdl")
        .map(|_| unreachable!("a reserved name that is not built in is never located"));
    let cat = vec![CatalogEntry { name: "std.nonexistent".to_string(), loaded }];
    let r = expand_libraries(&doc, &cat);
    assert_eq!(r.errors.len(), 1);
    assert!(matches!(r.errors[0], LibraryError::NotFound { .. }));
}

#[test]
fn cyclic_dependency_is_detected_not_infinitely_recursed() {
    let cat = vec![
        CatalogEntry {
            name: "a".to_string(),
            loaded: Ok((LibraryKind::Optional, library("a", "1.0", &[("b", "1.0")], vec![], &[]))),
        },
        CatalogEntry {
            name: "b".to_string(),
            loaded: Ok((LibraryKind::Optional, library("b", "1.0", &[("a", "1.0")], vec![], &[]))),
        },
    ];
    let doc = doc_importing(vec![required("a", "1.0")], vec![]);
    let r = expand_libraries(&doc, &cat);
    assert!(r.errors.iter().any(|e| matches!(e, LibraryError::Cyclic { .. })));
}

#[test]
fn incompatible_major_version_is_rejected() {
    let doc = doc_importing(vec![required("std.events", "2.0")], vec![]);
    let r = expand_libraries(&doc, &vec![std_events()]);
    assert!(r.errors.iter().any(|e| matches!(e, LibraryError::IncompatibleVersion { .. })));
}

#[test]
fn resolution_is_deterministic_across_repeated_runs() {
    let doc_a =
        doc_importing(vec![required("std.events", "1.0")], vec!["std.events.NetworkTimeout", "std.events.ProcessCrash"]);
    let doc_b =
        doc_importing(vec![required("std.events", "1.0")], vec!["std.events.NetworkTimeout", "std.events.ProcessCrash"]);
    let cat = vec![std_events()];
    let r_a = expand_libraries(&doc_a, &cat);
    let r_b = expand_libraries(&doc_b, &cat);
    assert!(r_a.errors.is_empty() && r_b.errors.is_empty());
    let a = expanded_document(doc_a, &cat, &r_a.splices);
    let b = expanded_document(doc_b, &cat, &r_b.splices);
    let (ft_a, ft_b) = (the_tree(&a), the_tree(&b));
    assert_eq!(ft_a.basic_events.len(), ft_b.basic_events.len());
    for e in &ft_a.basic_events {
        assert_eq!(event(ft_b, &e.id).map(probability_text), Some(probability_text(&e.event)));
    }
}

#[test]
fn optional_library_cannot_shadow_std_namespace() {
    let located = locate_library("std.events", &vec![true], false, "./lib/std.events/lib.etdl");
    assert_eq!(located.unwrap(), (LibraryKind::BuiltIn, LibraryLocation::BuiltIn));
    let doc = doc_importing(vec![required("std.events", "1.0")], vec![]);
    let r = expand_libraries(&doc, &vec![std_events()]);
    assert!(r.errors.is_empty(), "unexpected errors: {:?}", r.errors);
    assert_eq!(r.resolved[0].version, "1.0");
    assert_eq!(r.resolved[0].kind, LibraryKind::BuiltIn);
}

#[test]
fn libraries_to_load_follow_imports_then_dependencies() {
    let doc = doc_importing(vec![required("zeta", "1.0"), required("alpha", "1.0")], vec![]);
    let mut cat: Vec<CatalogEntry> = vec![];
    assert_eq!(next_library_to_load(&doc, &cat).as_deref(), Some("zeta"));
    cat.push(entry("zeta", library("zeta", "1.0", &[("eta", "1.0")], vec![], &[])));
    assert_eq!(next_library_to_load(&doc, &cat).as_deref(), Some("alpha"));
    cat.push(entry("alpha", library("alpha", "1.0", &[("zeta", "1.0")], vec![], &[])));
    assert_eq!(next_library_to_load(&doc, &cat).as_deref(), Some("eta"));
    cat.push(CatalogEntry {
        name: "eta".to_string(),
        loaded: Err(LibraryError::NotFound { name: "eta".to_string(), searched: "x".to_string() }),
    });
    assert_eq!(next_library_to_load(&doc, &cat), None);
}

#[test]
fn validation_sequence_reports_library_errors_and_expands() {
    let doc = doc_importing(vec![required("std.events", "1.0")], vec!["std.events.NetworkTimeout"]);
    let registry = AsyncApiRegistry { resolvable: vec![] };
    let (expanded, d) = validate_with_libraries(
        doc,
        &vec![std_events()],
        &registry,
        None,
        &vec![],
        UnknownProbabilityPolicy::Warning,
        None,
    );
    assert!(event(the_tree(&expanded), "std.events.NetworkTimeout").is_some());
    assert!(!d.iter().any(|x| x.code.starts_with("E-11")), "{d:?}");
    let doc = doc_importing(vec![required("missing", "1.0")], vec![]);
    let (_, d) = validate_with_libraries(
        doc,
        &vec![],
        &registry,
        None,
        &vec![],
        UnknownProbabilityPolicy::Warning,
        None,
    );
    assert!(d.iter().any(|x| x.code == "E-116"), "{d:?}");
}
