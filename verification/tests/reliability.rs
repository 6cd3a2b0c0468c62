use etdl_compiler::diagnostic::Diagnostic;
use etdl_compiler::extension::builtin_registry;
use etdl_compiler::model::{
    BasicEvent, BasicEventEntry, Consequence, ConsequenceOperation, Document, EventTree,
    EventTreeEntry, ExternalRef, FaultTree, FaultTreeEntry, Gate, GateEntry, GateType,
    InitiatingEvent, Measure, MessageRef, Node, NodeEntry, Supplement, TopEvent,
};
use etdl_compiler::reliability::{
    enabled_features, parse_config, resolve_path, resolve_reliability, supplements_used,
    EstimateOutcome, EstimateResolution, LoadedArtifact, RawReliabilityConfig, RawSource,
    ReliabilityResult, ResolvedProbability, SourceLoad, UnknownProbabilityPolicy,
};

fn measure(x: f64) -> Measure {
    Measure {
        text: format!("{}", x),
        finite: x.is_finite(),
        negative: x < 0.0,
        positive: x > 0.0,
        above_one: x > 1.0,
        below_one: x < 1.0,
    }
}

fn event(source: Option<(&str, &str)>, probability: Option<f64>) -> BasicEvent {
    BasicEvent {
        probability: probability.map(measure),
        failure_rate: None,
        mission_time: None,
        is_house: false,
        message: None,
        declares_reliability_source: source.is_some(),
        reliability_source: source.map(|(s, _)| s.to_string()),
        reliability_estimate: source.map(|(_, e)| e.to_string()),
    }
}

/// Fault tree `FT`: `G = OR(A, B)`, `A` sourced from `gw`/`est.timeout`,
/// `B` with a declared probability.
fn doc_with_source(declare: bool) -> Document {
    Document {
        etdl: "1.0.0".to_string(),
        supplements: if declare {
            vec![Supplement { id: "etdl.reliability".to_string(), version: "1.0".to_string(), required: true }]
        } else {
            vec![]
        },
        libraries: vec![],
        asyncapi_aliases: vec![],
        component_messages: vec![],
        event_trees: vec![EventTreeEntry {
            name: "T".to_string(),
            tree: EventTree {
                initiating_event: InitiatingEvent {
                    id: "I".to_string(),
                    message: MessageRef::External(ExternalRef { alias: "a".to_string(), pointer: "/m".to_string() }),
                    next: "C".to_string(),
                },
                nodes: vec![NodeEntry {
                    id: "C".to_string(),
                    node: Node::Consequence(Consequence {
                        operation: ConsequenceOperation::Terminate,
                        channel: None,
                        message: None,
                    }),
                }],
            },
        }],
        fault_trees: Some(vec![FaultTreeEntry {
            name: "FT".to_string(),
            tree: FaultTree {
                top_event: TopEvent { id: "Top".to_string(), message: None, root_cause: "G".to_string() },
                gates: Some(vec![GateEntry {
                    id: "G".to_string(),
                    gate: Gate {
                        gate_type: GateType::Or,
                        inputs: vec!["A".to_string(), "B".to_string()],
                        k: None,
                        has_inhibit_condition: false,
                    },
                }]),
                basic_events: vec![
                    BasicEventEntry { id: "A".to_string(), event: event(Some(("gw", "est.timeout")), None) },
                    BasicEventEntry { id: "B".to_string(), event: event(None, Some(0.5)) },
                ],
                transfers: None,
            },
        }]),
    }
}

fn artifact(outcomes: Vec<(&str, EstimateOutcome)>) -> LoadedArtifact {
    LoadedArtifact {
        id: "gw-artifact".to_string(),
        version: Some("3".to_string()),
        resolutions: outcomes
            .into_iter()
            .map(|(e, o)| EstimateResolution { estimate: e.to_string(), outcome: o })
            .collect(),
    }
}

fn resolved(value: &str) -> EstimateOutcome {
    EstimateOutcome::Resolved(ResolvedProbability {
        value: value.to_string(),
        estimate_id: "est.timeout".to_string(),
        artifact_id: "gw-artifact".to_string(),
        artifact_version: Some("3".to_string()),
    })
}

fn load(id: &str, file: &str, artifact: Result<LoadedArtifact, String>) -> SourceLoad {
    SourceLoad { id: id.to_string(), file: file.to_string(), artifact }
}

fn run(doc: &Document, loads: Vec<SourceLoad>, policy: UnknownProbabilityPolicy) -> (ReliabilityResult, Vec<Diagnostic>) {
    let mut d = Vec::new();
    let r = resolve_reliability(doc, &loads, policy, &mut d);
    (r, d)
}

fn codes(ds: &[Diagnostic]) -> Vec<String> {
    ds.iter().map(|d| d.code.clone()).collect()
}

#[test]
fn reliability_extension_is_registered_and_processable() {
    let registry = builtin_registry();
    assert!(registry.contains("etdl.reliability"));
    assert!(registry.list().contains(&"etdl.reliability".to_string()));
    let ext = registry.lookup("etdl.reliability").expect("registered");
    assert_eq!(ext.id, "etdl.reliability");
    // The artifact is missing, so no values resolve; diagnostics record it.
    let (r, d) = run(
        &doc_with_source(true),
        vec![load("gw", "./missing.rprob", Err("cannot read artifact: No such file or directory (os error 2)".to_string()))],
        UnknownProbabilityPolicy::Warning,
    );
    assert!(d.iter().any(|x| x.is_error()), "missing artifact should produce an error diagnostic");
    assert!(r.resolved.is_empty());
}

#[test]
fn missing_artifact_is_e110_then_undeclared_source_is_e111() {
    let (r, d) = run(
        &doc_with_source(true),
        vec![load("gw", "./missing.rprob", Err("cannot read artifact".to_string()))],
        UnknownProbabilityPolicy::Warning,
    );
    assert_eq!(codes(&d), vec!["E-110", "E-111"]);
    assert_eq!(d[0].message, "reliability source './missing.rprob': cannot read artifact");
    assert!(d[1].message.contains("references reliability source 'gw'"));
    assert!(r.resolved.is_empty());
    assert!(!r.manifest_due);
}

#[test]
fn resolved_estimate_yields_a_probability_and_a_manifest() {
    let (r, d) = run(
        &doc_with_source(true),
        vec![load("gw", "gw.rprob", Ok(artifact(vec![("est.timeout", resolved("0.002"))])))],
        UnknownProbabilityPolicy::Error,
    );
    assert!(d.is_empty(), "unexpected: {d:?}");
    assert_eq!(r.resolved.len(), 1);
    assert_eq!(r.resolved[0].override_key(), "FT::A");
    assert_eq!(r.resolved[0].resolved.value, "0.002");
    assert_eq!(r.artifact_files, vec!["gw.rprob".to_string()]);
    assert!(r.manifest_due);
}

#[test]
fn unknown_estimate_follows_the_policy() {
    let doc = doc_with_source(true);
    let loads = || vec![load("gw", "gw.rprob", Ok(artifact(vec![("est.timeout", EstimateOutcome::Unknown)])))];
    let (r, d) = run(&doc, loads(), UnknownProbabilityPolicy::Error);
    assert_eq!(codes(&d), vec!["E-112"]);
    assert!(d[0].message.ends_with("has no deterministic value (unknown)"));
    assert!(!r.manifest_due);
    let (r, d) = run(&doc, loads(), UnknownProbabilityPolicy::Warning);
    assert_eq!(codes(&d), vec!["W-408"]);
    assert!(r.resolved.is_empty());
    assert!(r.manifest_due);
    let (_r, d) = run(&doc, loads(), UnknownProbabilityPolicy::Allow);
    assert!(d.is_empty());
}

#[test]
fn missing_and_failed_estimates_are_e112() {
    let doc = doc_with_source(true);
    let (_r, d) = run(&doc, vec![load("gw", "gw.rprob", Ok(artifact(vec![])))], UnknownProbabilityPolicy::Allow);
    assert_eq!(codes(&d), vec!["E-112"]);
    assert_eq!(
        d[0].message,
        "basic event 'A' (fault tree 'FT'): reliability estimate 'est.timeout' from source 'gw' does not exist in the artifact"
    );
    let (_r, d) = run(
        &doc,
        vec![load("gw", "gw.rprob", Ok(artifact(vec![("est.timeout", EstimateOutcome::Failed("bad".to_string()))])))],
        UnknownProbabilityPolicy::Allow,
    );
    assert_eq!(
        d[0].message,
        "basic event 'A' (fault tree 'FT'): cannot resolve reliability estimate 'est.timeout' from source 'gw': bad"
    );
}

#[test]
fn later_source_with_the_same_id_wins() {
    let (r, d) = run(
        &doc_with_source(true),
        vec![
            load("gw", "old.rprob", Ok(artifact(vec![("est.timeout", resolved("0.1"))]))),
            load("gw", "new.rprob", Ok(artifact(vec![("est.timeout", resolved("0.2"))]))),
        ],
        UnknownProbabilityPolicy::Error,
    );
    assert!(d.is_empty());
    assert_eq!(r.resolved[0].resolved.value, "0.2");
    assert_eq!(r.artifact_files, vec!["old.rprob".to_string(), "new.rprob".to_string()]);
}

#[test]
fn undeclared_supplement_resolves_nothing() {
    let (r, d) = run(
        &doc_with_source(false),
        vec![load("gw", "gw.rprob", Ok(artifact(vec![("est.timeout", resolved("0.002"))])))],
        UnknownProbabilityPolicy::Error,
    );
    assert!(d.is_empty());
    assert!(r.resolved.is_empty());
    assert!(!r.manifest_due);
}

#[test]
fn config_keeps_complete_sources_and_reads_the_policy() {
    let raw = RawReliabilityConfig {
        sources: vec![
            RawSource { id: Some("gw".to_string()), file: Some("gw.rprob".to_string()) },
            RawSource { id: Some(String::new()), file: Some("x.rprob".to_string()) },
            RawSource { id: Some("db".to_string()), file: None },
        ],
        unknown_policy: Some(Some("allow".to_string())),
    };
    let c = parse_config(&raw);
    assert_eq!(c.sources.len(), 1);
    assert_eq!(c.sources[0].id, "gw");
    assert_eq!(c.unknown_policy, UnknownProbabilityPolicy::Allow);
    let other = RawReliabilityConfig { sources: vec![], unknown_policy: Some(Some("loud".to_string())) };
    assert_eq!(parse_config(&other).unknown_policy, UnknownProbabilityPolicy::Warning);
    let error = RawReliabilityConfig { sources: vec![], unknown_policy: Some(Some("error".to_string())) };
    assert_eq!(parse_config(&error).unknown_policy, UnknownProbabilityPolicy::Error);
}

#[test]
fn source_path_must_not_escape_the_project_root() {
    let e = resolve_path("/project", "data/../../secret.rprob").unwrap_err();
    assert_eq!(
        e,
        "reliability source 'data/../../secret.rprob' must not contain '..' (path traversal outside the project root is forbidden)"
    );
    assert_eq!(resolve_path("/project", "data/gw.rprob").unwrap(), "/project/data/gw.rprob");
    assert_eq!(resolve_path("/project", "/abs/gw.rprob").unwrap(), "/abs/gw.rprob");
    assert!(resolve_path("/project", "a..b/gw.rprob").is_ok());
}

#[test]
fn build_manifest_records_features_and_supplements() {
    assert_eq!(enabled_features(), vec!["reliability"]);
    let used = supplements_used(&doc_with_source(true));
    assert_eq!(used.len(), 1);
    assert_eq!(used[0].id, "etdl.reliability");
    assert_eq!(used[0].version, "1.0");
}

#[test]
fn relative_source_is_appended_to_the_base_directory() {
    assert_eq!(resolve_path("proj/", "x.rprob").unwrap(), "proj/x.rprob");
    assert_eq!(resolve_path("", "x.rprob").unwrap(), "x.rprob");
    assert_eq!(resolve_path("a/b", "c/x.rprob").unwrap(), "a/b/c/x.rprob");
}
