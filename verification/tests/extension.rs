use etdl_compiler::extension::{builtin_registry, make_descriptor, ExtensionInfo, ExtensionRegistry, NoopExtensionResult};

fn test_ext() -> ExtensionInfo {
    ExtensionInfo {
        id: "etdl.test".to_string(),
        version: "1.0".to_string(),
        descriptor: make_descriptor("", None, &[], &[]),
    }
}

#[test]
fn registry_is_deterministic() {
    let mut r = ExtensionRegistry::new();
    r.register(test_ext());
    r.register(test_ext());
    assert!(r.contains("etdl.test"));
    assert!(r.lookup("etdl.test").is_some());
    assert_eq!(r.list(), vec!["etdl.test".to_string()]);
}

#[test]
fn lookup_missing_is_none() {
    let r = ExtensionRegistry::new();
    assert!(r.lookup("etdl.nope").is_none());
}

#[test]
fn every_built_in_extension_has_a_non_empty_descriptor() {
    let registry = builtin_registry();
    for id in registry.list() {
        let ext = registry.lookup(&id).expect("listed");
        let d = &ext.descriptor;
        assert!(!d.summary.is_empty(), "{id}: empty summary");
        assert!(!d.diagnostic_codes.is_empty(), "{id}: no diagnostic codes");
    }
}

#[test]
fn registering_a_duplicate_id_replaces_the_previous_entry() {
    let mut r = ExtensionRegistry::new();
    r.register(test_ext());
    let mut newer = test_ext();
    newer.version = "2.0".to_string();
    r.register(newer);
    assert_eq!(r.list().len(), 1);
    assert_eq!(r.lookup("etdl.test").unwrap().version, "2.0");
}

#[test]
fn registry_lists_ids_in_sorted_order_whatever_the_registration_order() {
    let mut r = ExtensionRegistry::new();
    for id in ["etdl.zeta", "etdl.alpha", "etdl.mid"] {
        let mut e = test_ext();
        e.id = id.to_string();
        r.register(e);
    }
    assert_eq!(r.list(), vec!["etdl.alpha".to_string(), "etdl.mid".to_string(), "etdl.zeta".to_string()]);
}

#[test]
fn builtin_registry_lists_every_built_in_supplement() {
    let ids = builtin_registry().list();
    for id in [
        "etdl.diagnostics",
        "etdl.live-reliability",
        "etdl.performance",
        "etdl.reliability",
        "etdl.safety",
        "etdl.security",
        "etdl.tree-event",
    ] {
        assert!(ids.contains(&id.to_string()), "missing {id}: {ids:?}");
    }
}

#[test]
fn noop_result_has_an_empty_extension_id() {
    assert_eq!(NoopExtensionResult.extension_id(), "");
}

#[test]
fn built_in_registry_holds_each_extension_own_descriptor() {
    let registry = builtin_registry();
    let safety = registry.lookup("etdl.safety").expect("built in");
    assert_eq!(safety.version, "1.0");
    assert_eq!(safety.descriptor.schema.as_deref(), Some("etdl.safety/1.0"));
    assert_eq!(safety.descriptor.diagnostic_codes, vec!["E-130", "E-131", "E-132", "W-410"]);
    let security = registry.lookup("etdl.security").expect("built in");
    assert_eq!(security.descriptor.required_supplements, vec!["etdl.tree-event"]);
    let reliability = registry.lookup("etdl.reliability").expect("built in");
    assert_eq!(reliability.descriptor.schema, None);
    assert_eq!(reliability.descriptor.diagnostic_codes, vec!["E-110", "E-111", "E-112", "W-408"]);
}
