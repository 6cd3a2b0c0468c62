use etdl_compiler::codegen::GeneratedFile;
use etdl_compiler::diagnostic::{diagnostic_line, Diagnostic, DiagnosticSeverity};
use etdl_compiler::diagnostics::fault_tree_id_from_pointer;
use etdl_compiler::event_rules::is_rust_ident;
use etdl_compiler::plugin::{plugin_error, unpack, validate_reply, PluginDiagnostic, PluginReply};
use etdl_compiler::safety::{parse_likelihood, parse_severity, risk_matrix_value, Likelihood, Severity};
use etdl_compiler::stdlib::{
    check_version_compatible, major_version, LibraryError, LibraryKind, LibraryProvenance, LibraryResolver,
};
use etdl_compiler::targets::{available_target_names, split_target_names};
use etdl_compiler::validate::{parse_supplement_major, supplement_is_supported};

#[test]
fn target_names_are_split_trimmed_and_non_empty() {
    assert_eq!(split_target_names("rust, java ,,python,"), vec!["rust", "java", "python"]);
    assert_eq!(split_target_names("rust"), vec!["rust"]);
    assert!(split_target_names(" , ,").is_empty());
    assert_eq!(available_target_names(), vec!["rust"]);
}

#[test]
fn diagnostic_lines_are_one_based() {
    let d = Diagnostic::error("V-101", "bad".to_string()).with_position(0, 4);
    assert_eq!(diagnostic_line(&d), "[ERROR] V-101 (1:5): bad");
    let w = Diagnostic::warning("W-401", "meh".to_string());
    assert_eq!(diagnostic_line(&w), "[WARNING] W-401: meh");
    let max = Diagnostic::error("E", "m".to_string()).with_position(u32::MAX, 0);
    assert_eq!(diagnostic_line(&max), "[ERROR] E (4294967296:1): m");
}

#[test]
fn packed_words_split_into_pointer_and_length() {
    assert_eq!(unpack((7u64 << 32) | 42), (7, 42));
    assert_eq!(unpack(u64::MAX), (u32::MAX, u32::MAX));
    assert_eq!(unpack(0), (0, 0));
}

#[test]
fn plugin_replies_become_tagged_diagnostics() {
    let ds = validate_reply(
        "acme",
        &PluginReply::Diagnostics(vec![
            PluginDiagnostic { code: "X-1".to_string(), severity: DiagnosticSeverity::Warning, message: "w".to_string() },
            PluginDiagnostic { code: "X-2".to_string(), severity: DiagnosticSeverity::Error, message: "e".to_string() },
        ]),
    );
    assert_eq!(ds.len(), 2);
    assert_eq!(ds[0].message, "[acme] w");
    assert!(!ds[0].is_error());
    assert!(ds[1].is_error());
    let malformed = validate_reply("acme", &PluginReply::Malformed);
    assert_eq!(malformed[0].code, "PLUGIN-ERROR");
    assert_eq!(
        malformed[0].message,
        "supplement plugin 'acme' failed: validate returned malformed JSON (expected an array of diagnostics)"
    );
    let failed = validate_reply("acme", &PluginReply::Failed("trap".to_string()));
    assert_eq!(failed[0].message, "supplement plugin 'acme' failed: trap");
    assert_eq!(plugin_error("p", "x").message, "supplement plugin 'p' failed: x");
}

#[test]
fn risk_matrix_values() {
    assert_eq!(risk_matrix_value(Severity::Catastrophic, Likelihood::Frequent), 1);
    assert_eq!(risk_matrix_value(Severity::Catastrophic, Likelihood::Remote), 2);
    assert_eq!(risk_matrix_value(Severity::Critical, Likelihood::Improbable), 3);
    assert_eq!(risk_matrix_value(Severity::Negligible, Likelihood::Improbable), 4);
    assert_eq!(parse_severity("critical"), Some(Severity::Critical));
    assert_eq!(parse_severity("Critical"), None);
    assert_eq!(parse_likelihood("remote"), Some(Likelihood::Remote));
}

#[test]
fn risk_matrix_is_monotone_on_every_pair() {
    let sev = [Severity::Negligible, Severity::Marginal, Severity::Critical, Severity::Catastrophic];
    let like = [Likelihood::Improbable, Likelihood::Remote, Likelihood::Occasional, Likelihood::Probable, Likelihood::Frequent];
    for (i1, s1) in sev.iter().enumerate() {
        for (i2, s2) in sev.iter().enumerate() {
            for (j1, l1) in like.iter().enumerate() {
                for (j2, l2) in like.iter().enumerate() {
                    if i1 >= i2 && j1 >= j2 {
                        assert!(risk_matrix_value(*s1, *l1) <= risk_matrix_value(*s2, *l2));
                    }
                }
            }
        }
    }
}

#[test]
fn library_versions_must_share_a_major() {
    assert_eq!(major_version("1.2"), Some(1));
    assert_eq!(major_version(" 10+build "), Some(10));
    assert_eq!(major_version(""), None);
    assert!(check_version_compatible("std.events", "1.0", "1.3").is_ok());
    let e = check_version_compatible("std.events", "2.0", "1.0").unwrap_err();
    assert!(matches!(e, LibraryError::IncompatibleVersion { .. }));
    assert_eq!(
        e.message(),
        "library 'std.events': requested version '2.0' is incompatible with the resolved version '1.0' (major version must match)"
    );
    assert!(check_version_compatible("x", "abc", "abc").is_err());
}

#[test]
fn library_error_texts() {
    let cyclic = LibraryError::Cyclic { chain: vec!["a".to_string(), "b".to_string(), "a".to_string()] };
    assert_eq!(cyclic.message(), "cyclic library dependency: a -> b -> a");
    let nf = LibraryError::NotFound { name: "x".to_string(), searched: "nowhere".to_string() };
    assert_eq!(nf.message(), "library 'x' was not found (nowhere)");
}

#[test]
fn library_resolver_and_provenance() {
    assert_eq!(LibraryResolver::builtin_names(), vec!["std.events", "std.logic", "std.probability"]);
    let r = LibraryResolver::new().with_search_path("/opt/libs".to_string());
    assert_eq!(r.search_paths, vec!["/opt/libs".to_string()]);
    let p = LibraryProvenance::of("std.events", "1.0", LibraryKind::BuiltIn);
    assert_eq!(p.name, "std.events");
    assert_eq!(p.kind, LibraryKind::BuiltIn.label());
}

#[test]
fn supplements_and_identifiers() {
    assert_eq!(parse_supplement_major("1.2"), Some(1));
    assert!(supplement_is_supported("etdl.safety", &vec!["etdl.safety".to_string()]));
    assert!(!supplement_is_supported("etdl.unknown", &vec!["etdl.safety".to_string()]));
    assert!(is_rust_ident("handle_order"));
    assert!(!is_rust_ident("9lives"));
    assert!(!is_rust_ident(""));
    assert_eq!(fault_tree_id_from_pointer("#/faultTrees/FT1/basicEvents/A"), Some("FT1"));
    assert_eq!(fault_tree_id_from_pointer("#/eventTrees/T"), None);
}

#[test]
fn generated_files_keep_path_and_contents() {
    let f = GeneratedFile::new("order-fulfillment.rs", "fn main() {}");
    assert_eq!(f.relative_path, "order-fulfillment.rs");
    assert_eq!(f.contents, "fn main() {}");
}
