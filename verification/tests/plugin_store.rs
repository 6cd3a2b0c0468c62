use etdl_compiler::plugin_store::{
    install_entry, plugin_file_name, plugin_source, remove_entry, PluginManifestEntry, PluginSource,
};

fn entry(id: &str, version: &str) -> PluginManifestEntry {
    PluginManifestEntry {
        id: id.to_string(),
        version: version.to_string(),
        source: format!("./{id}.wasm"),
        file: plugin_file_name(id),
        installed_at: "t0".to_string(),
    }
}

fn ids(es: &[PluginManifestEntry]) -> Vec<(String, String)> {
    es.iter().map(|e| (e.id.clone(), e.version.clone())).collect()
}

fn pair(id: &str, version: &str) -> (String, String) {
    (id.to_string(), version.to_string())
}

#[test]
fn plugin_file_name_replaces_path_separators() {
    assert_eq!(plugin_file_name("acme/etdl:risk\\x"), "acme_etdl_risk_x.wasm");
    assert_eq!(plugin_file_name("etdl.custom"), "etdl.custom.wasm");
    assert_eq!(plugin_file_name(""), ".wasm");
}

#[test]
fn https_sources_are_downloaded_and_other_sources_read_from_disk() {
    assert_eq!(plugin_source("https://example.org/p.wasm"), Ok(PluginSource::Https));
    assert_eq!(plugin_source("./plugins/p.wasm"), Ok(PluginSource::LocalFile));
    assert_eq!(plugin_source("httpsish"), Ok(PluginSource::LocalFile));
}

#[test]
fn plain_http_sources_are_refused() {
    let err = plugin_source("http://example.org/p.wasm").unwrap_err();
    assert_eq!(
        err,
        "only https:// URLs are accepted (a supplement plugin is executable code; fetching it over plain http is not supported)"
    );
}

#[test]
fn installing_replaces_an_earlier_entry_and_appends() {
    let mut es = vec![entry("a", "1"), entry("b", "1"), entry("c", "1")];
    install_entry(&mut es, entry("b", "2"));
    assert_eq!(ids(&es), vec![pair("a", "1"), pair("c", "1"), pair("b", "2")]);
    install_entry(&mut es, entry("d", "1"));
    assert_eq!(ids(&es), vec![pair("a", "1"), pair("c", "1"), pair("b", "2"), pair("d", "1")]);
}

#[test]
fn removing_returns_the_entry_and_keeps_the_rest() {
    let mut es = vec![entry("a", "1"), entry("b", "1"), entry("c", "1")];
    let removed = remove_entry(&mut es, "b").expect("installed");
    assert_eq!(removed.id, "b");
    assert_eq!(removed.file, "b.wasm");
    assert_eq!(ids(&es), vec![pair("a", "1"), pair("c", "1")]);
}

#[test]
fn removing_a_plugin_that_is_not_installed_fails_and_changes_nothing() {
    let mut es = vec![entry("a", "1")];
    let err = remove_entry(&mut es, "zzz").unwrap_err();
    assert_eq!(err, "no installed plugin with id 'zzz'");
    assert_eq!(ids(&es), vec![pair("a", "1")]);
}

#[test]
fn remove_after_install_gives_back_the_other_plugins() {
    let before = vec![entry("a", "1"), entry("x", "1"), entry("b", "1")];
    let mut es = before.clone();
    install_entry(&mut es, entry("x", "2"));
    let removed = remove_entry(&mut es, "x").expect("just installed");
    assert_eq!(removed.version, "2");
    assert_eq!(ids(&es), vec![pair("a", "1"), pair("b", "1")]);
}

#[test]
fn installing_twice_is_installing_once() {
    let mut once = vec![entry("a", "1"), entry("b", "1")];
    install_entry(&mut once, entry("a", "3"));
    let mut twice = once.clone();
    install_entry(&mut twice, entry("a", "3"));
    assert_eq!(ids(&once), ids(&twice));
}
