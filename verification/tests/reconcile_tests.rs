//! Tests of extraction and reconciliation on values built directly.

use toml_sync::{
    get_versions, reconcile, versions_equal, AggregateMap, DependencyInfo, ParsedManifest,
    TomlSync, VersionInfo,
};

fn rec(path: &str, version: &str) -> VersionInfo {
    VersionInfo { path: path.to_owned(), version: version.to_owned() }
}

fn dep(name: &str, version: Option<&str>) -> DependencyInfo {
    DependencyInfo { name: name.to_owned(), version: version.map(|v| v.to_owned()) }
}

fn manifest(deps: Vec<DependencyInfo>) -> ParsedManifest {
    ParsedManifest { dependencies: deps }
}

fn map_of(manifests: Vec<(&str, ParsedManifest)>) -> AggregateMap {
    let mut map = AggregateMap::new();
    for (path, m) in manifests {
        TomlSync::extract_dependencies(&mut map, path.to_owned(), &m);
    }
    map
}

#[test]
fn additivity_one_name_many_manifests() {
    let map = map_of(vec![
        ("m1", manifest(vec![dep("serde", Some("1.0"))])),
        ("m2", manifest(vec![dep("serde", Some("1.0")), dep("log", Some("0.4"))])),
        ("m3", manifest(vec![dep("serde", Some("2.0"))])),
    ]);
    let records = map.get(&"serde".to_owned()).expect("serde must be a key");
    assert_eq!(records.len(), 3);
    assert_eq!(records[0].path, "m1");
    assert_eq!(records[1].path, "m2");
    assert_eq!(records[2].path, "m3");
    assert_eq!(records[0].version, "1.0");
    assert_eq!(records[2].version, "2.0");
    let log_records = map.get(&"log".to_owned()).expect("log must be a key");
    assert_eq!(log_records.len(), 1);
}

#[test]
fn additivity_never_merges_duplicates() {
    let map = map_of(vec![
        ("a", manifest(vec![dep("x", Some("1.0"))])),
        ("b", manifest(vec![dep("x", Some("1.0"))])),
    ]);
    let records = map.get(&"x".to_owned()).expect("x must be a key");
    assert_eq!(records.len(), 2, "equal versions still yield one record per manifest");
}

#[test]
fn implicit_version_is_empty_string() {
    let map = map_of(vec![("m", manifest(vec![dep("local-dep", None)]))]);
    let records = map.get(&"local-dep".to_owned()).expect("entry must not be omitted");
    assert_eq!(records.len(), 1);
    assert_eq!(records[0].version, "");
}

#[test]
fn reconcile_domain_is_key_intersection() {
    let source = map_of(vec![(
        "s",
        manifest(vec![dep("a", Some("1")), dep("b", Some("1"))]),
    )]);
    let target = map_of(vec![(
        "t",
        manifest(vec![dep("b", Some("1")), dep("c", Some("1"))]),
    )]);
    let matches = reconcile(&source, &target);
    assert_eq!(matches.len(), 1);
    assert_eq!(matches[0].dependency, "b");
    assert_eq!(matches[0].targets.len(), 1);
    assert_eq!(matches[0].sources.len(), 1);
}

#[test]
fn reconcile_empty_sides_produce_nothing() {
    let empty = AggregateMap::new();
    let filled = map_of(vec![("m", manifest(vec![dep("a", Some("1"))]))]);
    assert_eq!(reconcile(&empty, &filled).len(), 0);
    assert_eq!(reconcile(&filled, &empty).len(), 0);
    assert_eq!(reconcile(&empty, &empty).len(), 0);
}

#[test]
fn equality_target_subset_of_source() {
    let targets = vec![rec("t1", "1.0"), rec("t2", "1.0")];
    let sources = vec![rec("s1", "1.0"), rec("s2", "2.0")];
    assert!(versions_equal(&targets, &sources));
}

#[test]
fn equality_fails_on_version_absent_from_source() {
    let targets = vec![rec("t1", "1.0"), rec("t2", "3.0")];
    let sources = vec![rec("s1", "1.0")];
    assert!(!versions_equal(&targets, &sources));
}

#[test]
fn equality_vacuous_for_empty_target_records() {
    let no_targets: Vec<VersionInfo> = vec![];
    assert!(versions_equal(&no_targets, &vec![rec("s", "9.9")]));
    assert!(versions_equal(&no_targets, &vec![]));
}

#[test]
fn equality_is_asymmetric() {
    let one = vec![rec("p", "1.0")];
    let two = vec![rec("q", "1.0"), rec("q", "2.0")];
    assert!(versions_equal(&one, &two));
    assert!(!versions_equal(&two, &one));
}

#[test]
fn equality_verdict_lands_in_match() {
    let source = map_of(vec![("s", manifest(vec![dep("a", Some("1")), dep("b", Some("1"))]))]);
    let target = map_of(vec![(
        "t",
        manifest(vec![dep("a", Some("1")), dep("b", Some("2"))]),
    )]);
    let matches = reconcile(&source, &target);
    assert_eq!(matches.len(), 2);
    for m in &matches {
        if m.dependency == "a" {
            assert!(m.are_equal);
        } else {
            assert_eq!(m.dependency, "b");
            assert!(!m.are_equal);
        }
    }
}

#[test]
fn empty_version_participates_in_comparison() {
    let targets = vec![rec("t", "")];
    assert!(versions_equal(&targets, &vec![rec("s", "")]));
    assert!(!versions_equal(&targets, &vec![rec("s", "1.0")]));
}

#[test]
fn contains_key_tracks_extraction() {
    let map = map_of(vec![("m", manifest(vec![dep("present", Some("1"))]))]);
    assert!(map.contains_key(&"present".to_owned()));
    assert!(!map.contains_key(&"absent".to_owned()));
}

#[test]
fn get_versions_deduplicates() {
    let records = vec![rec("a", "1"), rec("b", "1"), rec("c", "2")];
    let versions = get_versions(&records);
    assert_eq!(versions.len(), 2);
    assert!(versions.contains(&"1".to_owned()));
    assert!(versions.contains(&"2".to_owned()));
}

#[test]
fn get_versions_of_nothing_is_empty() {
    let versions = get_versions(&vec![]);
    assert_eq!(versions.len(), 0);
}
