//! Tests of the scan pipeline end to end, with manifest bytes going through
//! the real parser.

use toml_sync::{
    Source, SourceRetrieval, SourceType, SyncConfig, TomlSync,
};

fn config() -> SyncConfig {
    SyncConfig {
        sources: vec![Source {
            path: "https://example.invalid/Cargo.toml".to_owned(),
            source_type: SourceType::Remote,
        }],
        destination: "./target-root".to_owned(),
    }
}

fn file(path: &str, bytes: &str) -> (String, Vec<u8>) {
    (path.to_owned(), bytes.as_bytes().to_vec())
}

/// The observable content of an aggregate map, for comparing two scans.
fn snapshot(map: &toml_sync::AggregateMap) -> Vec<(String, Vec<(String, String)>)> {
    let mut out = Vec::new();
    let mut i: usize = 0;
    while i < map.len() {
        let key = map.key_at(i).clone();
        let records = map
            .get(&key)
            .expect("listed key must be present")
            .iter()
            .map(|r| (r.path.clone(), r.version.clone()))
            .collect::<Vec<(String, String)>>();
        out.push((key, records));
        i += 1;
    }
    out
}

#[test]
fn end_to_end_scenario() {
    let mut sync = TomlSync::new(config());
    let retrievals = vec![SourceRetrieval::Remote {
        path: "https://example.invalid/Cargo.toml".to_owned(),
        body: Some(
            "[dependencies]\nlibfoo = { version = \"1.2.0\" }\n".as_bytes().to_vec(),
        ),
    }];
    let target_files = vec![
        file("a/Cargo.toml", "[dependencies]\nlibfoo = { version = \"1.2.0\" }\n"),
        file("b/Cargo.toml", "[dependencies]\nlibfoo = { version = \"1.3.0\" }\n"),
    ];
    sync.scan(&retrievals, &target_files);

    let matches = sync.intersects();
    assert_eq!(matches.len(), 1);
    let m = &matches[0];
    assert_eq!(m.dependency, "libfoo");
    assert_eq!(m.targets.len(), 2);
    assert_eq!(m.sources.len(), 1);
    let mut target_versions = m.targets.iter().map(|r| r.version.clone()).collect::<Vec<String>>();
    target_versions.sort();
    assert_eq!(target_versions, vec!["1.2.0".to_owned(), "1.3.0".to_owned()]);
    assert_eq!(m.sources[0].version, "1.2.0");
    assert_eq!(m.sources[0].path, "https://example.invalid/Cargo.toml");
    assert!(!m.are_equal, "1.3.0 is absent from the source side");
}

#[test]
fn fault_isolation_across_local_sources() {
    let good_one = file("one/Cargo.toml", "[dependencies]\nserde = { version = \"1.0\" }\n");
    let good_two = file("two/Cargo.toml", "[dependencies]\nlog = { version = \"0.4\" }\n");

    // One of three configured local sources points to a path that does not
    // exist: its directory scan finds no files at all.
    let mut with_fault = TomlSync::new(config());
    with_fault.scan(
        &vec![
            SourceRetrieval::Local { files: vec![good_one.clone()] },
            SourceRetrieval::Local { files: vec![] },
            SourceRetrieval::Local { files: vec![good_two.clone()] },
        ],
        &vec![],
    );

    let mut without_fault = TomlSync::new(config());
    without_fault.scan(
        &vec![
            SourceRetrieval::Local { files: vec![good_one] },
            SourceRetrieval::Local { files: vec![good_two] },
        ],
        &vec![],
    );

    assert_eq!(
        snapshot(&with_fault.source_versions),
        snapshot(&without_fault.source_versions)
    );
    assert_eq!(snapshot(&with_fault.source_versions).len(), 2);
}

#[test]
fn unreachable_remote_contributes_nothing() {
    let mut sync = TomlSync::new(config());
    sync.scan(
        &vec![
            SourceRetrieval::Remote {
                path: "not a uri at all".to_owned(),
                body: None,
            },
            SourceRetrieval::Remote {
                path: "https://example.invalid/Cargo.toml".to_owned(),
                body: Some("[dependencies]\nserde = \"1.0\"\n".as_bytes().to_vec()),
            },
        ],
        &vec![],
    );
    assert_eq!(sync.source_versions.len(), 1);
    assert!(sync.source_versions.get(&"serde".to_owned()).is_some());
}

#[test]
fn unparsable_bytes_are_skipped_not_fatal() {
    let mut sync = TomlSync::new(config());
    sync.scan(
        &vec![SourceRetrieval::Remote {
            path: "https://example.invalid/Cargo.toml".to_owned(),
            body: Some(b"<html>not a manifest</html>".to_vec()),
        }],
        &vec![
            file("broken/Cargo.toml", "[dependencies\nserde = \"1.0\"\n"),
            file("fine/Cargo.toml", "[dependencies]\nserde = { version = \"1.0\" }\n"),
        ],
    );
    assert_eq!(sync.source_versions.len(), 0);
    assert_eq!(sync.target_versions.len(), 1);
    let records = sync.target_versions.get(&"serde".to_owned()).expect("parsable file counts");
    assert_eq!(records.len(), 1);
    assert_eq!(records[0].path, "fine/Cargo.toml");
}

#[test]
fn load_tomls_keeps_only_parsable_files() {
    let files = vec![
        file("one/Cargo.toml", "[dependencies]\nserde = { version = \"1.0\" }\n"),
        ("two/Cargo.toml".to_owned(), vec![0xff, 0xfe, 0x00]),
        file("three/Cargo.toml", "[dependencies]\nlog = { version = \"0.4\" }\n"),
    ];
    let pairs = TomlSync::load_tomls(&files);
    assert_eq!(pairs.len(), 2);
    assert_eq!(pairs[0].0, "one/Cargo.toml");
    assert_eq!(pairs[0].1.dependencies.len(), 1);
    assert_eq!(pairs[0].1.dependencies[0].name, "serde");
    assert_eq!(pairs[0].1.dependencies[0].version, Some("1.0".to_owned()));
    assert_eq!(pairs[1].0, "three/Cargo.toml");
}

#[test]
fn empty_scan_is_stable() {
    let mut sync = TomlSync::new(config());
    sync.scan(&vec![], &vec![]);
    assert_eq!(sync.target_versions.len(), 0);
    assert_eq!(sync.source_versions.len(), 0);
    let matches = sync.intersects();
    assert_eq!(matches.len(), 0);
}

#[test]
fn bare_version_shorthand_has_no_explicit_version() {
    // A bare `name = "1.0"` entry carries no explicit `version` field in the
    // parsed dependency table; it is recorded with the empty version string,
    // exactly like a path-pinned entry.
    let mut sync = TomlSync::new(config());
    sync.scan(
        &vec![],
        &vec![file(
            "t/Cargo.toml",
            "[dependencies]\nbare = \"1.0\"\npinned = { path = \"../pinned\" }\nexplicit = { version = \"2.0\" }\n",
        )],
    );
    let bare = sync.target_versions.get(&"bare".to_owned()).expect("bare entry present");
    assert_eq!(bare[0].version, "");
    let pinned = sync.target_versions.get(&"pinned".to_owned()).expect("pinned entry present");
    assert_eq!(pinned[0].version, "");
    let explicit = sync.target_versions.get(&"explicit".to_owned()).expect("explicit entry present");
    assert_eq!(explicit[0].version, "2.0");
}

#[test]
fn source_path_recorded_is_the_configured_one() {
    let mut sync = TomlSync::new(config());
    sync.scan(
        &vec![SourceRetrieval::Remote {
            path: "https://example.invalid/frame/Cargo.toml".to_owned(),
            body: Some("[dependencies]\nlibbar = { version = \"0.3\" }\n".as_bytes().to_vec()),
        }],
        &vec![],
    );
    let records = sync.source_versions.get(&"libbar".to_owned()).expect("libbar present");
    assert_eq!(records[0].path, "https://example.invalid/frame/Cargo.toml");
    assert_eq!(records[0].version, "0.3");
}
