//! Reconciles dependency version declarations across two populations of
//! manifest files: a configured list of sources and the manifests discovered
//! under a destination directory.

mod aggregate;
mod model;
mod parse;
mod reconcile;
mod sync;

pub use aggregate::{
    dep_count, extended, implicit_version, lemma_extended_additive, lemma_extended_records,
    lemma_implicit_version_record, lemma_with_record_appends, manifest_records, record_of,
    records_for, with_record, AggregateMap, AggregateMapView,
};
pub use model::{
    DependencyInfo, DependencyInfoView, Match, MatchView, ParsedManifest, Source, SourceType,
    SyncConfig, VersionInfo, VersionInfoView,
};
pub use parse::manifest_deps_of;
pub use reconcile::{
    get_versions, has_match_for, lemma_empty_target_no_matches, lemma_reconcile_domain,
    lemma_vacuous_match, lemma_version_set_member, match_ok, reconcile, reconciled, version_set,
    versions_equal, versions_match, versions_of,
};
pub use sync::{
    acquired_pairs, aggregated, lemma_aggregated_additive, lemma_aggregated_records,
    lemma_empty_scan, lemma_fault_isolation, parsed_pairs, scan_records, source_yield,
    total_count, SourceRetrieval, SourceRetrievalView, TomlSync,
};
