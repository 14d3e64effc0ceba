//! Parsing manifest bytes into the dependency table this core works on.

use vstd::prelude::*;

use crate::model::{DependencyInfo, DependencyInfoView, ParsedManifest};

verus! {

/// The dependency table that the manifest grammar assigns to these bytes:
/// `None` when the bytes are not a well-formed manifest document, otherwise
/// the table's entries in the order the parser hands them out. The result is
/// a function of the bytes alone.
pub uninterp spec fn manifest_deps_of(bytes: Seq<u8>) -> Option<Seq<DependencyInfoView>>;

/// Relies on `cargo_toml::Manifest::from_slice`: whether bytes parse as a
/// manifest, and the dependency table obtained on success, depend on the
/// bytes alone. Each table entry is reduced to its name and its explicit
/// `version` field; `Dependency::detail` is `None` exactly on the entries
/// that carry no such field (bare version strings and inherited entries).
#[verifier::external_body]
pub(crate) fn parse_manifest(bytes: &Vec<u8>) -> (r: Option<ParsedManifest>)
    ensures
        r is Some <==> manifest_deps_of(bytes@) is Some,
        r is Some ==> r.unwrap()@ == manifest_deps_of(bytes@).unwrap(),
{
    match cargo_toml::Manifest::from_slice(bytes) {
        Ok(manifest) => {
            let mut dependencies: Vec<DependencyInfo> = Vec::new();
            for (name, dependency) in manifest.dependencies {
                let version = dependency.detail().and_then(|d| d.version.clone());
                dependencies.push(DependencyInfo { name, version });
            }
            Some(ParsedManifest { dependencies })
        }
        Err(_) => None,
    }
}

} // verus!
