//! The data model: sources, version records, parsed manifests, and
//! reconciliation matches, together with their mathematical views.

use vstd::prelude::*;

verus! {

/// How a configured source is reached: over HTTPS, or by scanning a local
/// directory.
#[derive(Clone, Copy, PartialEq, Eq, Structural)]
pub enum SourceType {
    Remote,
    Local,
}

/// One configured origin of source-side manifests.
pub struct Source {
    pub path: String,
    pub source_type: SourceType,
}

/// The configuration the scan runs under: an ordered list of sources and the
/// destination directory whose manifests make up the target side.
pub struct SyncConfig {
    pub sources: Vec<Source>,
    pub destination: String,
}

/// A version record extracted from one dependency entry of one manifest:
/// the origin path of the manifest and the declared version string.
///
/// A dependency declared without an explicit version constraint is recorded
/// with the empty string as its version; that is a valid state, not a
/// missing value.
pub struct VersionInfo {
    pub path: String,
    pub version: String,
}

/// The mathematical value of a `VersionInfo`.
pub struct VersionInfoView {
    pub path: Seq<char>,
    pub version: Seq<char>,
}

impl View for VersionInfo {
    type V = VersionInfoView;

    open spec fn view(&self) -> VersionInfoView {
        VersionInfoView { path: self.path@, version: self.version@ }
    }
}

impl DeepView for VersionInfo {
    type V = VersionInfoView;

    open spec fn deep_view(&self) -> VersionInfoView {
        self@
    }
}

impl VersionInfo {
    /// An explicit copy; `path` and `version` are carried over unchanged.
    pub fn duplicate(&self) -> (r: VersionInfo)
        ensures
            r == *self,
    {
        VersionInfo { path: self.path.clone(), version: self.version.clone() }
    }
}

/// One named entry of a manifest's dependency table: the dependency name and
/// the explicit version constraint, if the entry carries one.
pub struct DependencyInfo {
    pub name: String,
    pub version: Option<String>,
}

/// The mathematical value of a `DependencyInfo`.
pub struct DependencyInfoView {
    pub name: Seq<char>,
    pub version: Option<Seq<char>>,
}

impl View for DependencyInfo {
    type V = DependencyInfoView;

    open spec fn view(&self) -> DependencyInfoView {
        DependencyInfoView { name: self.name@, version: self.version.deep_view() }
    }
}

impl DeepView for DependencyInfo {
    type V = DependencyInfoView;

    open spec fn deep_view(&self) -> DependencyInfoView {
        self@
    }
}

/// A manifest reduced to its dependency table, in the order the table is
/// walked: everything this core reads of a manifest file.
pub struct ParsedManifest {
    pub dependencies: Vec<DependencyInfo>,
}

impl View for ParsedManifest {
    type V = Seq<DependencyInfoView>;

    open spec fn view(&self) -> Seq<DependencyInfoView> {
        self.dependencies.deep_view()
    }
}

impl DeepView for ParsedManifest {
    type V = Seq<DependencyInfoView>;

    open spec fn deep_view(&self) -> Seq<DependencyInfoView> {
        self@
    }
}

/// The reconciliation result for one dependency name present on both scan
/// sides: both record lists verbatim, and the equality verdict.
pub struct Match {
    pub dependency: String,
    pub targets: Vec<VersionInfo>,
    pub sources: Vec<VersionInfo>,
    pub are_equal: bool,
}

/// The mathematical value of a `Match`.
pub struct MatchView {
    pub dependency: Seq<char>,
    pub targets: Seq<VersionInfoView>,
    pub sources: Seq<VersionInfoView>,
    pub are_equal: bool,
}

impl View for Match {
    type V = MatchView;

    open spec fn view(&self) -> MatchView {
        MatchView {
            dependency: self.dependency@,
            targets: self.targets.deep_view(),
            sources: self.sources.deep_view(),
            are_equal: self.are_equal,
        }
    }
}

impl DeepView for Match {
    type V = MatchView;

    open spec fn deep_view(&self) -> MatchView {
        self@
    }
}

} // verus!
