//! The scan driver: acquiring parsed manifests from the configured sources
//! and from the files discovered under the destination, and folding both
//! populations into the two aggregate maps.

use vstd::prelude::*;

use crate::aggregate::{
    dep_count, extended, lemma_extended_additive, lemma_extended_records, manifest_records,
    record_of, records_for, AggregateMap, AggregateMapView,
};
use crate::model::{
    DependencyInfoView, Match, MatchView, ParsedManifest, SyncConfig, VersionInfo,
    VersionInfoView,
};
use crate::parse::{manifest_deps_of, parse_manifest};
use crate::reconcile::{lemma_empty_target_no_matches, reconcile, reconciled};

verus! {

/// What the I/O layer handed back for one configured source: the body a
/// remote fetch produced (`None` when the path was no valid URI, or the
/// transfer failed), or the manifest files a local directory scan found.
pub enum SourceRetrieval {
    Remote { path: String, body: Option<Vec<u8>> },
    Local { files: Vec<(String, Vec<u8>)> },
}

/// The mathematical value of a `SourceRetrieval`.
pub enum SourceRetrievalView {
    Remote { path: Seq<char>, body: Option<Seq<u8>> },
    Local { files: Seq<(Seq<char>, Seq<u8>)> },
}

impl View for SourceRetrieval {
    type V = SourceRetrievalView;

    open spec fn view(&self) -> SourceRetrievalView {
        match self {
            SourceRetrieval::Remote { path, body } => SourceRetrievalView::Remote {
                path: path@,
                body: match body {
                    Some(b) => Some(b@),
                    None => None,
                },
            },
            SourceRetrieval::Local { files } => SourceRetrievalView::Local {
                files: files.deep_view(),
            },
        }
    }
}

impl DeepView for SourceRetrieval {
    type V = SourceRetrievalView;

    open spec fn deep_view(&self) -> SourceRetrievalView {
        self@
    }
}

/// The (origin path, dependency table) pairs that parsing yields from a list
/// of discovered files, in order; a file whose bytes do not parse is skipped.
pub open spec fn parsed_pairs(files: Seq<(Seq<char>, Seq<u8>)>) -> Seq<
    (Seq<char>, Seq<DependencyInfoView>),
>
    decreases files.len(),
{
    if files.len() == 0 {
        Seq::empty()
    } else {
        let rest = parsed_pairs(files.drop_last());
        match manifest_deps_of(files.last().1) {
            Some(deps) => rest.push((files.last().0, deps)),
            None => rest,
        }
    }
}

/// The pairs one source retrieval yields: a fetched remote body that parses
/// yields one pair under the configured path, an unreachable or unparsable
/// remote yields none, and a local scan yields the pairs of its files.
pub open spec fn source_yield(r: SourceRetrievalView) -> Seq<
    (Seq<char>, Seq<DependencyInfoView>),
> {
    match r {
        SourceRetrievalView::Remote { path, body } => match body {
            Some(b) => match manifest_deps_of(b) {
                Some(deps) => seq![(path, deps)],
                None => Seq::empty(),
            },
            None => Seq::empty(),
        },
        SourceRetrievalView::Local { files } => parsed_pairs(files),
    }
}

/// The pairs a whole retrieval list yields, one source at a time, in order.
pub open spec fn acquired_pairs(rs: Seq<SourceRetrievalView>) -> Seq<
    (Seq<char>, Seq<DependencyInfoView>),
>
    decreases rs.len(),
{
    if rs.len() == 0 {
        Seq::empty()
    } else {
        acquired_pairs(rs.drop_last()) + source_yield(rs.last())
    }
}

/// `m` after extracting every (origin, table) pair, in order.
pub open spec fn aggregated(
    m: AggregateMapView,
    pairs: Seq<(Seq<char>, Seq<DependencyInfoView>)>,
) -> AggregateMapView
    decreases pairs.len(),
{
    if pairs.len() == 0 {
        m
    } else {
        extended(aggregated(m, pairs.drop_last()), pairs.last().0, pairs.last().1)
    }
}

/// How many entries for `name` the manifests of `pairs` declare altogether.
pub open spec fn total_count(
    pairs: Seq<(Seq<char>, Seq<DependencyInfoView>)>,
    name: Seq<char>,
) -> nat
    decreases pairs.len(),
{
    if pairs.len() == 0 {
        0
    } else {
        total_count(pairs.drop_last(), name) + dep_count(pairs.last().1, name)
    }
}

/// Additivity over a whole scan: a name declared by `total_count(pairs,
/// name)` entries across the processed manifests ends up with exactly that
/// many records appended, the records already present staying in place.
pub proof fn lemma_aggregated_additive(
    m: AggregateMapView,
    pairs: Seq<(Seq<char>, Seq<DependencyInfoView>)>,
    name: Seq<char>,
)
    ensures
        records_for(aggregated(m, pairs), name).len() == records_for(m, name).len()
            + total_count(pairs, name),
        forall|k: int| 0 <= k < records_for(m, name).len() ==> records_for(
            aggregated(m, pairs),
            name,
        )[k] == records_for(m, name)[k],
    decreases pairs.len(),
{
    if pairs.len() == 0 {
    } else {
        lemma_aggregated_additive(m, pairs.drop_last(), name);
        lemma_extended_additive(
            aggregated(m, pairs.drop_last()),
            pairs.last().0,
            pairs.last().1,
            name,
        );
    }
}

/// The records that the manifests of `pairs` contribute for `name`, in
/// processing order.
pub open spec fn scan_records(
    pairs: Seq<(Seq<char>, Seq<DependencyInfoView>)>,
    name: Seq<char>,
) -> Seq<VersionInfoView>
    decreases pairs.len(),
{
    if pairs.len() == 0 {
        Seq::empty()
    } else {
        scan_records(pairs.drop_last(), name) + manifest_records(
            pairs.last().0,
            pairs.last().1,
            name,
        )
    }
}

/// Exactly what a whole scan does to one name's list: it appends, in
/// processing order, the records of every processed manifest's entries for
/// that name, each carrying its manifest's origin path.
pub proof fn lemma_aggregated_records(
    m: AggregateMapView,
    pairs: Seq<(Seq<char>, Seq<DependencyInfoView>)>,
    name: Seq<char>,
)
    ensures
        records_for(aggregated(m, pairs), name) == records_for(m, name) + scan_records(
            pairs,
            name,
        ),
    decreases pairs.len(),
{
    if pairs.len() == 0 {
        assert(records_for(m, name) + Seq::<VersionInfoView>::empty() =~= records_for(m, name));
    } else {
        lemma_aggregated_records(m, pairs.drop_last(), name);
        lemma_extended_records(
            aggregated(m, pairs.drop_last()),
            pairs.last().0,
            pairs.last().1,
            name,
        );
        assert((records_for(m, name) + scan_records(pairs.drop_last(), name)) + manifest_records(
            pairs.last().0,
            pairs.last().1,
            name,
        ) =~= records_for(m, name) + scan_records(pairs, name));
    }
}

/// Fault isolation: a retrieval that contributes nothing — an unreachable
/// remote, a remote whose body does not parse, or a local scan that found no
/// parsable file — can be dropped from the retrieval list without changing
/// the acquired pairs, and hence without changing the resulting map.
pub proof fn lemma_fault_isolation(rs: Seq<SourceRetrievalView>, i: int)
    requires
        0 <= i < rs.len(),
        source_yield(rs[i]) == Seq::<(Seq<char>, Seq<DependencyInfoView>)>::empty(),
    ensures
        acquired_pairs(rs.remove(i)) == acquired_pairs(rs),
    decreases rs.len(),
{
    if i == rs.len() - 1 {
        assert(rs.remove(i) =~= rs.drop_last());
        assert(acquired_pairs(rs) =~= acquired_pairs(rs.drop_last()));
    } else {
        assert(rs.remove(i).drop_last() =~= rs.drop_last().remove(i));
        assert(rs.remove(i).last() == rs.last());
        lemma_fault_isolation(rs.drop_last(), i);
    }
}

/// Empty-scan stability: zero discovered target files parse to zero pairs,
/// build the empty target-side map, and leave the reconciler nothing but the
/// empty match list to produce.
pub proof fn lemma_empty_scan(source: AggregateMapView, ms: Seq<MatchView>)
    requires
        reconciled(
            source,
            aggregated(AggregateMapView::empty(), parsed_pairs(Seq::empty())),
            ms,
        ),
    ensures
        parsed_pairs(Seq::empty()) == Seq::<(Seq<char>, Seq<DependencyInfoView>)>::empty(),
        aggregated(AggregateMapView::empty(), parsed_pairs(Seq::empty()))
            == AggregateMapView::empty(),
        ms == Seq::<MatchView>::empty(),
{
    lemma_empty_target_no_matches(source, ms);
}

/// The scan engine: the configuration it runs under and the two aggregate
/// maps a scan builds, source-side and target-side.
pub struct TomlSync {
    pub config: SyncConfig,
    pub source_versions: AggregateMap,
    pub target_versions: AggregateMap,
}

impl TomlSync {
    /// Both aggregate maps keep their keys unique.
    pub open spec fn wf(&self) -> bool {
        self.source_versions.wf() && self.target_versions.wf()
    }

    /// A fresh engine for `config`, both aggregate maps empty.
    pub fn new(config: SyncConfig) -> (r: TomlSync)
        ensures
            r.wf(),
            r.config == config,
            r.source_versions@ == AggregateMapView::empty(),
            r.target_versions@ == AggregateMapView::empty(),
    {
        TomlSync {
            config,
            source_versions: AggregateMap::new(),
            target_versions: AggregateMap::new(),
        }
    }

    /// Folds one manifest's dependency table into `map`: per entry, appends a
    /// record carrying `path` and the entry's explicit version — the empty
    /// string when it declares none. Strictly additive: nothing is
    /// overwritten or merged.
    pub fn extract_dependencies(map: &mut AggregateMap, path: String, manifest: &ParsedManifest)
        requires
            old(map).wf(),
        ensures
            final(map).wf(),
            final(map)@ == extended(old(map)@, path@, manifest@),
    {
        let n = manifest.dependencies.len();
        let mut i: usize = 0;
        while i < n
            invariant
                i <= n,
                n == manifest.dependencies@.len(),
                map.wf(),
                map@ == extended(old(map)@, path@, manifest@.take(i as int)),
            decreases n - i,
        {
            let dep = &manifest.dependencies[i];
            let version = match &dep.version {
                Some(v) => v.clone(),
                None => String::new(),
            };
            let rec = VersionInfo { path: path.clone(), version };
            proof {
                assert(rec@ == record_of(path@, manifest@[i as int]));
            }
            map.push_record(&dep.name, rec);
            proof {
                assert(manifest@.take(i as int + 1).drop_last() =~= manifest@.take(i as int));
                assert(manifest@.take(i as int + 1).last() == manifest@[i as int]);
            }
            i += 1;
        }
        proof {
            assert(manifest@.take(n as int) =~= manifest@);
        }
    }

    /// Parses every discovered `(path, bytes)` file into a `(path, manifest)`
    /// pair; a file whose bytes do not parse is skipped and does not abort
    /// the scan of its siblings.
    pub fn load_tomls(files: &Vec<(String, Vec<u8>)>) -> (r: Vec<(String, ParsedManifest)>)
        ensures
            r.deep_view() == parsed_pairs(files.deep_view()),
    {
        let ghost fv = files.deep_view();
        let mut out: Vec<(String, ParsedManifest)> = Vec::new();
        let n = files.len();
        let mut i: usize = 0;
        while i < n
            invariant
                i <= n,
                n == files@.len(),
                fv == files.deep_view(),
                out.deep_view() == parsed_pairs(fv.take(i as int)),
            decreases n - i,
        {
            let ghost pre = out.deep_view();
            let pair = &files[i];
            proof {
                assert(fv.take(i as int + 1).drop_last() =~= fv.take(i as int));
                assert(fv.take(i as int + 1).last() == fv[i as int]);
                assert(fv[i as int].1 =~= pair.1@);
                assert(fv[i as int].0 == pair.0@);
            }
            let parsed = parse_manifest(&pair.1);
            match parsed {
                Some(manifest) => {
                    let ghost mview = manifest@;
                    out.push((pair.0.clone(), manifest));
                    proof {
                        assert(out.deep_view() =~= pre.push((pair.0@, mview)));
                    }
                }
                None => {}
            }
            i += 1;
        }
        proof {
            assert(fv.take(n as int) =~= fv);
        }
        out
    }

    /// Walks the sources' retrievals in order: a fetched remote body that
    /// parses contributes one pair under the configured path; an unreachable
    /// remote, like an unparsable body, contributes nothing; a local
    /// directory contributes every file of its scan that parses. No failure
    /// aborts the walk.
    pub fn load_source_tomls(retrievals: &Vec<SourceRetrieval>) -> (r: Vec<
        (String, ParsedManifest),
    >)
        ensures
            r.deep_view() == acquired_pairs(retrievals.deep_view()),
    {
        let ghost rv = retrievals.deep_view();
        let mut out: Vec<(String, ParsedManifest)> = Vec::new();
        let n = retrievals.len();
        let mut i: usize = 0;
        while i < n
            invariant
                i <= n,
                n == retrievals@.len(),
                rv == retrievals.deep_view(),
                out.deep_view() == acquired_pairs(rv.take(i as int)),
            decreases n - i,
        {
            let ghost pre = out.deep_view();
            proof {
                assert(rv.take(i as int + 1).drop_last() =~= rv.take(i as int));
                assert(rv.take(i as int + 1).last() == rv[i as int]);
                assert(rv[i as int] == retrievals@[i as int]@);
            }
            match &retrievals[i] {
                SourceRetrieval::Remote { path, body } => {
                    match body {
                        Some(bytes) => {
                            let parsed = parse_manifest(bytes);
                            match parsed {
                                Some(manifest) => {
                                    let ghost mview = manifest@;
                                    out.push((path.clone(), manifest));
                                    proof {
                                        assert(out.deep_view() =~= pre.push((path@, mview)));
                                        assert(source_yield(rv[i as int]) =~= Seq::empty().push(
                                            (path@, mview),
                                        ));
                                        assert(out.deep_view() =~= pre + source_yield(
                                            rv[i as int],
                                        ));
                                    }
                                }
                                None => {
                                    proof {
                                        assert(out.deep_view() =~= pre + source_yield(
                                            rv[i as int],
                                        ));
                                    }
                                }
                            }
                        }
                        None => {
                            proof {
                                assert(out.deep_view() =~= pre + source_yield(rv[i as int]));
                            }
                        }
                    }
                }
                SourceRetrieval::Local { files } => {
                    let mut scanned = Self::load_tomls(files);
                    out.append(&mut scanned);
                    proof {
                        assert(out.deep_view() =~= pre + source_yield(rv[i as int]));
                    }
                }
            }
            i += 1;
        }
        proof {
            assert(rv.take(n as int) =~= rv);
        }
        out
    }

    fn fold_into(map: &mut AggregateMap, manifests: Vec<(String, ParsedManifest)>)
        requires
            old(map).wf(),
        ensures
            final(map).wf(),
            final(map)@ == aggregated(old(map)@, manifests.deep_view()),
    {
        let ghost mv = manifests.deep_view();
        let n = manifests.len();
        let mut i: usize = 0;
        while i < n
            invariant
                i <= n,
                n == manifests@.len(),
                mv == manifests.deep_view(),
                map.wf(),
                map@ == aggregated(old(map)@, mv.take(i as int)),
            decreases n - i,
        {
            let pair = &manifests[i];
            Self::extract_dependencies(map, pair.0.clone(), &pair.1);
            proof {
                assert(mv.take(i as int + 1).drop_last() =~= mv.take(i as int));
                assert(mv.take(i as int + 1).last() == mv[i as int]);
                assert(mv[i as int].0 == pair.0@);
                assert(mv[i as int].1 == pair.1@);
            }
            i += 1;
        }
        proof {
            assert(mv.take(n as int) =~= mv);
        }
    }

    /// Runs one scan over what the I/O layer retrieved: folds the source-side
    /// retrievals and the discovered target files into the source-side and
    /// target-side aggregate maps, one manifest at a time.
    pub fn scan(
        &mut self,
        retrievals: &Vec<SourceRetrieval>,
        target_files: &Vec<(String, Vec<u8>)>,
    )
        requires
            old(self).wf(),
        ensures
            final(self).wf(),
            final(self).config == old(self).config,
            final(self).source_versions@ == aggregated(
                old(self).source_versions@,
                acquired_pairs(retrievals.deep_view()),
            ),
            final(self).target_versions@ == aggregated(
                old(self).target_versions@,
                parsed_pairs(target_files.deep_view()),
            ),
    {
        let source_manifests = Self::load_source_tomls(retrievals);
        let target_manifests = Self::load_tomls(target_files);
        Self::fold_into(&mut self.source_versions, source_manifests);
        Self::fold_into(&mut self.target_versions, target_manifests);
    }

    /// The reconciliation of the two sides: one `Match` per dependency name
    /// present in both aggregate maps, record lists verbatim, verdict per the
    /// asymmetric version-set rule.
    pub fn intersects(&self) -> (r: Vec<Match>)
        requires
            self.wf(),
        ensures
            reconciled(self.source_versions@, self.target_versions@, r.deep_view()),
    {
        reconcile(&self.source_versions, &self.target_versions)
    }
}

} // verus!

