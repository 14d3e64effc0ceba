//! The reconciler: for each dependency name present on both scan sides, both
//! record lists verbatim and the equality verdict.

use vstd::prelude::*;

use crate::aggregate::{AggregateMap, AggregateMapView};
use crate::model::{Match, MatchView, VersionInfo, VersionInfoView};

verus! {

/// The version strings of `records`, in order, duplicates kept.
pub open spec fn versions_of(records: Seq<VersionInfoView>) -> Seq<Seq<char>> {
    records.map_values(|r: VersionInfoView| r.version)
}

/// The set of distinct version strings among `records`.
pub open spec fn version_set(records: Seq<VersionInfoView>) -> Set<Seq<char>> {
    versions_of(records).to_set()
}

/// The verdict for one dependency: every version the target side declares
/// also appears somewhere in the source declarations. Deliberately
/// asymmetric: versions only the source side declares never count against
/// the verdict, while a single target version absent from the source side
/// decides against it.
pub open spec fn versions_match(
    targets: Seq<VersionInfoView>,
    sources: Seq<VersionInfoView>,
) -> bool {
    version_set(targets).subset_of(version_set(sources))
}

/// What one match states, relative to the source-side and target-side maps:
/// its dependency is a key of both, its record lists are both maps' lists
/// verbatim, and its verdict is `versions_match` of the two.
pub open spec fn match_ok(
    source: AggregateMapView,
    target: AggregateMapView,
    m: MatchView,
) -> bool {
    &&& source.dom().contains(m.dependency)
    &&& target.dom().contains(m.dependency)
    &&& m.targets == target[m.dependency]
    &&& m.sources == source[m.dependency]
    &&& m.are_equal == versions_match(m.targets, m.sources)
}

/// Whether `ms` holds a match for dependency name `d`.
pub open spec fn has_match_for(ms: Seq<MatchView>, d: Seq<char>) -> bool {
    exists|k: int| 0 <= k < ms.len() && (#[trigger] ms[k]).dependency == d
}

/// What the reconciler promises: every match well-formed, each dependency
/// name at most once, and a match present for every name the two maps share.
pub open spec fn reconciled(
    source: AggregateMapView,
    target: AggregateMapView,
    ms: Seq<MatchView>,
) -> bool {
    &&& forall|i: int| 0 <= i < ms.len() ==> match_ok(source, target, #[trigger] ms[i])
    &&& forall|i: int, j: int| 0 <= i < j < ms.len() ==> ms[i].dependency != ms[j].dependency
    &&& forall|d: Seq<char>|
        source.dom().contains(d) && #[trigger] target.dom().contains(d) ==> has_match_for(ms, d)
}

/// Whether one of the first `upto` entries of `names` is `d`.
spec fn name_among(names: Seq<Seq<char>>, upto: int, d: Seq<char>) -> bool {
    exists|j: int| 0 <= j < upto && (#[trigger] names[j]) == d
}

proof fn lemma_name_among_mono(names: Seq<Seq<char>>, a: int, b: int, d: Seq<char>)
    requires
        name_among(names, a, d),
        a <= b,
    ensures
        name_among(names, b, d),
{
    let j = choose|j: int| 0 <= j < a && (#[trigger] names[j]) == d;
    assert(names[j] == d);
}

proof fn lemma_has_match_push(ms: Seq<MatchView>, m: MatchView, d: Seq<char>)
    requires
        has_match_for(ms, d),
    ensures
        has_match_for(ms.push(m), d),
{
    let k = choose|k: int| 0 <= k < ms.len() && (#[trigger] ms[k]).dependency == d;
    assert(ms.push(m)[k].dependency == d);
}

/// A version string is in a record list's version set exactly when one of its
/// records declares it.
pub proof fn lemma_version_set_member(records: Seq<VersionInfoView>, v: Seq<char>)
    ensures
        version_set(records).contains(v) <==> exists|j: int|
            0 <= j < records.len() && (#[trigger] records[j]).version == v,
{
    if version_set(records).contains(v) {
        let j = choose|j: int|
            0 <= j < versions_of(records).len() && versions_of(records)[j] == v;
        assert(records[j].version == v);
    }
    if exists|j: int| 0 <= j < records.len() && (#[trigger] records[j]).version == v {
        let j = choose|j: int| 0 <= j < records.len() && (#[trigger] records[j]).version == v;
        assert(versions_of(records)[j] == v);
        assert(versions_of(records).contains(v));
    }
}

/// A match with no target records holds vacuously, whatever the source
/// records declare.
pub proof fn lemma_vacuous_match(sources: Seq<VersionInfoView>)
    ensures
        versions_match(Seq::empty(), sources),
{
    assert forall|v: Seq<char>| version_set(Seq::<VersionInfoView>::empty()).contains(
        v,
    ) implies version_set(sources).contains(v) by {
        lemma_version_set_member(Seq::empty(), v);
    }
}

/// Reconciliation domain: a match exists for dependency name `d` if and only
/// if `d` is a key of both the source-side and the target-side map.
pub proof fn lemma_reconcile_domain(
    source: AggregateMapView,
    target: AggregateMapView,
    ms: Seq<MatchView>,
    d: Seq<char>,
)
    requires
        reconciled(source, target, ms),
    ensures
        has_match_for(ms, d) <==> (source.dom().contains(d) && target.dom().contains(d)),
{
    if has_match_for(ms, d) {
        let i = choose|i: int| 0 <= i < ms.len() && (#[trigger] ms[i]).dependency == d;
        assert(match_ok(source, target, ms[i]));
    }
}

/// Empty-scan stability: with an empty target-side map the reconciler can
/// only have produced the empty match list.
pub proof fn lemma_empty_target_no_matches(source: AggregateMapView, ms: Seq<MatchView>)
    requires
        reconciled(source, Map::empty(), ms),
    ensures
        ms == Seq::<MatchView>::empty(),
{
    if ms.len() > 0 {
        assert(match_ok(source, Map::empty(), ms[0]));
    }
    assert(ms =~= Seq::<MatchView>::empty());
}

/// Whether some record of `records` declares exactly `version`.
fn has_version(records: &Vec<VersionInfo>, version: &String) -> (r: bool)
    ensures
        r == version_set(records.deep_view()).contains(version@),
{
    let n = records.len();
    let mut i: usize = 0;
    while i < n
        invariant
            i <= n,
            n == records@.len(),
            forall|j: int| 0 <= j < i ==> records.deep_view()[j].version != version@,
        decreases n - i,
    {
        if records[i].version == *version {
            proof {
                assert(records.deep_view()[i as int].version == version@);
                lemma_version_set_member(records.deep_view(), version@);
            }
            return true;
        }
        i += 1;
    }
    proof {
        lemma_version_set_member(records.deep_view(), version@);
    }
    false
}

/// Whether `list` already holds the string `s`.
fn contains_string(list: &Vec<String>, s: &String) -> (r: bool)
    ensures
        r == list.deep_view().contains(s@),
{
    let n = list.len();
    let mut i: usize = 0;
    while i < n
        invariant
            i <= n,
            n == list@.len(),
            forall|j: int| 0 <= j < i ==> list.deep_view()[j] != s@,
        decreases n - i,
    {
        if list[i] == *s {
            proof {
                assert(list.deep_view()[i as int] == s@);
            }
            return true;
        }
        i += 1;
    }
    false
}

/// The distinct version strings among `info`, in order of first occurrence:
/// exactly the version set of the records.
pub fn get_versions(info: &Vec<VersionInfo>) -> (r: Vec<String>)
    ensures
        r.deep_view().to_set() == version_set(info.deep_view()),
        forall|i: int, j: int| 0 <= i < j < r.deep_view().len() ==> r.deep_view()[i]
            != r.deep_view()[j],
{
    let ghost dv = info.deep_view();
    let mut versions: Vec<String> = Vec::new();
    let n = info.len();
    let mut i: usize = 0;
    while i < n
        invariant
            i <= n,
            n == info@.len(),
            dv == info.deep_view(),
            forall|v: Seq<char>| #[trigger] versions.deep_view().contains(v) <==> version_set(
                dv.take(i as int),
            ).contains(v),
            forall|k: int, l: int| 0 <= k < l < versions.deep_view().len() ==> versions.deep_view()[k]
                != versions.deep_view()[l],
        decreases n - i,
    {
        let ghost pre = versions.deep_view();
        proof {
            assert(forall|v: Seq<char>| #[trigger] pre.contains(v) <==> version_set(
                dv.take(i as int),
            ).contains(v));
        }
        let present = contains_string(&versions, &info[i].version);
        if !present {
            versions.push(info[i].version.clone());
            proof {
                assert(versions.deep_view() =~= pre.push(dv[i as int].version));
            }
        }
        proof {
            assert(dv.take(i as int + 1).drop_last() =~= dv.take(i as int));
            assert(dv.take(i as int + 1).last() == dv[i as int]);
            assert forall|v: Seq<char>| #[trigger] version_set(dv.take(i as int + 1)).contains(v)
                <==> (version_set(dv.take(i as int)).contains(v) || v == dv[i as int].version) by {
                lemma_version_set_member(dv.take(i as int + 1), v);
                lemma_version_set_member(dv.take(i as int), v);
                if exists|j: int|
                    0 <= j < dv.take(i as int).len() && (#[trigger] dv.take(i as int)[j]).version
                        == v {
                    let j = choose|j: int|
                        0 <= j < dv.take(i as int).len() && (#[trigger] dv.take(
                            i as int,
                        )[j]).version == v;
                    assert(dv.take(i as int + 1)[j].version == v);
                }
                if v == dv[i as int].version {
                    assert(dv.take(i as int + 1)[i as int].version == v);
                }
            }
            if present {
                assert(pre.contains(dv[i as int].version));
                assert forall|v: Seq<char>| #[trigger] versions.deep_view().contains(v) <==>
                    version_set(dv.take(i as int + 1)).contains(v) by {
                    assert(versions.deep_view() == pre);
                    if version_set(dv.take(i as int + 1)).contains(v) && v != dv[i as int].version {
                        assert(version_set(dv.take(i as int)).contains(v));
                        assert(pre.contains(v));
                    }
                }
            } else {
                assert forall|v: Seq<char>| #[trigger] versions.deep_view().contains(v) implies
                    version_set(dv.take(i as int + 1)).contains(v) by {
                    if pre.contains(v) {
                    } else {
                        let j = choose|j: int|
                            0 <= j < versions.deep_view().len() && versions.deep_view()[j] == v;
                        assert(v == dv[i as int].version);
                    }
                }
                assert forall|v: Seq<char>| version_set(dv.take(i as int + 1)).contains(v) implies
                    #[trigger] versions.deep_view().contains(v) by {
                    if v == dv[i as int].version {
                        assert(versions.deep_view().last() == v);
                        assert(versions.deep_view().contains(v));
                    } else {
                        assert(version_set(dv.take(i as int)).contains(v));
                        assert(pre.contains(v));
                        let j = choose|j: int| 0 <= j < pre.len() && pre[j] == v;
                        assert(versions.deep_view()[j] == v);
                    }
                }
                assert forall|k: int, l: int|
                    0 <= k < l < versions.deep_view().len() implies versions.deep_view()[k]
                    != versions.deep_view()[l] by {
                    if l == versions.deep_view().len() - 1 {
                        assert(versions.deep_view()[k] == pre[k]);
                        assert(pre.contains(pre[k]));
                        assert(pre[k] != dv[i as int].version);
                    }
                }
            }
        }
        i += 1;
    }
    proof {
        assert(dv.take(n as int) =~= dv);
        assert(versions.deep_view().to_set() =~= version_set(dv));
    }
    versions
}

/// Whether every version the target records declare also appears among the
/// source records: the reconciler's (asymmetric) equality verdict.
pub fn versions_equal(targets: &Vec<VersionInfo>, sources: &Vec<VersionInfo>) -> (r: bool)
    ensures
        r == versions_match(targets.deep_view(), sources.deep_view()),
{
    let ghost tv = targets.deep_view();
    let ghost sv = sources.deep_view();
    let n = targets.len();
    let mut i: usize = 0;
    while i < n
        invariant
            i <= n,
            n == targets@.len(),
            tv == targets.deep_view(),
            sv == sources.deep_view(),
            forall|k: int| 0 <= k < i ==> version_set(sv).contains(
                (#[trigger] tv[k]).version,
            ),
        decreases n - i,
    {
        if !has_version(sources, &targets[i].version) {
            proof {
                assert(tv[i as int].version == targets@[i as int].version@);
                lemma_version_set_member(tv, tv[i as int].version);
                assert(version_set(tv).contains(tv[i as int].version));
            }
            return false;
        }
        proof {
            assert(tv[i as int].version == targets@[i as int].version@);
        }
        i += 1;
    }
    proof {
        assert forall|v: Seq<char>| #[trigger] version_set(tv).contains(v) implies version_set(
            sv,
        ).contains(v) by {
            lemma_version_set_member(tv, v);
            let j = choose|j: int| 0 <= j < tv.len() && (#[trigger] tv[j]).version == v;
        }
    }
    true
}

/// An element-wise copy of a record list.
fn clone_records(records: &Vec<VersionInfo>) -> (r: Vec<VersionInfo>)
    ensures
        r@ == records@,
{
    let n = records.len();
    let mut out: Vec<VersionInfo> = Vec::new();
    let mut i: usize = 0;
    while i < n
        invariant
            i <= n,
            n == records@.len(),
            out@ == records@.take(i as int),
        decreases n - i,
    {
        out.push(records[i].duplicate());
        proof {
            assert(records@.take(i + 1 as int) =~= records@.take(i as int).push(
                records@[i as int],
            ));
        }
        i += 1;
    }
    proof {
        assert(records@.take(n as int) =~= records@);
    }
    out
}

/// Reconciles the two aggregate maps: one `Match` per dependency name present
/// in both, its record lists taken verbatim from the maps, its verdict the
/// asymmetric `versions_match`.
#[verifier::rlimit(60)]
pub fn reconcile(source: &AggregateMap, target: &AggregateMap) -> (r: Vec<Match>)
    requires
        source.wf(),
        target.wf(),
    ensures
        reconciled(source@, target@, r.deep_view()),
{
    let mut out: Vec<Match> = Vec::new();
    let n = target.len();
    let mut i: usize = 0;
    while i < n
        invariant
            i <= n,
            n == target.names().len(),
            source.wf(),
            target.wf(),
            forall|k: int| 0 <= k < out.deep_view().len() ==> match_ok(
                source@,
                target@,
                #[trigger] out.deep_view()[k],
            ),
            forall|k: int| 0 <= k < out.deep_view().len() ==> name_among(
                target.names(),
                i as int,
                (#[trigger] out.deep_view()[k]).dependency,
            ),
            forall|k: int, l: int| 0 <= k < l < out.deep_view().len() ==> out.deep_view()[k].dependency
                != out.deep_view()[l].dependency,
            forall|j: int|
                0 <= j < i && source@.dom().contains(#[trigger] target.names()[j])
                    ==> has_match_for(out.deep_view(), target.names()[j]),
        decreases n - i,
    {
        let ghost pre = out.deep_view();
        let key = target.key_at(i);
        let maybe_sources = source.get(key);
        match maybe_sources {
            Some(source_records) => {
                proof {
                    target.lemma_dom_names();
                    assert(target.names().contains(key@));
                }
                let maybe_targets = target.get(key);
                match maybe_targets {
                    Some(target_records) => {
                        let are_equal = versions_equal(target_records, source_records);
                        let m = Match {
                            dependency: key.clone(),
                            targets: clone_records(target_records),
                            sources: clone_records(source_records),
                            are_equal,
                        };
                        proof {
                            assert(m.targets.deep_view() =~= target_records.deep_view());
                            assert(m.sources.deep_view() =~= source_records.deep_view());
                            assert(match_ok(source@, target@, m@));
                        }
                        out.push(m);
                        proof {
                            assert(out.deep_view() =~= pre.push(m@));
                            let cur = out.deep_view();
                            let len = cur.len();
                            assert(cur[len - 1] == m@);
                            assert(m@.dependency == target.names()[i as int]);
                            assert(forall|k: int| 0 <= k < pre.len() ==> cur[k] == #[trigger] pre[k]);
                            target.lemma_wf_names_distinct();
                            assert forall|k: int| 0 <= k < cur.len() implies match_ok(
                                source@,
                                target@,
                                #[trigger] cur[k],
                            ) by {
                                if k < len - 1 {
                                    assert(cur[k] == pre[k]);
                                }
                            }
                            assert forall|k: int| 0 <= k < cur.len() implies name_among(
                                target.names(),
                                i as int + 1,
                                (#[trigger] cur[k]).dependency,
                            ) by {
                                if k == len - 1 {
                                    assert(target.names()[i as int] == cur[k].dependency);
                                } else {
                                    assert(name_among(target.names(), i as int, pre[k].dependency));
                                    lemma_name_among_mono(
                                        target.names(),
                                        i as int,
                                        i as int + 1,
                                        pre[k].dependency,
                                    );
                                }
                            }
                            assert forall|k: int, l: int|
                                0 <= k < l < cur.len() implies cur[k].dependency
                                != cur[l].dependency by {
                                if l == len - 1 {
                                    assert(name_among(target.names(), i as int, pre[k].dependency));
                                    let j = choose|j: int|
                                        0 <= j < i as int && (#[trigger] target.names()[j])
                                            == pre[k].dependency;
                                    assert(target.names()[j] != target.names()[i as int]);
                                }
                            }
                            assert forall|j: int|
                                0 <= j < i as int + 1 && source@.dom().contains(
                                    #[trigger] target.names()[j],
                                ) implies has_match_for(cur, target.names()[j]) by {
                                if j == i as int {
                                    assert(cur[len - 1].dependency == target.names()[j]);
                                } else {
                                    assert(has_match_for(pre, target.names()[j]));
                                    lemma_has_match_push(pre, m@, target.names()[j]);
                                }
                            }
                        }
                    }
                    None => {
                        proof {
                            assert(false);
                        }
                    }
                }
            }
            None => {
            }
        }
        i += 1;
    }
    proof {
        assert forall|d: Seq<char>|
            source@.dom().contains(d) && #[trigger] target@.dom().contains(d) implies has_match_for(
            out.deep_view(),
            d,
        ) by {
            target.lemma_dom_names();
            assert(target.names().to_set().contains(d));
            let j = choose|j: int|
                0 <= j < target.names().len() && target.names()[j] == d;
        }
    }
    out
}

} // verus!
