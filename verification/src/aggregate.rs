//! The aggregate map from dependency name to the ordered list of version
//! records observed for that name, together with the specification of how
//! extraction extends such a map.

use vstd::prelude::*;

use crate::model::{DependencyInfoView, VersionInfo, VersionInfoView};

verus! {

/// The mathematical value of an aggregate map: dependency name to the ordered
/// records observed for it.
pub type AggregateMapView = Map<Seq<char>, Seq<VersionInfoView>>;

/// The version a dependency entry pins: its explicit version field, or the
/// empty string when it declares none.
pub open spec fn implicit_version(version: Option<Seq<char>>) -> Seq<char> {
    match version {
        Some(v) => v,
        None => Seq::empty(),
    }
}

/// The record that one dependency entry of the manifest at `origin`
/// contributes.
pub open spec fn record_of(origin: Seq<char>, dep: DependencyInfoView) -> VersionInfoView {
    VersionInfoView { path: origin, version: implicit_version(dep.version) }
}

/// The records `m` holds for `name`: its list when `name` is a key, and the
/// empty list otherwise.
pub open spec fn records_for(m: AggregateMapView, name: Seq<char>) -> Seq<VersionInfoView> {
    if m.dom().contains(name) {
        m[name]
    } else {
        Seq::empty()
    }
}

/// `m` with `rec` appended to the records of `name`, the key being created on
/// its first occurrence.
pub open spec fn with_record(
    m: AggregateMapView,
    name: Seq<char>,
    rec: VersionInfoView,
) -> AggregateMapView {
    m.insert(name, records_for(m, name).push(rec))
}

/// `m` after extracting every dependency entry of the manifest at `origin`,
/// in table order.
pub open spec fn extended(
    m: AggregateMapView,
    origin: Seq<char>,
    deps: Seq<DependencyInfoView>,
) -> AggregateMapView
    decreases deps.len(),
{
    if deps.len() == 0 {
        m
    } else {
        with_record(
            extended(m, origin, deps.drop_last()),
            deps.last().name,
            record_of(origin, deps.last()),
        )
    }
}

/// How many entries of `deps` bear `name`.
pub open spec fn dep_count(deps: Seq<DependencyInfoView>, name: Seq<char>) -> nat
    decreases deps.len(),
{
    if deps.len() == 0 {
        0
    } else {
        dep_count(deps.drop_last(), name) + if deps.last().name == name {
            1nat
        } else {
            0nat
        }
    }
}

/// Appending a record is strictly additive: the record lands at the end of
/// the list for its name, and every other name's list is untouched.
pub proof fn lemma_with_record_appends(m: AggregateMapView, name: Seq<char>, rec: VersionInfoView)
    ensures
        records_for(with_record(m, name, rec), name) == records_for(m, name).push(rec),
        forall|other: Seq<char>| other != name ==> records_for(with_record(m, name, rec), other)
            == records_for(m, other),
{
}

/// An entry with no explicit version field still contributes a record, whose
/// version is the empty string rather than an omitted value.
pub proof fn lemma_implicit_version_record(origin: Seq<char>, dep: DependencyInfoView)
    requires
        dep.version is None,
    ensures
        record_of(origin, dep).version == Seq::<char>::empty(),
        record_of(origin, dep).path == origin,
{
}

/// The records that one manifest's entries for `name` contribute, in table
/// order: one per entry bearing `name`, each carrying the manifest's origin.
pub open spec fn manifest_records(
    origin: Seq<char>,
    deps: Seq<DependencyInfoView>,
    name: Seq<char>,
) -> Seq<VersionInfoView>
    decreases deps.len(),
{
    if deps.len() == 0 {
        Seq::empty()
    } else if deps.last().name == name {
        manifest_records(origin, deps.drop_last(), name).push(record_of(origin, deps.last()))
    } else {
        manifest_records(origin, deps.drop_last(), name)
    }
}

/// Exactly what extracting one manifest does to one name's list: it appends,
/// in table order, the records of the manifest's entries for that name.
pub proof fn lemma_extended_records(
    m: AggregateMapView,
    origin: Seq<char>,
    deps: Seq<DependencyInfoView>,
    name: Seq<char>,
)
    ensures
        records_for(extended(m, origin, deps), name) == records_for(m, name) + manifest_records(
            origin,
            deps,
            name,
        ),
    decreases deps.len(),
{
    if deps.len() == 0 {
        assert(records_for(m, name) + Seq::<VersionInfoView>::empty() =~= records_for(m, name));
    } else {
        lemma_extended_records(m, origin, deps.drop_last(), name);
        lemma_with_record_appends(
            extended(m, origin, deps.drop_last()),
            deps.last().name,
            record_of(origin, deps.last()),
        );
        if deps.last().name == name {
            assert((records_for(m, name) + manifest_records(origin, deps.drop_last(), name)).push(
                record_of(origin, deps.last()),
            ) =~= records_for(m, name) + manifest_records(origin, deps, name));
        }
    }
}

/// Extraction is additive: extracting a manifest with `dep_count(deps, name)`
/// entries for `name` appends exactly that many records for `name`, each
/// carrying the manifest's origin path, and leaves the records already
/// present unchanged, in order.
pub proof fn lemma_extended_additive(
    m: AggregateMapView,
    origin: Seq<char>,
    deps: Seq<DependencyInfoView>,
    name: Seq<char>,
)
    ensures
        records_for(extended(m, origin, deps), name).len() == records_for(m, name).len()
            + dep_count(deps, name),
        forall|k: int| 0 <= k < records_for(m, name).len() ==> records_for(
            extended(m, origin, deps),
            name,
        )[k] == records_for(m, name)[k],
        forall|k: int|
            records_for(m, name).len() <= k < records_for(extended(m, origin, deps), name).len()
                ==> records_for(extended(m, origin, deps), name)[k].path == origin,
    decreases deps.len(),
{
    if deps.len() == 0 {
    } else {
        lemma_extended_additive(m, origin, deps.drop_last(), name);
        lemma_with_record_appends(
            extended(m, origin, deps.drop_last()),
            deps.last().name,
            record_of(origin, deps.last()),
        );
    }
}

struct Bucket {
    name: String,
    records: Vec<VersionInfo>,
}

spec fn bucket_names(buckets: Seq<Bucket>) -> Seq<Seq<char>> {
    Seq::new(buckets.len(), |i: int| buckets[i].name@)
}

spec fn distinct_names(buckets: Seq<Bucket>) -> bool {
    forall|i: int, j: int| 0 <= i < j < buckets.len() ==> buckets[i].name@ != buckets[j].name@
}

spec fn bucket_records(buckets: Seq<Bucket>, name: Seq<char>) -> Seq<VersionInfoView> {
    let i = choose|i: int| 0 <= i < buckets.len() && buckets[i].name@ == name;
    buckets[i].records.deep_view()
}

proof fn lemma_bucket_records_at(buckets: Seq<Bucket>, i: int)
    requires
        distinct_names(buckets),
        0 <= i < buckets.len(),
    ensures
        bucket_records(buckets, buckets[i].name@) == buckets[i].records.deep_view(),
{
    let name = buckets[i].name@;
    assert(0 <= i < buckets.len() && buckets[i].name@ == name);
    let j = choose|j: int| 0 <= j < buckets.len() && buckets[j].name@ == name;
    if j < i {
        assert(buckets[j].name@ != buckets[i].name@);
    } else if i < j {
        assert(buckets[i].name@ != buckets[j].name@);
    }
}

/// One scan side's aggregate: dependency name to the ordered list of version
/// records observed for it, keys kept unique and in first-insertion order.
pub struct AggregateMap {
    buckets: Vec<Bucket>,
}

impl View for AggregateMap {
    type V = AggregateMapView;

    closed spec fn view(&self) -> AggregateMapView {
        Map::new(
            |name: Seq<char>| bucket_names(self.buckets@).contains(name),
            |name: Seq<char>| bucket_records(self.buckets@, name),
        )
    }
}

impl AggregateMap {
    /// The keys, in the order of their first insertion.
    pub closed spec fn names(&self) -> Seq<Seq<char>> {
        bucket_names(self.buckets@)
    }

    /// Key uniqueness: each dependency name owns exactly one record list.
    pub closed spec fn wf(&self) -> bool {
        distinct_names(self.buckets@)
    }

    /// The domain of the map is exactly the set of its keys.
    pub proof fn lemma_dom_names(&self)
        ensures
            self@.dom() =~= self.names().to_set(),
            forall|i: int| 0 <= i < self.names().len() ==> self@.dom().contains(#[trigger] self.names()[i]),
    {
        assert forall|i: int| 0 <= i < self.names().len() implies self@.dom().contains(
            #[trigger] self.names()[i],
        ) by {
            assert(self.names().contains(self.names()[i]));
        }
    }

    /// In a well-formed map the keys are pairwise distinct.
    pub proof fn lemma_wf_names_distinct(&self)
        requires
            self.wf(),
        ensures
            forall|i: int, j: int| 0 <= i < j < self.names().len() ==> self.names()[i]
                != self.names()[j],
    {
    }

    /// An empty aggregate map.
    pub fn new() -> (r: AggregateMap)
        ensures
            r.wf(),
            r.names() == Seq::<Seq<char>>::empty(),
            r@ == AggregateMapView::empty(),
    {
        let r = AggregateMap { buckets: Vec::new() };
        proof {
            assert(r.names() =~= Seq::<Seq<char>>::empty());
            assert(r@ =~= AggregateMapView::empty());
        }
        r
    }

    /// How many dependency names the map holds.
    pub fn len(&self) -> (r: usize)
        ensures
            r == self.names().len(),
    {
        self.buckets.len()
    }

    /// The key at position `i` in first-insertion order.
    pub fn key_at(&self, i: usize) -> (r: &String)
        requires
            i < self.names().len(),
        ensures
            r@ == self.names()[i as int],
    {
        &self.buckets[i].name
    }

    fn index_of(&self, name: &String) -> (r: Option<usize>)
        ensures
            match r {
                Some(i) => i < self.buckets@.len() && self.buckets@[i as int].name@ == name@,
                None => !self.names().contains(name@),
            },
    {
        let n = self.buckets.len();
        let mut i: usize = 0;
        while i < n
            invariant
                i <= n,
                n == self.buckets@.len(),
                forall|j: int| 0 <= j < i ==> self.buckets@[j].name@ != name@,
            decreases n - i,
        {
            if self.buckets[i].name == *name {
                return Some(i);
            }
            i += 1;
        }
        proof {
            assert(forall|j: int|
                0 <= j < self.names().len() ==> #[trigger] self.names()[j] != name@);
        }
        None
    }

    /// Whether `name` is a key of the map.
    pub fn contains_key(&self, name: &String) -> (r: bool)
        ensures
            r == self@.dom().contains(name@),
    {
        match self.index_of(name) {
            Some(i) => {
                proof {
                    assert(self.names()[i as int] == name@);
                }
                true
            }
            None => false,
        }
    }

    /// The records held for `name`, or `None` when `name` is not a key.
    pub fn get(&self, name: &String) -> (r: Option<&Vec<VersionInfo>>)
        requires
            self.wf(),
        ensures
            match r {
                Some(records) => self@.dom().contains(name@) && records.deep_view()
                    == self@[name@],
                None => !self@.dom().contains(name@),
            },
    {
        match self.index_of(name) {
            Some(i) => {
                proof {
                    assert(self.names()[i as int] == name@);
                    lemma_bucket_records_at(self.buckets@, i as int);
                }
                Some(&self.buckets[i].records)
            }
            None => None,
        }
    }

    /// Appends `rec` to the records of `name`, creating the key on its first
    /// occurrence; strictly additive, never overwriting or merging.
    pub fn push_record(&mut self, name: &String, rec: VersionInfo)
        requires
            old(self).wf(),
        ensures
            final(self).wf(),
            final(self)@ == with_record(old(self)@, name@, rec@),
            final(self).names() == if old(self)@.dom().contains(name@) {
                old(self).names()
            } else {
                old(self).names().push(name@)
            },
    {
        let found = self.index_of(name);
        match found {
            Some(i) => {
                self.buckets[i].records.push(rec);
                proof {
                    let b0 = old(self).buckets@;
                    let b1 = self.buckets@;
                    assert(bucket_names(b1) =~= bucket_names(b0));
                    assert(distinct_names(b1));
                    assert(old(self).names().contains(name@)) by {
                        assert(old(self).names()[i as int] == name@);
                    }
                    lemma_bucket_records_at(b0, i as int);
                    lemma_bucket_records_at(b1, i as int);
                    assert(b1[i as int].records.deep_view() =~= b0[i as int].records.deep_view()
                        .push(rec@));
                    assert forall|k: Seq<char>|
                        k != name@ && bucket_names(b1).contains(k) implies bucket_records(b1, k)
                        == bucket_records(b0, k) by {
                        let j = choose|j: int| 0 <= j < b1.len() && b1[j].name@ == k;
                        assert(b1[j] == b0[j]);
                        lemma_bucket_records_at(b0, j);
                        lemma_bucket_records_at(b1, j);
                    }
                    assert(self@ =~= with_record(old(self)@, name@, rec@));
                    assert(self.names() =~= old(self).names());
                }
            }
            None => {
                let mut records: Vec<VersionInfo> = Vec::new();
                records.push(rec);
                self.buckets.push(Bucket { name: name.clone(), records });
                proof {
                    let b0 = old(self).buckets@;
                    let b1 = self.buckets@;
                    let last = b1.len() - 1;
                    assert(bucket_names(b1) =~= bucket_names(b0).push(name@));
                    assert(!old(self).names().contains(name@));
                    assert(distinct_names(b1)) by {
                        assert forall|x: int, y: int| 0 <= x < y < b1.len() implies b1[x].name@
                            != b1[y].name@ by {
                            if y == last {
                                assert(bucket_names(b0)[x] == b1[x].name@);
                                assert(bucket_names(b0).contains(b1[x].name@));
                            }
                        }
                    }
                    lemma_bucket_records_at(b1, last);
                    assert(b1[last].records.deep_view() =~= Seq::<VersionInfoView>::empty().push(
                        rec@,
                    ));
                    assert forall|k: Seq<char>|
                        k != name@ && bucket_names(b1).contains(k) implies bucket_records(b1, k)
                        == bucket_records(b0, k) && bucket_names(b0).contains(k) by {
                        let j = choose|j: int|
                            0 <= j < bucket_names(b1).len() && bucket_names(b1)[j] == k;
                        assert(b1[j].name@ == k);
                        assert(j != last);
                        assert(b1[j] == b0[j]);
                        assert(bucket_names(b0)[j] == k);
                        lemma_bucket_records_at(b0, j);
                        lemma_bucket_records_at(b1, j);
                    }
                    assert forall|k: Seq<char>| bucket_names(b0).contains(k) implies bucket_names(
                        b1,
                    ).contains(k) by {
                        let j = choose|j: int|
                            0 <= j < bucket_names(b0).len() && bucket_names(b0)[j] == k;
                        assert(bucket_names(b1)[j] == k);
                    }
                    assert(bucket_names(b1).contains(name@)) by {
                        assert(bucket_names(b1)[last] == name@);
                    }
                    assert(self@ =~= with_record(old(self)@, name@, rec@));
                }
            }
        }
    }
}

} // verus!
