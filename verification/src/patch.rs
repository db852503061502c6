//! Patch sets: the additions, removals and updates that bring the live tree
//! in line with a snapshot.

use vstd::prelude::*;
use crate::instance::{find_in, find_upto, instance_views, instance_wf, lemma_find_upto_stays, Instance, InstanceView};
use crate::metadata::{InstanceMetadata, InstanceMetadataView};
use crate::path::{option_text, str_eq};
use crate::snapshot::{InstanceSnapshot, SnapshotView};
use crate::value::{find_prop, lemma_prop_at, lemma_prop_push, prop_map, prop_names, props_wf, Value, ValueView};

verus! {

/// An instance to add below an existing one.
#[derive(Debug, PartialEq, Eq)]
pub struct PatchAdd {
    pub parent_id: u128,
    /// The position of this addition among the additions of its patch set.
    pub provisional_id: usize,
    pub instance: InstanceSnapshot,
}

/// What changes on one instance. A property that maps to `None` is removed.
#[derive(Debug, PartialEq, Eq)]
pub struct PatchUpdate {
    pub id: u128,
    pub changed_name: Option<String>,
    pub changed_class_name: Option<String>,
    pub changed_properties: Vec<(String, Option<Value>)>,
    pub changed_metadata: Option<InstanceMetadata>,
}

/// The changes that bring a tree in line with a snapshot.
#[derive(Debug, PartialEq, Eq)]
pub struct PatchSet {
    pub removed_instances: Vec<u128>,
    pub added_instances: Vec<PatchAdd>,
    pub updated_instances: Vec<PatchUpdate>,
}

/// The changes that were made to a tree, with the ids that the added
/// instances received.
#[derive(Debug, PartialEq, Eq)]
pub struct AppliedPatchSet {
    pub removed: Vec<u128>,
    pub added: Vec<u128>,
    pub updated: Vec<PatchUpdate>,
}

/// What a [`PatchAdd`] holds.
pub struct AddView {
    pub parent_id: u128,
    pub provisional_id: int,
    pub instance: SnapshotView,
}

/// What a [`PatchUpdate`] holds. The changed properties are the map from
/// each name to its new value, or to `None` where it is removed.
pub struct UpdateView {
    pub id: u128,
    pub changed_name: Option<Seq<char>>,
    pub changed_class_name: Option<Seq<char>>,
    pub changed_properties: Map<Seq<char>, Option<ValueView>>,
    pub changed_metadata: Option<InstanceMetadataView>,
}

/// What a [`PatchSet`] holds.
pub struct PatchView {
    pub removed: Seq<u128>,
    pub added: Seq<AddView>,
    pub updated: Seq<UpdateView>,
}

impl PatchView {
    /// The patch that changes nothing.
    pub open spec fn empty() -> PatchView {
        PatchView { removed: Seq::empty(), added: Seq::empty(), updated: Seq::empty() }
    }

    /// This patch followed by `other`.
    pub open spec fn concat(self, other: PatchView) -> PatchView {
        PatchView {
            removed: self.removed + other.removed,
            added: self.added + other.added,
            updated: self.updated + other.updated,
        }
    }

    /// Whether the patch changes nothing.
    pub open spec fn is_empty(self) -> bool {
        self.removed.len() == 0 && self.added.len() == 0 && self.updated.len() == 0
    }
}

/// The names of a list of property changes, in order.
pub open spec fn change_names(c: Seq<(String, Option<Value>)>) -> Seq<Seq<char>> {
    Seq::new(c.len(), |i: int| c[i].0@)
}

/// The view of an optional value.
pub open spec fn option_value(o: Option<Value>) -> Option<ValueView> {
    match o {
        Some(v) => Some(v@),
        None => None,
    }
}

/// A list of property changes is well-formed when no name occurs twice.
pub open spec fn changes_wf(c: Seq<(String, Option<Value>)>) -> bool {
    change_names(c).no_duplicates()
}

/// The map from each name of a list of property changes to its change.
pub open spec fn change_map(c: Seq<(String, Option<Value>)>) -> Map<Seq<char>, Option<ValueView>> {
    Map::new(
        |k: Seq<char>| change_names(c).contains(k),
        |k: Seq<char>| option_value(c[change_names(c).index_of(k)].1),
    )
}

/// The view of an optional piece of metadata.
pub open spec fn option_metadata(o: Option<InstanceMetadata>) -> Option<InstanceMetadataView> {
    match o {
        Some(m) => Some(m@),
        None => None,
    }
}

impl View for PatchAdd {
    type V = AddView;

    open spec fn view(&self) -> AddView {
        AddView {
            parent_id: self.parent_id,
            provisional_id: self.provisional_id as int,
            instance: self.instance@,
        }
    }
}

impl View for PatchUpdate {
    type V = UpdateView;

    open spec fn view(&self) -> UpdateView {
        UpdateView {
            id: self.id,
            changed_name: option_text(self.changed_name),
            changed_class_name: option_text(self.changed_class_name),
            changed_properties: change_map(self.changed_properties@),
            changed_metadata: option_metadata(self.changed_metadata),
        }
    }
}

/// The views of a list of additions.
pub open spec fn add_views(v: Seq<PatchAdd>) -> Seq<AddView> {
    Seq::new(v.len(), |i: int| v[i]@)
}

/// The views of a list of updates.
pub open spec fn update_views(v: Seq<PatchUpdate>) -> Seq<UpdateView> {
    Seq::new(v.len(), |i: int| v[i]@)
}

impl View for PatchSet {
    type V = PatchView;

    open spec fn view(&self) -> PatchView {
        PatchView {
            removed: self.removed_instances@,
            added: add_views(self.added_instances@),
            updated: update_views(self.updated_instances@),
        }
    }
}

/// An update is well-formed when no property name occurs twice and the new
/// metadata, where there is some, is consistent.
pub open spec fn update_wf(u: PatchUpdate) -> bool {
    &&& changes_wf(u.changed_properties@)
    &&& match u.changed_metadata {
        Some(m) => m@.consistent(),
        None => true,
    }
}

/// A patch set is well-formed when its updates and the snapshots of its
/// additions are.
pub open spec fn patch_wf(p: PatchSet) -> bool {
    &&& forall|i: int|
        0 <= i < p.updated_instances@.len() ==> update_wf(#[trigger] p.updated_instances@[i])
    &&& forall|i: int|
        0 <= i < p.added_instances@.len() ==> crate::snapshot::snapshot_wf(
            (#[trigger] p.added_instances@[i]).instance,
        )
}

impl PatchSet {
    /// Creates the patch set that changes nothing.
    pub fn new() -> (r: PatchSet)
        ensures
            r@ == PatchView::empty(),
            patch_wf(r),
    {
        let r = PatchSet {
            removed_instances: Vec::new(),
            added_instances: Vec::new(),
            updated_instances: Vec::new(),
        };
        assert(r@.added =~= Seq::<AddView>::empty());
        assert(r@.updated =~= Seq::<UpdateView>::empty());
        r
    }

    /// Whether the patch set changes nothing.
    pub fn is_empty(&self) -> (r: bool)
        ensures
            r == self@.is_empty(),
    {
        self.removed_instances.len() == 0 && self.added_instances.len() == 0
            && self.updated_instances.len() == 0
    }
}

impl AppliedPatchSet {
    /// Whether nothing was changed.
    pub fn is_empty(&self) -> (r: bool)
        ensures
            r == (self.removed@.len() == 0 && self.added@.len() == 0 && self.updated@.len() == 0),
    {
        self.removed.len() == 0 && self.added.len() == 0 && self.updated.len() == 0
    }
}

/// The property changes that turn `current` into `wanted`: each name of
/// `wanted` that is new or has another value, with its wanted value, and
/// each name of `current` that `wanted` lacks, with `None`.
pub open spec fn delta_map(
    wanted: Map<Seq<char>, ValueView>,
    current: Map<Seq<char>, ValueView>,
) -> Map<Seq<char>, Option<ValueView>> {
    Map::new(
        |k: Seq<char>|
            (wanted.contains_key(k) && (!current.contains_key(k) || current[k] != wanted[k])) || (
            current.contains_key(k) && !wanted.contains_key(k)),
        |k: Seq<char>|
            if wanted.contains_key(k) {
                Some(wanted[k])
            } else {
                None
            },
    )
}

/// The properties after the changes: each changed name has its new value or
/// is gone, every other name is as it was.
pub open spec fn apply_changes(
    current: Map<Seq<char>, ValueView>,
    changes: Map<Seq<char>, Option<ValueView>>,
) -> Map<Seq<char>, ValueView> {
    Map::new(
        |k: Seq<char>|
            if changes.contains_key(k) {
                changes[k].is_some()
            } else {
                current.contains_key(k)
            },
        |k: Seq<char>|
            if changes.contains_key(k) {
                changes[k]->0
            } else {
                current[k]
            },
    )
}

/// Applying the changes that turn `current` into `wanted` gives `wanted`.
pub proof fn lemma_delta_reaches(
    wanted: Map<Seq<char>, ValueView>,
    current: Map<Seq<char>, ValueView>,
)
    ensures
        apply_changes(current, delta_map(wanted, current)) == wanted,
{
    assert(apply_changes(current, delta_map(wanted, current)) =~= wanted);
}

/// Nothing has to change to turn properties into themselves.
pub proof fn lemma_delta_of_same(p: Map<Seq<char>, ValueView>)
    ensures
        delta_map(p, p) == Map::<Seq<char>, Option<ValueView>>::empty(),
{
    assert(delta_map(p, p) =~= Map::<Seq<char>, Option<ValueView>>::empty());
}

/// In a well-formed list the change at index `i` is the map's entry for
/// its name.
pub proof fn lemma_change_at(c: Seq<(String, Option<Value>)>, i: int)
    requires
        changes_wf(c),
        0 <= i < c.len(),
    ensures
        change_map(c).contains_key(c[i].0@),
        change_map(c)[c[i].0@] == option_value(c[i].1),
{
    let names = change_names(c);
    assert(names[i] == c[i].0@);
    assert(names.contains(c[i].0@));
    let j = names.index_of(c[i].0@);
    assert(names[j] == names[i]);
}

/// Appending a change with a new name adds it to the map.
pub proof fn lemma_change_push(c: Seq<(String, Option<Value>)>, pair: (String, Option<Value>))
    requires
        changes_wf(c),
        !change_names(c).contains(pair.0@),
    ensures
        changes_wf(c.push(pair)),
        change_map(c.push(pair)) == change_map(c).insert(pair.0@, option_value(pair.1)),
{
    let q = c.push(pair);
    let np = change_names(c);
    let nq = change_names(q);
    assert(nq =~= np.push(pair.0@));
    assert forall|a: int, b: int| 0 <= a < nq.len() && 0 <= b < nq.len() && a != b implies nq[a]
        != nq[b] by {
        if a < np.len() {
            assert(np[a] == nq[a]);
        }
        if b < np.len() {
            assert(np[b] == nq[b]);
        }
    }
    assert forall|k: Seq<char>| change_map(q).contains_key(k) == change_map(c).insert(
        pair.0@,
        option_value(pair.1),
    ).contains_key(k) by {
        if nq.contains(k) {
            let j = nq.index_of(k);
            assert(nq[j] == k);
            if j < np.len() {
                assert(np[j] == k);
            }
        }
        if np.contains(k) {
            let j = np.index_of(k);
            assert(np[j] == k);
            assert(nq[j] == k);
        }
        if k == pair.0@ {
            assert(nq[c.len() as int] == k);
        }
    }
    assert forall|k: Seq<char>| change_map(q).contains_key(k) implies change_map(q)[k]
        == change_map(c).insert(pair.0@, option_value(pair.1))[k] by {
        let j = nq.index_of(k);
        assert(nq[j] == k);
        if j < np.len() {
            assert(np[j] == k);
            lemma_change_at(c, j);
            lemma_change_at(q, j);
        } else {
            lemma_change_at(q, j);
        }
    }
    assert(change_map(q) =~= change_map(c).insert(pair.0@, option_value(pair.1)));
}

/// Computes the property changes that turn `current` into `wanted`.
pub fn diff_properties(wanted: &Vec<(String, Value)>, current: &Vec<(String, Value)>) -> (r: Vec<
    (String, Option<Value>),
>)
    requires
        props_wf(wanted@),
        props_wf(current@),
    ensures
        changes_wf(r@),
        change_map(r@) == delta_map(prop_map(wanted@), prop_map(current@)),
{
    let ghost w = prop_map(wanted@);
    let ghost c = prop_map(current@);
    let ghost wn = prop_names(wanted@);
    let ghost cn = prop_names(current@);
    let mut out: Vec<(String, Option<Value>)> = Vec::new();
    let mut i: usize = 0;
    assert(change_map(out@) =~= Map::<Seq<char>, Option<ValueView>>::empty());
    while i < wanted.len()
        invariant
            0 <= i <= wanted.len(),
            props_wf(wanted@),
            props_wf(current@),
            w == prop_map(wanted@),
            c == prop_map(current@),
            wn == prop_names(wanted@),
            changes_wf(out@),
            forall|k: Seq<char>|
                #[trigger] change_map(out@).contains_key(k) <==> (exists|j: int|
                    0 <= j < i && wn[j] == k && (!c.contains_key(k) || c[k] != w[k])),
            forall|k: Seq<char>|
                change_map(out@).contains_key(k) ==> #[trigger] change_map(out@)[k] == Some(w[k]),
        decreases wanted.len() - i,
    {
        let ghost name = wanted[i as int].0@;
        proof {
            lemma_prop_at(wanted@, i as int);
            assert(wn[i as int] == name);
        }
        let differs = match find_prop(current, wanted[i].0.as_str()) {
            Some(j) => {
                proof {
                    lemma_prop_at(current@, j as int);
                }
                !current[j].1.same(&wanted[i].1)
            },
            None => true,
        };
        assert(differs == (!c.contains_key(name) || c[name] != w[name]));
        if differs {
            let pair = (wanted[i].0.clone(), Some(wanted[i].1.clone()));
            proof {
                if change_names(out@).contains(name) {
                    assert(change_map(out@).contains_key(name));
                    let j = choose|j: int|
                        0 <= j < i && wn[j] == name && (!c.contains_key(name) || c[name]
                            != w[name]);
                    assert(wn[j] == wn[i as int]);
                }
                lemma_change_push(out@, pair);
            }
            let ghost before = change_map(out@);
            out.push(pair);
            proof {
                assert forall|k: Seq<char>|
                    #[trigger] change_map(out@).contains_key(k) <==> (exists|j: int|
                        0 <= j < i + 1 && wn[j] == k && (!c.contains_key(k) || c[k] != w[k])) by {
                    if before.contains_key(k) {
                        let j = choose|j: int|
                            0 <= j < i && wn[j] == k && (!c.contains_key(k) || c[k] != w[k]);
                        assert(0 <= j < i + 1 && wn[j] == k);
                    }
                    if exists|j: int|
                        0 <= j < i + 1 && wn[j] == k && (!c.contains_key(k) || c[k] != w[k]) {
                        let j = choose|j: int|
                            0 <= j < i + 1 && wn[j] == k && (!c.contains_key(k) || c[k] != w[k]);
                        if j < i {
                            assert(before.contains_key(k));
                        }
                    }
                }
            }
        } else {
            proof {
                assert forall|k: Seq<char>|
                    #[trigger] change_map(out@).contains_key(k) <==> (exists|j: int|
                        0 <= j < i + 1 && wn[j] == k && (!c.contains_key(k) || c[k] != w[k])) by {
                    if change_map(out@).contains_key(k) {
                        let j = choose|j: int|
                            0 <= j < i && wn[j] == k && (!c.contains_key(k) || c[k] != w[k]);
                        assert(0 <= j < i + 1 && wn[j] == k);
                    }
                    if exists|j: int|
                        0 <= j < i + 1 && wn[j] == k && (!c.contains_key(k) || c[k] != w[k]) {
                        let j = choose|j: int|
                            0 <= j < i + 1 && wn[j] == k && (!c.contains_key(k) || c[k] != w[k]);
                        assert(j < i);
                    }
                }
            }
        }
        i = i + 1;
    }
    let ghost first = change_map(out@);
    let mut m: usize = 0;
    while m < current.len()
        invariant
            0 <= m <= current.len(),
            props_wf(wanted@),
            props_wf(current@),
            w == prop_map(wanted@),
            c == prop_map(current@),
            wn == prop_names(wanted@),
            cn == prop_names(current@),
            changes_wf(out@),
            forall|k: Seq<char>|
                #[trigger] first.contains_key(k) <==> (exists|j: int|
                    0 <= j < wn.len() && wn[j] == k && (!c.contains_key(k) || c[k] != w[k])),
            forall|k: Seq<char>| first.contains_key(k) ==> #[trigger] first[k] == Some(w[k]),
            forall|k: Seq<char>|
                #[trigger] change_map(out@).contains_key(k) <==> (first.contains_key(k) || (
                exists|j: int| 0 <= j < m && cn[j] == k && !w.contains_key(k))),
            forall|k: Seq<char>|
                change_map(out@).contains_key(k) ==> #[trigger] change_map(out@)[k] == (if first.contains_key(
                    k,
                ) {
                    Some(w[k])
                } else {
                    None
                }),
        decreases current.len() - m,
    {
        let ghost name = current[m as int].0@;
        proof {
            lemma_prop_at(current@, m as int);
            assert(cn[m as int] == name);
        }
        let absent = find_prop(wanted, current[m].0.as_str()).is_none();
        assert(absent == !w.contains_key(name)) by {
            if !absent {
                let j = choose|j: int| 0 <= j < wanted.len() && wanted[j].0@ == name;
                assert(wn[j] == name);
            }
        }
        let ghost before = change_map(out@);
        if absent {
            let pair: (String, Option<Value>) = (current[m].0.clone(), None);
            proof {
                if change_names(out@).contains(name) {
                    assert(before.contains_key(name));
                    if first.contains_key(name) {
                        let j = choose|j: int|
                            0 <= j < wn.len() && wn[j] == name && (!c.contains_key(name) || c[name]
                                != w[name]);
                        assert(wn.contains(name));
                    } else {
                        let j = choose|j: int| 0 <= j < m && cn[j] == name && !w.contains_key(name);
                        assert(cn[j] == cn[m as int]);
                    }
                }
                lemma_change_push(out@, pair);
            }
            out.push(pair);
            proof {
                assert(!first.contains_key(name)) by {
                    if first.contains_key(name) {
                        let j = choose|j: int|
                            0 <= j < wn.len() && wn[j] == name && (!c.contains_key(name) || c[name]
                                != w[name]);
                        assert(wn.contains(name));
                    }
                }
                assert forall|k: Seq<char>|
                    #[trigger] change_map(out@).contains_key(k) <==> (first.contains_key(k) || (
                    exists|j: int| 0 <= j < m + 1 && cn[j] == k && !w.contains_key(k))) by {
                    if before.contains_key(k) && !first.contains_key(k) {
                        let j = choose|j: int| 0 <= j < m && cn[j] == k && !w.contains_key(k);
                        assert(0 <= j < m + 1 && cn[j] == k);
                    }
                    if exists|j: int| 0 <= j < m + 1 && cn[j] == k && !w.contains_key(k) {
                        let j = choose|j: int| 0 <= j < m + 1 && cn[j] == k && !w.contains_key(k);
                        if j < m {
                            assert(before.contains_key(k));
                        }
                    }
                }
            }
        } else {
            proof {
                assert forall|k: Seq<char>|
                    #[trigger] change_map(out@).contains_key(k) <==> (first.contains_key(k) || (
                    exists|j: int| 0 <= j < m + 1 && cn[j] == k && !w.contains_key(k))) by {
                    if before.contains_key(k) && !first.contains_key(k) {
                        let j = choose|j: int| 0 <= j < m && cn[j] == k && !w.contains_key(k);
                        assert(0 <= j < m + 1 && cn[j] == k);
                    }
                    if exists|j: int| 0 <= j < m + 1 && cn[j] == k && !w.contains_key(k) {
                        let j = choose|j: int| 0 <= j < m + 1 && cn[j] == k && !w.contains_key(k);
                        assert(j < m);
                    }
                }
            }
        }
        m = m + 1;
    }
    proof {
        let d = delta_map(w, c);
        assert forall|k: Seq<char>| change_map(out@).contains_key(k) == d.contains_key(k) by {
            if w.contains_key(k) && (!c.contains_key(k) || c[k] != w[k]) {
                let j = wn.index_of(k);
                assert(wn[j] == k);
                assert(first.contains_key(k));
            }
            if c.contains_key(k) && !w.contains_key(k) {
                let j = cn.index_of(k);
                assert(cn[j] == k);
            }
            if first.contains_key(k) {
                let j = choose|j: int|
                    0 <= j < wn.len() && wn[j] == k && (!c.contains_key(k) || c[k] != w[k]);
                assert(wn.contains(k));
            }
            if exists|j: int| 0 <= j < current.len() && cn[j] == k && !w.contains_key(k) {
                let j = choose|j: int| 0 <= j < current.len() && cn[j] == k && !w.contains_key(k);
                assert(cn.contains(k));
            }
        }
        assert forall|k: Seq<char>| change_map(out@).contains_key(k) implies change_map(out@)[k]
            == d[k] by {
            if first.contains_key(k) {
                let j = choose|j: int|
                    0 <= j < wn.len() && wn[j] == k && (!c.contains_key(k) || c[k] != w[k]);
                assert(wn.contains(k));
            } else {
                let j = choose|j: int| 0 <= j < current.len() && cn[j] == k && !w.contains_key(k);
            }
        }
        assert(change_map(out@) =~= d);
    }
    out
}

/// Whether no name occurs twice in a list of property changes.
pub fn change_names_distinct(c: &Vec<(String, Option<Value>)>) -> (r: bool)
    ensures
        r == changes_wf(c@),
{
    let mut i: usize = 0;
    while i < c.len()
        invariant
            0 <= i <= c.len(),
            forall|a: int, b: int| 0 <= a < b < i ==> c[a].0@ != c[b].0@,
        decreases c.len() - i,
    {
        let mut j: usize = 0;
        while j < i
            invariant
                0 <= j <= i,
                i < c.len(),
                forall|a: int| 0 <= a < j ==> c[a].0@ != c[i as int].0@,
            decreases i - j,
        {
            if str_eq(c[j].0.as_str(), c[i].0.as_str()) {
                assert(change_names(c@)[j as int] == change_names(c@)[i as int]);
                return false;
            }
            j = j + 1;
        }
        i = i + 1;
    }
    assert forall|a: int, b: int|
        0 <= a < change_names(c@).len() && 0 <= b < change_names(c@).len() && a
            != b implies change_names(c@)[a] != change_names(c@)[b] by {
        if a < b {
            assert(c[a].0@ != c[b].0@);
        } else {
            assert(c[b].0@ != c[a].0@);
        }
    }
    true
}

impl PatchUpdate {
    /// Whether the update is well-formed.
    pub fn is_wf(&self) -> (r: bool)
        ensures
            r == update_wf(*self),
    {
        if !change_names_distinct(&self.changed_properties) {
            return false;
        }
        match &self.changed_metadata {
            Some(m) => m.is_consistent(),
            None => true,
        }
    }
}

impl PatchSet {
    /// Whether the patch set is well-formed.
    pub fn is_wf(&self) -> (r: bool)
        ensures
            r == patch_wf(*self),
    {
        let mut i: usize = 0;
        while i < self.updated_instances.len()
            invariant
                0 <= i <= self.updated_instances.len(),
                forall|j: int| 0 <= j < i ==> update_wf(#[trigger] self.updated_instances@[j]),
            decreases self.updated_instances.len() - i,
        {
            if !self.updated_instances[i].is_wf() {
                return false;
            }
            i = i + 1;
        }
        let mut k: usize = 0;
        while k < self.added_instances.len()
            invariant
                0 <= k <= self.added_instances.len(),
                forall|j: int|
                    0 <= j < self.updated_instances@.len() ==> update_wf(
                        #[trigger] self.updated_instances@[j],
                    ),
                forall|j: int|
                    0 <= j < k ==> crate::snapshot::snapshot_wf(
                        (#[trigger] self.added_instances@[j]).instance,
                    ),
            decreases self.added_instances.len() - k,
        {
            if !self.added_instances[k].instance.is_wf() {
                return false;
            }
            k = k + 1;
        }
        true
    }
}

} // verus!
