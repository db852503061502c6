//! Snapshots: instance sub-trees proposed by a middleware, not yet part of
//! the live tree.

use vstd::prelude::*;
use crate::metadata::{InstanceMetadata, InstanceMetadataView};
use crate::value::{copy_props, prop_map, prop_names, props_wf, Value, ValueView};

verus! {

/// A description of what an instance and its descendants should look like.
#[derive(Debug, PartialEq, Eq)]
pub struct InstanceSnapshot {
    /// A provisional id by which other snapshots may refer to this one.
    pub snapshot_id: Option<u128>,
    pub metadata: InstanceMetadata,
    pub name: String,
    pub class_name: String,
    pub properties: Vec<(String, Value)>,
    pub children: Vec<InstanceSnapshot>,
}

/// What an [`InstanceSnapshot`] holds. The properties are the map from
/// each name to its value.
pub struct SnapshotView {
    pub snapshot_id: Option<u128>,
    pub metadata: InstanceMetadataView,
    pub name: Seq<char>,
    pub class_name: Seq<char>,
    pub properties: Map<Seq<char>, ValueView>,
    pub children: Seq<SnapshotView>,
}

/// The view of a snapshot, level by level.
pub open spec fn snapshot_view(s: InstanceSnapshot) -> SnapshotView
    decreases s,
{
    SnapshotView {
        snapshot_id: s.snapshot_id,
        metadata: s.metadata@,
        name: s.name@,
        class_name: s.class_name@,
        properties: prop_map(s.properties@),
        children: Seq::new(
            s.children@.len(),
            |i: int|
                if 0 <= i < s.children@.len() {
                    snapshot_view(s.children@[i])
                } else {
                    arbitrary()
                },
        ),
    }
}

impl View for InstanceSnapshot {
    type V = SnapshotView;

    open spec fn view(&self) -> SnapshotView {
        snapshot_view(*self)
    }
}

/// The views of a list of snapshots.
pub open spec fn snapshot_views(v: Seq<InstanceSnapshot>) -> Seq<SnapshotView> {
    Seq::new(v.len(), |i: int| v[i]@)
}

/// A snapshot is well-formed when, at every level, no property name occurs
/// twice and the metadata is consistent.
pub open spec fn snapshot_wf(s: InstanceSnapshot) -> bool
    decreases s,
{
    &&& props_wf(s.properties@)
    &&& s.metadata@.consistent()
    &&& forall|i: int| 0 <= i < s.children@.len() ==> snapshot_wf(#[trigger] s.children@[i])
}

/// The number of instances that a snapshot describes, counted over the
/// first `upto` children and what lies below them.
pub open spec fn children_size(s: SnapshotView, upto: int) -> nat
    decreases s, upto,
{
    if 0 < upto <= s.children.len() {
        children_size(s, upto - 1) + snapshot_size(s.children[upto - 1])
    } else {
        0
    }
}

/// The number of instances that a snapshot describes.
pub open spec fn snapshot_size(s: SnapshotView) -> nat
    decreases s, s.children.len() + 1,
{
    1 + children_size(s, s.children.len() as int)
}

/// The same snapshot without provisional ids, level by level.
pub open spec fn without_ids(s: SnapshotView) -> SnapshotView
    decreases s,
{
    SnapshotView {
        snapshot_id: None,
        metadata: s.metadata,
        name: s.name,
        class_name: s.class_name,
        properties: s.properties,
        children: Seq::new(
            s.children.len(),
            |i: int|
                if 0 <= i < s.children.len() {
                    without_ids(s.children[i])
                } else {
                    arbitrary()
                },
        ),
    }
}

/// Whether no name occurs twice in a property list.
pub fn names_distinct(p: &Vec<(String, Value)>) -> (r: bool)
    ensures
        r == props_wf(p@),
{
    let mut i: usize = 0;
    while i < p.len()
        invariant
            0 <= i <= p.len(),
            forall|a: int, b: int| 0 <= a < b < i ==> p[a].0@ != p[b].0@,
        decreases p.len() - i,
    {
        let mut j: usize = 0;
        while j < i
            invariant
                0 <= j <= i,
                i < p.len(),
                forall|a: int| 0 <= a < j ==> p[a].0@ != p[i as int].0@,
            decreases i - j,
        {
            if crate::path::str_eq(p[j].0.as_str(), p[i].0.as_str()) {
                assert(prop_names(p@)[j as int] == prop_names(p@)[i as int]);
                return false;
            }
            j = j + 1;
        }
        i = i + 1;
    }
    assert forall|a: int, b: int|
        0 <= a < prop_names(p@).len() && 0 <= b < prop_names(p@).len() && a != b implies prop_names(
        p@,
    )[a] != prop_names(p@)[b] by {
        if a < b {
            assert(p[a].0@ != p[b].0@);
        } else {
            assert(p[b].0@ != p[a].0@);
        }
    }
    true
}

impl InstanceSnapshot {
    /// Whether the snapshot is well-formed.
    pub fn is_wf(&self) -> (r: bool)
        ensures
            r == snapshot_wf(*self),
        decreases self,
    {
        if !names_distinct(&self.properties) {
            return false;
        }
        if !self.metadata.is_consistent() {
            return false;
        }
        let mut i: usize = 0;
        while i < self.children.len()
            invariant
                0 <= i <= self.children.len(),
                forall|j: int| 0 <= j < i ==> snapshot_wf(#[trigger] self.children@[j]),
            decreases self.children.len() - i,
        {
            if !self.children[i].is_wf() {
                return false;
            }
            i = i + 1;
        }
        true
    }

    /// A copy of the snapshot without provisional ids.
    pub fn get_owned(&self) -> (r: InstanceSnapshot)
        ensures
            r@ == without_ids(self@),
            snapshot_wf(*self) ==> snapshot_wf(r),
        decreases self,
    {
        let mut children: Vec<InstanceSnapshot> = Vec::new();
        let mut i: usize = 0;
        while i < self.children.len()
            invariant
                0 <= i <= self.children.len(),
                children.len() == i,
                forall|j: int| 0 <= j < i ==> children@[j]@ == without_ids(self.children@[j]@),
                forall|j: int|
                    0 <= j < i && snapshot_wf(self.children@[j]) ==> snapshot_wf(
                        #[trigger] children@[j],
                    ),
            decreases self.children.len() - i,
        {
            let child = self.children[i].get_owned();
            children.push(child);
            i = i + 1;
        }
        let r = InstanceSnapshot {
            snapshot_id: None,
            metadata: self.metadata.clone(),
            name: self.name.clone(),
            class_name: self.class_name.clone(),
            properties: copy_props(&self.properties),
            children,
        };
        assert(r@.children =~= without_ids(self@).children);
        r
    }
}

impl Clone for InstanceSnapshot {
    fn clone(&self) -> (r: InstanceSnapshot)
        ensures
            r@ == self@,
            snapshot_wf(*self) ==> snapshot_wf(r),
        decreases self,
    {
        let mut children: Vec<InstanceSnapshot> = Vec::new();
        let mut i: usize = 0;
        while i < self.children.len()
            invariant
                0 <= i <= self.children.len(),
                children.len() == i,
                forall|j: int| 0 <= j < i ==> children@[j]@ == self.children@[j]@,
                forall|j: int|
                    0 <= j < i && snapshot_wf(self.children@[j]) ==> snapshot_wf(
                        #[trigger] children@[j],
                    ),
            decreases self.children.len() - i,
        {
            let child = self.children[i].clone();
            children.push(child);
            i = i + 1;
        }
        let r = InstanceSnapshot {
            snapshot_id: self.snapshot_id,
            metadata: self.metadata.clone(),
            name: self.name.clone(),
            class_name: self.class_name.clone(),
            properties: copy_props(&self.properties),
            children,
        };
        assert(r@.children =~= self@.children);
        r
    }
}

} // verus!
