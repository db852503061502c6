//! JSON models: instances written down as nested objects with a class name,
//! properties and children.

use vstd::prelude::*;
use crate::metadata::{InstanceMetadata, InstanceMetadataView};
use crate::path::option_text;
use crate::snapshot::{names_distinct, snapshot_wf, InstanceSnapshot, SnapshotView};
use crate::value::{copy_props, prop_map, props_wf, Value, ValueView};

verus! {

/// What a JSON model holds at one level, apart from the name.
#[derive(Debug, PartialEq, Eq)]
pub struct JsonModelCore {
    pub class_name: String,
    pub children: Vec<JsonModelInstance>,
    pub properties: Vec<(String, Value)>,
}

/// A named instance inside a JSON model.
#[derive(Debug, PartialEq, Eq)]
pub struct JsonModelInstance {
    pub name: String,
    pub core: JsonModelCore,
}

/// A JSON model: its top level may leave the name out.
#[derive(Debug, PartialEq, Eq)]
pub struct JsonModel {
    pub name: Option<String>,
    pub core: JsonModelCore,
}

/// A model is well-formed when no property name occurs twice at any level.
pub open spec fn core_wf(c: JsonModelCore) -> bool
    decreases c,
{
    &&& props_wf(c.properties@)
    &&& forall|i: int| 0 <= i < c.children@.len() ==> core_wf((#[trigger] c.children@[i]).core)
}

/// The snapshot that a model stands for under the name `name`: no
/// provisional ids, new metadata, and the children in order under their
/// own names.
pub open spec fn core_snapshot(c: JsonModelCore, name: Seq<char>) -> SnapshotView
    decreases c,
{
    SnapshotView {
        snapshot_id: None,
        metadata: InstanceMetadataView::empty(),
        name,
        class_name: c.class_name@,
        properties: prop_map(c.properties@),
        children: Seq::new(
            c.children@.len(),
            |i: int|
                if 0 <= i < c.children@.len() {
                    core_snapshot(c.children@[i].core, c.children@[i].name@)
                } else {
                    arbitrary()
                },
        ),
    }
}

impl JsonModelCore {
    /// Whether no property name occurs twice at any level.
    pub fn is_wf(&self) -> (r: bool)
        ensures
            r == core_wf(*self),
        decreases self,
    {
        if !names_distinct(&self.properties) {
            return false;
        }
        let mut i: usize = 0;
        while i < self.children.len()
            invariant
                0 <= i <= self.children.len(),
                forall|j: int| 0 <= j < i ==> core_wf((#[trigger] self.children@[j]).core),
            decreases self.children.len() - i,
        {
            if !self.children[i].core.is_wf() {
                return false;
            }
            i = i + 1;
        }
        true
    }

    /// Turns the model into a snapshot with the name `name`.
    pub fn into_snapshot(&self, name: String) -> (r: InstanceSnapshot)
        requires
            core_wf(*self),
        ensures
            r@ == core_snapshot(*self, name@),
            snapshot_wf(r),
        decreases self,
    {
        let mut children: Vec<InstanceSnapshot> = Vec::new();
        let mut i: usize = 0;
        while i < self.children.len()
            invariant
                0 <= i <= self.children.len(),
                core_wf(*self),
                children.len() == i,
                forall|j: int|
                    0 <= j < i ==> children@[j]@ == core_snapshot(
                        self.children@[j].core,
                        self.children@[j].name@,
                    ),
                forall|j: int| 0 <= j < i ==> snapshot_wf(#[trigger] children@[j]),
            decreases self.children.len() - i,
        {
            assert(core_wf(self.children@[i as int].core));
            let child = self.children[i].core.into_snapshot(self.children[i].name.clone());
            children.push(child);
            i = i + 1;
        }
        let r = InstanceSnapshot {
            snapshot_id: None,
            metadata: InstanceMetadata::new(),
            name,
            class_name: self.class_name.clone(),
            properties: copy_props(&self.properties),
            children,
        };
        assert(r@.children =~= core_snapshot(*self, name@).children);
        r
    }
}

} // verus!
