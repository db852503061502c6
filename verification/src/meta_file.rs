//! Meta files: a file beside another one that overrides the class, sets
//! properties and says whether unknown instances are ignored.

use vstd::prelude::*;
use crate::snapshot::{snapshot_wf, InstanceSnapshot, SnapshotView};
use crate::value::{find_prop, lemma_prop_push, lemma_prop_set, prop_map, props_wf, Value, ValueView};

verus! {

/// What a meta file holds.
#[derive(Debug, PartialEq, Eq)]
pub struct MetaFile {
    pub class_name: Option<String>,
    pub properties: Vec<(String, Value)>,
    pub ignore_unknown_instances: Option<bool>,
}

/// The properties `base` with the first `upto` pairs of `over` set, one
/// after the other: where a name occurs twice, the later pair stands.
pub open spec fn overlaid(
    base: Map<Seq<char>, ValueView>,
    over: Seq<(String, Value)>,
    upto: int,
) -> Map<Seq<char>, ValueView>
    decreases upto,
{
    if 0 < upto <= over.len() {
        overlaid(base, over, upto - 1).insert(over[upto - 1].0@, over[upto - 1].1@)
    } else {
        base
    }
}

/// The properties `base` with the first `upto` pairs of `over` set, one
/// after the other.
pub open spec fn overlaid_pairs(
    base: Map<Seq<char>, ValueView>,
    over: Seq<(Seq<char>, ValueView)>,
    upto: int,
) -> Map<Seq<char>, ValueView>
    decreases upto,
{
    if 0 < upto <= over.len() {
        overlaid_pairs(base, over, upto - 1).insert(over[upto - 1].0, over[upto - 1].1)
    } else {
        base
    }
}

/// Setting the pairs of a property list is setting their views.
pub proof fn lemma_overlaid_pairs(
    base: Map<Seq<char>, ValueView>,
    over: Seq<(String, Value)>,
    upto: int,
)
    ensures
        overlaid(base, over, upto) == overlaid_pairs(base, crate::value::prop_pairs(over), upto),
    decreases upto,
{
    if 0 < upto <= over.len() {
        lemma_overlaid_pairs(base, over, upto - 1);
    }
}

/// The snapshot with the meta file applied: the class where the file names
/// one, the file's properties over the snapshot's, and the flag where the
/// file sets it.
pub open spec fn with_meta(s: SnapshotView, m: MetaFile) -> SnapshotView {
    SnapshotView {
        class_name: match m.class_name {
            Some(c) => c@,
            None => s.class_name,
        },
        properties: overlaid(s.properties, m.properties@, m.properties@.len() as int),
        metadata: crate::metadata::InstanceMetadataView {
            ignore_unknown_instances: match m.ignore_unknown_instances {
                Some(b) => b,
                None => s.metadata.ignore_unknown_instances,
            },
            ..s.metadata
        },
        ..s
    }
}

/// Sets each pair of `over` in `props`, one after the other.
pub fn overlay_props(props: &mut Vec<(String, Value)>, over: &Vec<(String, Value)>)
    requires
        props_wf(old(props)@),
    ensures
        props_wf(final(props)@),
        prop_map(final(props)@) == overlaid(prop_map(old(props)@), over@, over@.len() as int),
{
    let ghost base = prop_map(props@);
    let mut i: usize = 0;
    while i < over.len()
        invariant
            0 <= i <= over.len(),
            props_wf(props@),
            prop_map(props@) == overlaid(base, over@, i as int),
        decreases over.len() - i,
    {
        let fresh = (over[i].0.clone(), over[i].1.clone());
        match find_prop(props, over[i].0.as_str()) {
            Some(j) => {
                proof {
                    lemma_prop_set(props@, j as int, fresh);
                }
                props.set(j, fresh);
            },
            None => {
                proof {
                    lemma_prop_push(props@, fresh);
                }
                props.push(fresh);
            },
        }
        i = i + 1;
    }
}

impl MetaFile {
    /// Applies the meta file to a snapshot.
    pub fn apply(&self, snapshot: &mut InstanceSnapshot)
        requires
            snapshot_wf(*old(snapshot)),
        ensures
            snapshot_wf(*final(snapshot)),
            final(snapshot)@ == with_meta(old(snapshot)@, *self),
    {
        match &self.class_name {
            Some(c) => {
                snapshot.class_name = c.clone();
            },
            None => {},
        }
        overlay_props(&mut snapshot.properties, &self.properties);
        match self.ignore_unknown_instances {
            Some(b) => {
                snapshot.metadata.ignore_unknown_instances = b;
            },
            None => {},
        }
        assert(snapshot@.children =~= old(snapshot)@.children);
    }
}

} // verus!
