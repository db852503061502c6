//! The live tree: the instances under one root, the ids it hands out, and
//! the index from each path to the instances that name it.

use vstd::prelude::*;
use crate::ids::{count_id, ids_below, ids_unique, lemma_found_iff_counted, lemma_insert_count, lemma_instantiated_count, lemma_remove_count, lemma_update_count};
use crate::instance::{checked_size, child_ids, children_of, descendants_of, find_in, find_node, ids_upto, insert_in, insert_node, instance_wf, instantiate, instantiated, remove_in, remove_node, removed_below, Instance, InstanceView};
use crate::metadata::InstanceMetadata;
use crate::patch::{update_wf, PatchUpdate};
use crate::path::{components_of, relative_of};
use crate::path_index::{build_index, holder, ids_at, lemma_holder_is_found, lemma_listed_has_holder, list_at, no_empty_lists};
use crate::path_map::{descend_from, PathMap};
use crate::snapshot::{snapshot_size, snapshot_wf, InstanceSnapshot};
use crate::update::{update_in, update_node};
use crate::value::{prop_map, props_wf, Value};

verus! {

/// The instance tree of a session.
pub struct RojoTree {
    root: Instance,
    next_id: u128,
    path_index: PathMap<Vec<u128>>,
}

impl View for RojoTree {
    type V = InstanceView;

    closed spec fn view(&self) -> InstanceView {
        self.root@
    }
}

impl RojoTree {
    /// The id that the next new instance receives.
    pub closed spec fn next_id(&self) -> u128 {
        self.next_id
    }

    /// The ids that the path index holds for `p`, in document order.
    pub closed spec fn indexed(&self, p: Seq<char>) -> Seq<u128> {
        list_at(self.path_index.values(), p)
    }

    /// The paths that are entries of the path index.
    pub closed spec fn indexed_paths(&self) -> Set<Seq<char>> {
        self.path_index.values().dom()
    }

    /// Every instance is well-formed, no id occurs twice, every id is below
    /// the next one to hand out, and the path index holds, for each path,
    /// exactly the instances that name it.
    pub closed spec fn wf(&self) -> bool {
        &&& instance_wf(self.root)
        &&& ids_unique(self.root@)
        &&& ids_below(self.root@, self.next_id as int)
        &&& self.path_index.wf()
        &&& no_empty_lists(self.path_index.values())
        &&& forall|p: Seq<char>|
            #[trigger] list_at(self.path_index.values(), p) == ids_at(self.root@, p)
    }

    /// No id occurs twice in the tree, and every id is below the next one.
    pub proof fn lemma_ids(&self)
        requires
            self.wf(),
        ensures
            ids_unique(self@),
            ids_below(self@, self.next_id() as int),
    {
    }

    /// The path index lists, for each path, the instances that name it
    /// among their relevant paths, and has an entry exactly for the paths
    /// that some instance names.
    pub proof fn lemma_index_complete(&self, p: Seq<char>)
        requires
            self.wf(),
        ensures
            self.indexed(p) == ids_at(self@, p),
            self.indexed_paths().contains(p) <==> ids_at(self@, p).len() > 0,
    {
        assert(list_at(self.path_index.values(), p) == ids_at(self.root@, p));
    }

    /// Every id that the path index holds for a path is the id of an
    /// instance of the tree, and that instance names the path among its
    /// relevant paths.
    pub proof fn lemma_index_consistent(&self, p: Seq<char>, id: u128)
        requires
            self.wf(),
            self.indexed(p).contains(id),
        ensures
            find_in(self@, id).is_some(),
            find_in(self@, id)->0.id == id,
            find_in(self@, id)->0.metadata.relevant_paths.contains(p),
    {
        assert(list_at(self.path_index.values(), p) == ids_at(self.root@, p));
        lemma_listed_has_holder(self.root@, p, id);
        lemma_holder_is_found(self.root@, id, p);
    }

    /// Creates a tree that holds one instance, the root, with id 0.
    pub fn new(
        name: String,
        class_name: String,
        properties: Vec<(String, Value)>,
        metadata: InstanceMetadata,
    ) -> (r: RojoTree)
        requires
            props_wf(properties@),
            metadata@.consistent(),
        ensures
            r.wf(),
            r.next_id() == 1,
            r@ == (InstanceView {
                id: 0,
                name: name@,
                class_name: class_name@,
                properties: prop_map(properties@),
                metadata: metadata@,
                children: Seq::empty(),
            }),
    {
        let root = Instance { id: 0, name, class_name, properties, metadata, children: Vec::new() };
        assert(root@.children =~= Seq::<InstanceView>::empty());
        let path_index = build_index(&root);
        RojoTree { root, next_id: 1, path_index }
    }

    /// Returns the id of the root.
    pub fn get_root_id(&self) -> (r: u128)
        ensures
            r == self@.id,
    {
        self.root.id
    }

    /// Returns the instance with id `id`, if the tree holds it.
    pub fn get_instance(&self, id: u128) -> (r: Option<&Instance>)
        ensures
            match r {
                Some(x) => find_in(self@, id) == Some(x@) && x.id == id && (self.wf()
                    ==> instance_wf(*x)),
                None => find_in(self@, id).is_none(),
            },
    {
        find_node(&self.root, id)
    }

    /// Returns the ids of the children of the instance with id `id`, in
    /// order, if the tree holds it.
    pub fn children(&self, id: u128) -> (r: Option<Vec<u128>>)
        ensures
            match r {
                Some(v) => find_in(self@, id).is_some() && v@ == child_ids(find_in(self@, id)->0),
                None => find_in(self@, id).is_none(),
            },
    {
        match find_node(&self.root, id) {
            Some(x) => Some(children_of(x)),
            None => None,
        }
    }

    /// Returns the ids of the descendants of the instance with id `id`,
    /// each instance before its children; nothing where the tree does not
    /// hold it.
    pub fn descendants(&self, id: u128) -> (r: Vec<u128>)
        ensures
            r@ == match find_in(self@, id) {
                Some(x) => ids_upto(x, x.children.len() as int),
                None => Seq::empty(),
            },
    {
        match find_node(&self.root, id) {
            Some(x) => descendants_of(x),
            None => Vec::new(),
        }
    }

    /// Returns the ids of the instances that name `path` among their
    /// relevant paths, in document order.
    pub fn ids_at_path(&self, path: &str) -> (r: Vec<u128>)
        requires
            self.wf(),
        ensures
            r@ == ids_at(self@, path@),
    {
        let mut out: Vec<u128> = Vec::new();
        assert(list_at(self.path_index.values(), path@) == ids_at(self.root@, path@));
        match self.path_index.get(path) {
            Some(list) => {
                let mut i: usize = 0;
                while i < list.len()
                    invariant
                        0 <= i <= list.len(),
                        out@ == list@.subrange(0, i as int),
                    decreases list.len() - i,
                {
                    out.push(list[i]);
                    assert(out@ =~= list@.subrange(0, i + 1));
                    i = i + 1;
                }
                assert(out@ =~= list@);
            },
            None => {},
        }
        out
    }

    /// Walks from `start` toward `target` for as long as the next path is
    /// an entry of the path index, and returns the last path reached.
    pub fn descend(&self, start: &str, target: &str) -> (r: String)
        requires
            self.wf(),
            relative_of(start@, target@).is_some(),
        ensures
            r@ == descend_from(
                self.indexed_paths(),
                start@,
                components_of(relative_of(start@, target@)->0),
            ),
    {
        self.path_index.descend(start, target)
    }

    /// Adds the instances that `snapshot` describes below the instance with
    /// id `parent`, as its last child, with new ids.
    ///
    /// Returns the id of the new child. Nothing is added where the tree
    /// does not hold `parent`, or where the ids are used up.
    pub fn insert_instance(&mut self, parent: u128, snapshot: &InstanceSnapshot) -> (r: Option<
        u128,
    >)
        requires
            old(self).wf(),
            snapshot_wf(*snapshot),
        ensures
            final(self).wf(),
            match r {
                Some(id) => {
                    &&& find_in(old(self)@, parent).is_some()
                    &&& old(self).next_id() + snapshot_size(snapshot@) <= u128::MAX
                    &&& id == old(self).next_id()
                    &&& final(self)@ == insert_in(
                        old(self)@,
                        parent,
                        instantiated(snapshot@, id as int),
                    )
                    &&& final(self).next_id() == old(self).next_id() + snapshot_size(snapshot@)
                },
                None => {
                    &&& (find_in(old(self)@, parent).is_none() || old(self).next_id()
                        + snapshot_size(snapshot@) > u128::MAX)
                    &&& final(self)@ == old(self)@
                    &&& final(self).next_id() == old(self).next_id()
                },
            },
    {
        if find_node(&self.root, parent).is_none() {
            return None;
        }
        let size = match checked_size(snapshot, u128::MAX - self.next_id) {
            Some(size) => size,
            None => {
                return None;
            },
        };
        let id = self.next_id;
        let new = instantiate(snapshot, id);
        let ghost before = self.root@;
        let ghost made = new@;
        match insert_node(&mut self.root, parent, new) {
            None => {},
            Some(_) => {},
        }
        proof {
            assert forall|x: u128| #[trigger] count_id(self.root@, x) <= 1 && (x >= id + size
                ==> count_id(self.root@, x) == 0) by {
                lemma_insert_count(before, parent, made, x);
                lemma_instantiated_count(snapshot@, id as int, x);
                assert(count_id(before, x) <= 1);
                if x >= id {
                    assert(count_id(before, x) == 0);
                }
            }
        }
        self.next_id = id + size;
        self.path_index = build_index(&self.root);
        Some(id)
    }

    /// Removes the instance with id `id` and its descendants, and returns
    /// their ids, each instance before its children. The root stays.
    pub fn remove_instance(&mut self, id: u128) -> (r: Vec<u128>)
        requires
            old(self).wf(),
        ensures
            final(self).wf(),
            final(self)@ == remove_in(old(self)@, id),
            final(self).next_id() == old(self).next_id(),
            r@ == removed_below(old(self)@, id),
    {
        let mut removed: Vec<u128> = Vec::new();
        let ghost before = self.root@;
        remove_node(&mut self.root, id, &mut removed);
        proof {
            assert(Seq::<u128>::empty() + removed_below(before, id) =~= removed_below(before, id));
            assert forall|x: u128| #[trigger] count_id(self.root@, x) <= 1 && (x >= self.next_id
                ==> count_id(self.root@, x) == 0) by {
                lemma_remove_count(before, id, x);
                assert(count_id(before, x) <= 1);
                if x >= self.next_id {
                    assert(count_id(before, x) == 0);
                }
            }
        }
        self.path_index = build_index(&self.root);
        removed
    }

    /// Applies the update to the instance it is for. Returns whether the
    /// tree holds that instance; where it does not, nothing changes.
    pub fn update_instance(&mut self, update: &PatchUpdate) -> (r: bool)
        requires
            old(self).wf(),
            update_wf(*update),
        ensures
            final(self).wf(),
            r == find_in(old(self)@, update.id).is_some(),
            final(self)@ == (if r {
                update_in(old(self)@, update@)
            } else {
                old(self)@
            }),
            final(self).next_id() == old(self).next_id(),
    {
        let ghost before = self.root@;
        let found = update_node(&mut self.root, update);
        proof {
            assert forall|x: u128| #[trigger] count_id(self.root@, x) <= 1 && (x >= self.next_id
                ==> count_id(self.root@, x) == 0) by {
                lemma_update_count(before, update@, x);
                assert(count_id(before, x) <= 1);
                if x >= self.next_id {
                    assert(count_id(before, x) == 0);
                }
            }
        }
        self.path_index = build_index(&self.root);
        found
    }
}

} // verus!
