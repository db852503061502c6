//! Bringing the live tree in line with a snapshot: computing the patch set
//! and applying it.

use vstd::prelude::*;
use crate::diff::{compute_into, numbered, patch_of};
use crate::instance::{find_in, insert_in, instantiated, remove_in, InstanceView};
use crate::patch::{add_views, patch_wf, update_views, AddView, AppliedPatchSet, PatchAdd, PatchSet, PatchUpdate, PatchView, UpdateView};
use crate::snapshot::{snapshot_size, snapshot_wf, InstanceSnapshot};
use crate::tree::RojoTree;
use crate::update::update_in;

verus! {

/// Computes the patch set that brings the instance with id `id`, and what
/// lies below it, in line with `snapshot`. Each addition is numbered by its
/// position among the additions.
pub fn compute_patch_set(snapshot: &InstanceSnapshot, tree: &RojoTree, id: u128) -> (r: PatchSet)
    requires
        tree.wf(),
        snapshot_wf(*snapshot),
        find_in(tree@, id).is_some(),
    ensures
        r@ == numbered(patch_of(snapshot@, find_in(tree@, id)->0)),
        patch_wf(r),
{
    let mut patch = PatchSet::new();
    match tree.get_instance(id) {
        Some(n) => {
            compute_into(snapshot, n, &mut patch);
        },
        None => {},
    }
    let ghost plain = patch@;
    proof {
        let p = patch_of(snapshot@, find_in(tree@, id)->0);
        assert(plain.removed =~= p.removed);
        assert(plain.added =~= p.added);
        assert(plain.updated =~= p.updated);
    }
    let mut i: usize = 0;
    while i < patch.added_instances.len()
        invariant
            0 <= i <= patch.added_instances.len(),
            patch_wf(patch),
            patch.removed_instances@ == plain.removed,
            update_views(patch.updated_instances@) == plain.updated,
            patch.added_instances.len() == plain.added.len(),
            forall|j: int|
                0 <= j < i ==> (#[trigger] patch.added_instances@[j])@ == (AddView {
                    provisional_id: j,
                    ..plain.added[j]
                }),
            forall|j: int|
                i <= j < patch.added_instances.len() ==> (#[trigger] patch.added_instances@[j])@
                    == plain.added[j],
        decreases patch.added_instances.len() - i,
    {
        let ghost before = patch.added_instances@;
        patch.added_instances[i].provisional_id = i;
        proof {
            assert forall|j: int| 0 <= j < patch.added_instances@.len() && j != i implies patch.added_instances@[j]
                == before[j] by {}
            assert(patch.added_instances@[i as int].instance == before[i as int].instance);
            assert(patch.added_instances@[i as int].parent_id == before[i as int].parent_id);
        }
        i = i + 1;
    }
    proof {
        assert(patch@.added =~= numbered(plain).added);
    }
    patch
}

/// The tree after the first `upto` removals.
pub open spec fn after_removals(n: InstanceView, ids: Seq<u128>, upto: int) -> InstanceView
    decreases upto,
{
    if 0 < upto <= ids.len() {
        remove_in(after_removals(n, ids, upto - 1), ids[upto - 1])
    } else {
        n
    }
}

/// The tree after the first `upto` updates. An update for an instance that
/// the tree does not hold changes nothing.
pub open spec fn after_updates(n: InstanceView, updates: Seq<UpdateView>, upto: int) -> InstanceView
    decreases upto,
{
    if 0 < upto <= updates.len() {
        let before = after_updates(n, updates, upto - 1);
        if find_in(before, updates[upto - 1].id).is_some() {
            update_in(before, updates[upto - 1])
        } else {
            before
        }
    } else {
        n
    }
}

/// A tree, the id that its next new instance receives, and the ids that
/// the additions made so far received.
pub struct Grown {
    pub tree: InstanceView,
    pub next: int,
    pub added: Seq<u128>,
}

/// Whether an addition can be made: the tree holds the parent, and ids are
/// left for every instance that the snapshot describes.
pub open spec fn can_add(tree: InstanceView, next: int, a: AddView) -> bool {
    find_in(tree, a.parent_id).is_some() && next + snapshot_size(a.instance) <= u128::MAX
}

/// The tree after the first `upto` additions. An addition that cannot be
/// made changes nothing.
pub open spec fn after_additions(start: Grown, adds: Seq<AddView>, upto: int) -> Grown
    decreases upto,
{
    if 0 < upto <= adds.len() {
        let before = after_additions(start, adds, upto - 1);
        let a = adds[upto - 1];
        if can_add(before.tree, before.next, a) {
            Grown {
                tree: insert_in(before.tree, a.parent_id, instantiated(a.instance, before.next)),
                next: before.next + snapshot_size(a.instance),
                added: before.added.push(before.next as u128),
            }
        } else {
            before
        }
    } else {
        start
    }
}

/// The tree after a patch set: the removals first, then the updates, then
/// the additions.
pub open spec fn after_patch(n: InstanceView, next: int, p: PatchView) -> Grown {
    after_additions(
        Grown {
            tree: after_updates(
                after_removals(n, p.removed, p.removed.len() as int),
                p.updated,
                p.updated.len() as int,
            ),
            next,
            added: Seq::empty(),
        },
        p.added,
        p.added.len() as int,
    )
}

/// Applies a patch set to the tree: the removals first, then the updates,
/// then the additions, so that a parent is there before its children.
///
/// Returns the patch set as it was applied: its removals and updates, and
/// the ids that the added instances received.
pub fn apply_patch_set(tree: &mut RojoTree, patch: PatchSet) -> (r: AppliedPatchSet)
    requires
        old(tree).wf(),
        patch_wf(patch),
    ensures
        final(tree).wf(),
        final(tree)@ == after_patch(old(tree)@, old(tree).next_id() as int, patch@).tree,
        final(tree).next_id() == after_patch(old(tree)@, old(tree).next_id() as int, patch@).next,
        r.added@ == after_patch(old(tree)@, old(tree).next_id() as int, patch@).added,
        r.removed@ == patch@.removed,
        update_views(r.updated@) == patch@.updated,
{
    let ghost start = tree@;
    let ghost p = patch@;
    let mut i: usize = 0;
    while i < patch.removed_instances.len()
        invariant
            0 <= i <= patch.removed_instances.len(),
            tree.wf(),
            tree.next_id() == old(tree).next_id(),
            tree@ == after_removals(start, patch.removed_instances@, i as int),
        decreases patch.removed_instances.len() - i,
    {
        tree.remove_instance(patch.removed_instances[i]);
        i = i + 1;
    }
    let ghost pruned = tree@;
    let mut j: usize = 0;
    while j < patch.updated_instances.len()
        invariant
            0 <= j <= patch.updated_instances.len(),
            tree.wf(),
            patch_wf(patch),
            tree.next_id() == old(tree).next_id(),
            p == patch@,
            tree@ == after_updates(pruned, p.updated, j as int),
        decreases patch.updated_instances.len() - j,
    {
        assert(p.updated[j as int] == patch.updated_instances@[j as int]@);
        tree.update_instance(&patch.updated_instances[j]);
        j = j + 1;
    }
    let ghost base = Grown { tree: tree@, next: tree.next_id() as int, added: Seq::empty() };
    let mut added: Vec<u128> = Vec::new();
    let mut k: usize = 0;
    while k < patch.added_instances.len()
        invariant
            0 <= k <= patch.added_instances.len(),
            tree.wf(),
            patch_wf(patch),
            p == patch@,
            tree@ == after_additions(base, p.added, k as int).tree,
            tree.next_id() == after_additions(base, p.added, k as int).next,
            added@ == after_additions(base, p.added, k as int).added,
        decreases patch.added_instances.len() - k,
    {
        assert(p.added[k as int] == patch.added_instances@[k as int]@);
        match tree.insert_instance(
            patch.added_instances[k].parent_id,
            &patch.added_instances[k].instance,
        ) {
            Some(id) => {
                added.push(id);
            },
            None => {},
        }
        k = k + 1;
    }
    AppliedPatchSet {
        removed: patch.removed_instances,
        added,
        updated: patch.updated_instances,
    }
}

} // verus!
