//! A patch for an instance within a tree changes that instance alone, and
//! changes it as it would change it by itself.

use vstd::prelude::*;
use crate::aligned::{aligned, lemma_added_counted, lemma_child_unique, lemma_removed_below, lemma_unique_in_child, lemma_unique_within_child, lemma_updated_counted};
use crate::diff::{numbered, patch_of};
use crate::ids::{count_id, count_upto, ids_below, ids_unique, lemma_found_iff_counted};
use crate::instance::{find_in, find_upto, InstanceView};
use crate::locality::{lemma_additions_within, lemma_found_within, lemma_removals_keep_top, lemma_removals_within, lemma_updates_keep_id, lemma_updates_within, only_in_child, only_within, with_child_at};
use crate::patch::PatchView;
use crate::path_index::lemma_child_count_bounded;
use crate::phases::lemma_additions_keep_id;
use crate::reconcile::{after_additions, after_patch, after_removals, after_updates, Grown};
use crate::round_trip::{lemma_aligned_round_trip, lemma_numbers_are_neutral, shape_of};
use crate::snapshot::{snapshot_size, without_ids, SnapshotView};
use crate::tree::RojoTree;

verus! {

/// Index of the child among the first `upto` in which `id` is found first,
/// or `-1`.
pub open spec fn child_with(n: InstanceView, id: u128, upto: int) -> int
    decreases upto,
{
    if 0 < upto <= n.children.len() {
        let before = child_with(n, id, upto - 1);
        if before >= 0 {
            before
        } else if find_in(n.children[upto - 1], id).is_some() {
            upto - 1
        } else {
            -1
        }
    } else {
        -1
    }
}

/// What is found among the first children is found in the child in which
/// it is found first.
pub proof fn lemma_child_with(n: InstanceView, id: u128, upto: int)
    requires
        0 <= upto <= n.children.len(),
    ensures
        -1 <= child_with(n, id, upto) < upto,
        find_upto(n, id, upto).is_some() <==> child_with(n, id, upto) >= 0,
        child_with(n, id, upto) >= 0 ==> find_upto(n, id, upto) == find_in(
            n.children[child_with(n, id, upto)],
            id,
        ),
    decreases upto,
{
    if upto > 0 {
        lemma_child_with(n, id, upto - 1);
    }
}

/// Whether every id that the patch names occurs in `x`, what it removes
/// below the top of `x`.
pub open spec fn concerns(p: PatchView, x: InstanceView) -> bool {
    &&& forall|w: int|
        0 <= w < p.removed.len() ==> count_upto(
            x,
            #[trigger] p.removed[w],
            x.children.len() as int,
        ) >= 1
    &&& forall|w: int| 0 <= w < p.updated.len() ==> count_id(x, (#[trigger] p.updated[w]).id) >= 1
    &&& forall|w: int|
        0 <= w < p.added.len() ==> count_id(x, (#[trigger] p.added[w]).parent_id) >= 1
}

/// An instance that is found within another holds no id more often than
/// the other, and what occurs below its top occurs below the top of the
/// other.
pub proof fn lemma_subtree_count(n: InstanceView, r: u128, id: u128)
    requires
        find_in(n, r).is_some(),
    ensures
        count_id(find_in(n, r)->0, id) <= count_id(n, id),
        count_upto(find_in(n, r)->0, id, find_in(n, r)->0.children.len() as int) <= count_upto(
            n,
            id,
            n.children.len() as int,
        ),
    decreases n,
{
    if n.id != r {
        lemma_child_with(n, r, n.children.len() as int);
        let i = child_with(n, r, n.children.len() as int);
        lemma_subtree_count(n.children[i], r, id);
        lemma_child_count_bounded(n, id, i, n.children.len() as int);
    }
}

/// The patch keeps the id of the instance that it is applied to.
pub proof fn lemma_patch_keeps_id(n: InstanceView, next: int, p: PatchView)
    ensures
        after_patch(n, next, p).tree.id == n.id,
{
    let pruned = after_removals(n, p.removed, p.removed.len() as int);
    lemma_removals_keep_top(n, p.removed, p.removed.len() as int);
    lemma_updates_keep_id(pruned, p.updated, p.updated.len() as int);
    let updated = after_updates(pruned, p.updated, p.updated.len() as int);
    lemma_additions_keep_id(
        Grown { tree: updated, next, added: Seq::empty() },
        p.added,
        p.added.len() as int,
    );
}

/// A patch that concerns an instance within a tree without an id that
/// occurs twice changes that instance as it changes it by itself, and
/// nothing else: the instance is found where it was, and has received the
/// same ids.
pub proof fn lemma_patch_within(t: InstanceView, r: u128, next: int, p: PatchView)
    requires
        ids_unique(t),
        find_in(t, r).is_some(),
        concerns(p, find_in(t, r)->0),
    ensures
        find_in(after_patch(t, next, p).tree, r) == Some(
            after_patch(find_in(t, r)->0, next, p).tree,
        ),
        after_patch(t, next, p).next == after_patch(find_in(t, r)->0, next, p).next,
        after_patch(t, next, p).added == after_patch(find_in(t, r)->0, next, p).added,
    decreases t,
{
    let x = find_in(t, r)->0;
    if t.id == r {
        lemma_patch_keeps_id(t, next, p);
    } else {
        let len = t.children.len() as int;
        lemma_child_with(t, r, len);
        let i = child_with(t, r, len);
        let child = t.children[i];
        assert(find_in(child, r) == Some(x));
        lemma_child_unique(t, i);
        lemma_found_iff_counted(child, r);
        lemma_unique_in_child(t, i, r);
        assert forall|w: int| 0 <= w < p.removed.len() implies only_within(
            t,
            i,
            #[trigger] p.removed[w],
        ) by {
            lemma_subtree_count(child, r, p.removed[w]);
            lemma_unique_within_child(t, i, p.removed[w]);
        }
        assert forall|w: int| 0 <= w < p.updated.len() implies only_in_child(
            t,
            i,
            (#[trigger] p.updated[w]).id,
        ) by {
            lemma_subtree_count(child, r, p.updated[w].id);
            lemma_unique_in_child(t, i, p.updated[w].id);
        }
        assert forall|w: int| 0 <= w < p.added.len() implies only_in_child(
            t,
            i,
            (#[trigger] p.added[w]).parent_id,
        ) by {
            lemma_subtree_count(child, r, p.added[w].parent_id);
            lemma_unique_in_child(t, i, p.added[w].parent_id);
        }
        lemma_removals_within(t, i, p.removed, p.removed.len() as int);
        let pruned_child = after_removals(child, p.removed, p.removed.len() as int);
        let pruned = with_child_at(t, i, pruned_child);
        assert forall|w: int| 0 <= w < p.updated.len() implies only_in_child(
            pruned,
            i,
            (#[trigger] p.updated[w]).id,
        ) by {
            assert(only_in_child(t, i, p.updated[w].id));
            assert forall|k: int| 0 <= k < pruned.children.len() && k != i implies count_id(
                #[trigger] pruned.children[k],
                p.updated[w].id,
            ) == 0 by {
                assert(pruned.children[k] == t.children[k]);
            }
        }
        lemma_updates_within(pruned, i, p.updated, p.updated.len() as int);
        let updated_child = after_updates(pruned_child, p.updated, p.updated.len() as int);
        let updated = with_child_at(pruned, i, updated_child);
        assert(updated.children =~= t.children.update(i, updated_child));
        assert forall|w: int| 0 <= w < p.added.len() implies only_in_child(
            updated,
            i,
            (#[trigger] p.added[w]).parent_id,
        ) by {
            assert(only_in_child(t, i, p.added[w].parent_id));
            assert forall|k: int| 0 <= k < updated.children.len() && k != i implies count_id(
                #[trigger] updated.children[k],
                p.added[w].parent_id,
            ) == 0 by {
                assert(updated.children[k] == t.children[k]);
            }
        }
        lemma_additions_within(
            updated,
            i,
            next,
            Seq::<u128>::empty(),
            p.added,
            p.added.len() as int,
        );
        let part = after_patch(child, next, p);
        let whole = after_patch(t, next, p);
        assert(whole.tree == with_child_at(updated, i, part.tree));
        assert(Seq::<u128>::empty() + part.added =~= part.added);
        assert forall|k: int| 0 <= k < whole.tree.children.len() && k != i implies count_id(
            #[trigger] whole.tree.children[k],
            r,
        ) == 0 by {
            assert(whole.tree.children[k] == t.children[k]);
        }
        lemma_found_within(whole.tree, i, r);
        lemma_patch_within(child, r, next, p);
    }
}

/// The patch for a snapshot concerns the instance that it was computed
/// for, numbered or not.
pub proof fn lemma_patch_concerns(s: SnapshotView, x: InstanceView)
    ensures
        concerns(patch_of(s, x), x),
        concerns(numbered(patch_of(s, x)), x),
{
    let p = patch_of(s, x);
    assert forall|w: int| 0 <= w < p.removed.len() implies count_upto(
        x,
        #[trigger] p.removed[w],
        x.children.len() as int,
    ) >= 1 by {
        assert(p.removed.contains(p.removed[w]));
        lemma_removed_below(s, x, p.removed[w]);
    }
    assert forall|w: int| 0 <= w < p.updated.len() implies count_id(
        x,
        (#[trigger] p.updated[w]).id,
    ) >= 1 by {
        lemma_updated_counted(s, x, w);
    }
    assert forall|w: int| 0 <= w < p.added.len() implies count_id(
        x,
        (#[trigger] p.added[w]).parent_id,
    ) >= 1 by {
        lemma_added_counted(s, x, w);
    }
    assert forall|w: int| 0 <= w < numbered(p).added.len() implies count_id(
        x,
        (#[trigger] numbered(p).added[w]).parent_id,
    ) >= 1 by {
        assert(numbered(p).added[w].parent_id == p.added[w].parent_id);
    }
}

/// Applying the patch set that was computed for a snapshot against an
/// instance of a tree gives a tree in which that instance has the shape
/// of the snapshot: its snapshot is that snapshot, the ids apart.
///
/// This holds where the children of the snapshot line up with the
/// children of the instance, no id occurs twice in the tree, every id of
/// the tree is below the next one, and ids are left for every instance
/// that the snapshot describes.
pub proof fn lemma_round_trip_within(t: InstanceView, r: u128, next: int, s: SnapshotView)
    requires
        ids_unique(t),
        ids_below(t, next),
        0 <= next,
        find_in(t, r).is_some(),
        aligned(s, find_in(t, r)->0),
        next + snapshot_size(s) <= u128::MAX,
    ensures
        find_in(after_patch(t, next, numbered(patch_of(s, find_in(t, r)->0))).tree, r).is_some(),
        shape_of(
            find_in(after_patch(t, next, numbered(patch_of(s, find_in(t, r)->0))).tree, r)->0,
        ) == without_ids(s),
{
    let x = find_in(t, r)->0;
    let p = patch_of(s, x);
    lemma_patch_concerns(s, x);
    lemma_patch_within(t, r, next, numbered(p));
    assert forall|id: u128| #[trigger] count_id(x, id) <= 1 && (id >= next ==> count_id(x, id)
        == 0) by {
        lemma_subtree_count(t, r, id);
        assert(count_id(t, id) <= 1);
        if id >= next {
            assert(count_id(t, id) == 0);
        }
    }
    lemma_aligned_round_trip(s, x, next);
    let start = Grown {
        tree: after_updates(
            after_removals(x, p.removed, p.removed.len() as int),
            p.updated,
            p.updated.len() as int,
        ),
        next,
        added: Seq::<u128>::empty(),
    };
    lemma_numbers_are_neutral(start, numbered(p).added, p.added, p.added.len() as int);
}

/// Applying to a tree the patch set that was computed for a snapshot
/// against one of its instances gives that instance the shape of the
/// snapshot, where the children of the snapshot line up with the children
/// of the instance and ids are left for every instance that the snapshot
/// describes.
pub proof fn lemma_tree_round_trip(tree: &RojoTree, r: u128, s: SnapshotView)
    requires
        tree.wf(),
        find_in(tree@, r).is_some(),
        aligned(s, find_in(tree@, r)->0),
        tree.next_id() + snapshot_size(s) <= u128::MAX,
    ensures
        find_in(
            after_patch(
                tree@,
                tree.next_id() as int,
                numbered(patch_of(s, find_in(tree@, r)->0)),
            ).tree,
            r,
        ).is_some(),
        shape_of(
            find_in(
                after_patch(
                    tree@,
                    tree.next_id() as int,
                    numbered(patch_of(s, find_in(tree@, r)->0)),
                ).tree,
                r,
            )->0,
        ) == without_ids(s),
{
    tree.lemma_ids();
    lemma_round_trip_within(tree@, r, tree.next_id() as int, s);
}

} // verus!
