//! Instances that ignore unknown instances keep their children: no patch
//! removes a child of such an instance.

use vstd::prelude::*;
use crate::diff::{attended_child, lemma_removed_are_attended, patch_of};
use crate::ids::{count_id, count_upto, ids_unique};
use crate::instance::InstanceView;
use crate::path_index::lemma_child_count_bounded;
use crate::snapshot::SnapshotView;

verus! {

/// Whether `id` is the id of a child of an instance, among `n` and its
/// descendants, that ignores unknown instances.
pub open spec fn ignored_child(n: InstanceView, id: u128) -> bool
    decreases n,
{
    ||| (n.metadata.ignore_unknown_instances && exists|j: int|
        0 <= j < n.children.len() && #[trigger] n.children[j].id == id)
    ||| exists|j: int| 0 <= j < n.children.len() && ignored_child(#[trigger] n.children[j], id)
}

/// The counts of two different children are within the count of all
/// children.
pub proof fn lemma_two_children_counted(n: InstanceView, id: u128, j: int, k: int, upto: int)
    requires
        0 <= j < k < upto <= n.children.len(),
    ensures
        count_id(n.children[j], id) + count_id(n.children[k], id) <= count_upto(n, id, upto),
    decreases upto - k,
{
    if upto > k + 1 {
        lemma_two_children_counted(n, id, j, k, upto - 1);
    } else {
        lemma_child_count_bounded(n, id, j, k);
    }
}

/// The id of a child of an attending instance occurs below the top.
pub proof fn lemma_attended_counted(n: InstanceView, id: u128)
    requires
        attended_child(n, id),
    ensures
        count_upto(n, id, n.children.len() as int) >= 1,
    decreases n,
{
    if !n.metadata.ignore_unknown_instances && exists|j: int|
        0 <= j < n.children.len() && #[trigger] n.children[j].id == id {
        let j = choose|j: int| 0 <= j < n.children.len() && #[trigger] n.children[j].id == id;
        lemma_child_count_bounded(n, id, j, n.children.len() as int);
    } else {
        let j = choose|j: int|
            0 <= j < n.children.len() && attended_child(#[trigger] n.children[j], id);
        lemma_attended_counted(n.children[j], id);
        lemma_child_count_bounded(n, id, j, n.children.len() as int);
    }
}

/// The id of a child of an ignoring instance occurs below the top.
proof fn lemma_ignored_counted(n: InstanceView, id: u128)
    requires
        ignored_child(n, id),
    ensures
        count_upto(n, id, n.children.len() as int) >= 1,
    decreases n,
{
    if n.metadata.ignore_unknown_instances && exists|j: int|
        0 <= j < n.children.len() && #[trigger] n.children[j].id == id {
        let j = choose|j: int| 0 <= j < n.children.len() && #[trigger] n.children[j].id == id;
        lemma_child_count_bounded(n, id, j, n.children.len() as int);
    } else {
        let j = choose|j: int|
            0 <= j < n.children.len() && ignored_child(#[trigger] n.children[j], id);
        lemma_ignored_counted(n.children[j], id);
        lemma_child_count_bounded(n, id, j, n.children.len() as int);
    }
}

/// What two children hold, or one child holds twice, the instance holds
/// twice.
proof fn lemma_counted_twice(n: InstanceView, id: u128, j: int, k: int)
    requires
        0 <= j < n.children.len(),
        0 <= k < n.children.len(),
        j != k ==> count_id(n.children[j], id) >= 1 && count_id(n.children[k], id) >= 1,
        j == k ==> count_id(n.children[j], id) >= 2,
    ensures
        count_upto(n, id, n.children.len() as int) >= 2,
{
    if j == k {
        lemma_child_count_bounded(n, id, j, n.children.len() as int);
    } else if j < k {
        lemma_two_children_counted(n, id, j, k, n.children.len() as int);
    } else {
        lemma_two_children_counted(n, id, k, j, n.children.len() as int);
    }
}

/// An id that is the id of a child of an attending instance and of a child
/// of an ignoring instance occurs twice.
proof fn lemma_attended_and_ignored_twice(n: InstanceView, id: u128)
    requires
        attended_child(n, id),
        ignored_child(n, id),
    ensures
        count_upto(n, id, n.children.len() as int) >= 2,
    decreases n,
{
    let attends_here = !n.metadata.ignore_unknown_instances && exists|j: int|
        0 <= j < n.children.len() && #[trigger] n.children[j].id == id;
    let ignores_here = n.metadata.ignore_unknown_instances && exists|j: int|
        0 <= j < n.children.len() && #[trigger] n.children[j].id == id;
    if attends_here {
        let j = choose|j: int| 0 <= j < n.children.len() && #[trigger] n.children[j].id == id;
        let k = choose|k: int|
            0 <= k < n.children.len() && ignored_child(#[trigger] n.children[k], id);
        lemma_ignored_counted(n.children[k], id);
        lemma_counted_twice(n, id, j, k);
    } else if ignores_here {
        let j = choose|j: int| 0 <= j < n.children.len() && #[trigger] n.children[j].id == id;
        let k = choose|k: int|
            0 <= k < n.children.len() && attended_child(#[trigger] n.children[k], id);
        lemma_attended_counted(n.children[k], id);
        lemma_counted_twice(n, id, j, k);
    } else {
        let j = choose|j: int|
            0 <= j < n.children.len() && attended_child(#[trigger] n.children[j], id);
        let k = choose|k: int|
            0 <= k < n.children.len() && ignored_child(#[trigger] n.children[k], id);
        lemma_attended_counted(n.children[j], id);
        lemma_ignored_counted(n.children[k], id);
        if j == k {
            lemma_attended_and_ignored_twice(n.children[j], id);
        }
        lemma_counted_twice(n, id, j, k);
    }
}

/// Where no id occurs twice, no patch removes a child of an instance that
/// ignores unknown instances.
pub proof fn lemma_ignored_children_stay(s: SnapshotView, n: InstanceView, id: u128)
    requires
        ids_unique(n),
        ignored_child(n, id),
    ensures
        !patch_of(s, n).removed.contains(id),
{
    if patch_of(s, n).removed.contains(id) {
        lemma_removed_are_attended(s, n, id);
        lemma_attended_and_ignored_twice(n, id);
        assert(count_id(n, id) <= 1);
    }
}

} // verus!
