//! Snapshots whose children line up with the children of an instance, and
//! what the patch for such a snapshot names.

use vstd::prelude::*;
use crate::diff::{below, children_patch, first_free_match, lemma_first_free_match, lemma_match_skips_taken, lemma_removed_are_attended, match_of, patch_of, taken_upto, unmatched_ids, update_for};
use crate::ids::{count_id, count_upto, ids_unique};
use crate::ignore_unknown::lemma_attended_counted;
use crate::instance::{snapshot_of, InstanceView};
use crate::locality::{only_in_child, only_within};
use crate::patch::{AddView, PatchView, UpdateView};
use crate::path_index::lemma_child_count_bounded;
use crate::snapshot::SnapshotView;

verus! {

/// Whether the instance has the name and the class of the snapshot.
pub open spec fn same_kind(s: SnapshotView, c: InstanceView) -> bool {
    c.name == s.name && c.class_name == s.class_name
}

/// The first index at or after `j` at which the child of the snapshot and
/// the child of the instance are not of the same kind, or one of the two
/// lists ends.
pub open spec fn lead_from(s: SnapshotView, x: InstanceView, j: int) -> int
    decreases s.children.len() - j,
{
    if 0 <= j < s.children.len() && j < x.children.len() && same_kind(
        s.children[j],
        x.children[j],
    ) {
        lead_from(s, x, j + 1)
    } else {
        j
    }
}

/// The number of leading children of the snapshot that are of the same
/// kind as the child of the instance at the same position.
pub open spec fn lead(s: SnapshotView, x: InstanceView) -> int {
    lead_from(s, x, 0)
}

/// Whether no child of the snapshot at or after `m` is of the same kind as
/// a child of the instance at or after `m`.
pub open spec fn no_later_match(s: SnapshotView, x: InstanceView, m: int) -> bool {
    forall|j: int, i: int|
        m <= j < s.children.len() && m <= i < x.children.len() ==> !same_kind(
            #[trigger] s.children[j],
            #[trigger] x.children[i],
        )
}

/// Whether the children of the snapshot line up with the children of the
/// instance: the leading children are of the same kind pair by pair, and
/// line up in turn; no other child of the snapshot is of the kind of
/// another child of the instance; and an instance that ignores unknown
/// instances has no other child.
pub open spec fn aligned(s: SnapshotView, x: InstanceView) -> bool
    decreases s,
{
    let m = lead(s, x);
    &&& no_later_match(s, x, m)
    &&& (x.metadata.ignore_unknown_instances ==> m == x.children.len())
    &&& forall|j: int|
        0 <= j < m && j < s.children.len() ==> aligned(#[trigger] s.children[j], x.children[j])
}

/// The leading pairs are of the same kind, and there are no more of them
/// than either list holds.
pub proof fn lemma_lead_from(s: SnapshotView, x: InstanceView, j: int)
    requires
        0 <= j <= s.children.len(),
        j <= x.children.len(),
    ensures
        j <= lead_from(s, x, j) <= s.children.len(),
        lead_from(s, x, j) <= x.children.len(),
        forall|k: int|
            j <= k < lead_from(s, x, j) ==> same_kind(#[trigger] s.children[k], x.children[k]),
    decreases s.children.len() - j,
{
    if j < s.children.len() && j < x.children.len() && same_kind(s.children[j], x.children[j]) {
        lemma_lead_from(s, x, j + 1);
    }
}

/// With the children before `m` taken, a snapshot of the kind of no later
/// child has no free match.
pub proof fn lemma_no_free_match(s: SnapshotView, kids: Seq<InstanceView>, m: int, from: int)
    requires
        0 <= from,
        0 <= m,
        forall|i: int| m <= i < kids.len() ==> !same_kind(s, #[trigger] kids[i]),
    ensures
        first_free_match(s, kids, below(m), from) == -1,
    decreases kids.len() - from,
{
    if from < kids.len() {
        lemma_no_free_match(s, kids, m, from + 1);
    }
}

/// Where the children line up at the top, each leading child of the
/// snapshot is matched with the child of the instance at its position, and
/// no other child of the snapshot is matched.
pub proof fn lemma_aligned_matching(s: SnapshotView, x: InstanceView, k: int)
    requires
        no_later_match(s, x, lead(s, x)),
        0 <= k <= s.children.len(),
    ensures
        taken_upto(s, x, k) == below(if k < lead(s, x) {
            k
        } else {
            lead(s, x)
        }),
        k < s.children.len() ==> match_of(s, x, k) == (if k < lead(s, x) {
            k
        } else {
            -1
        }),
    decreases k,
{
    let m = lead(s, x);
    lemma_lead_from(s, x, 0);
    if k > 0 {
        lemma_aligned_matching(s, x, k - 1);
        if k - 1 < m {
            assert(taken_upto(s, x, k) =~= below(k));
        }
    } else {
        assert(taken_upto(s, x, k) =~= below(0));
    }
    if k < s.children.len() {
        if k < m {
            lemma_match_skips_taken(s.children[k], x.children, k, 0);
        } else {
            assert forall|i: int| m <= i < x.children.len() implies !same_kind(
                s.children[k],
                #[trigger] x.children[i],
            ) by {}
            lemma_no_free_match(s.children[k], x.children, m, 0);
        }
    }
}

/// Where the children line up at the top, the children of the instance
/// without a match are those at and after the lead.
pub proof fn lemma_aligned_unmatched(s: SnapshotView, x: InstanceView, upto: int)
    requires
        no_later_match(s, x, lead(s, x)),
        0 <= upto <= x.children.len(),
    ensures
        unmatched_ids(s, x, upto) == Seq::new(
            (if upto < lead(s, x) {
                0
            } else {
                upto - lead(s, x)
            }) as nat,
            |r: int| x.children[lead(s, x) + r].id,
        ),
    decreases upto,
{
    let m = lead(s, x);
    lemma_lead_from(s, x, 0);
    lemma_aligned_matching(s, x, s.children.len() as int);
    let wanted = Seq::new(
        (if upto < m {
            0
        } else {
            upto - m
        }) as nat,
        |r: int| x.children[m + r].id,
    );
    if upto > 0 {
        lemma_aligned_unmatched(s, x, upto - 1);
    }
    assert(unmatched_ids(s, x, upto) =~= wanted);
}

/// What a patch removes occurs below the top of the instance.
pub proof fn lemma_removed_below(s: SnapshotView, n: InstanceView, id: u128)
    requires
        patch_of(s, n).removed.contains(id),
    ensures
        count_upto(n, id, n.children.len() as int) >= 1,
{
    lemma_removed_are_attended(s, n, id);
    lemma_attended_counted(n, id);
}

/// What the patch for the first children updates occurs in the instance
/// below the top.
pub proof fn lemma_children_updated_counted(s: SnapshotView, n: InstanceView, upto: int, w: int)
    requires
        0 <= upto <= s.children.len(),
        0 <= w < children_patch(s, n, upto).updated.len(),
    ensures
        count_upto(n, children_patch(s, n, upto).updated[w].id, n.children.len() as int) >= 1,
    decreases s, upto,
{
    if upto > 0 {
        let before = children_patch(s, n, upto - 1);
        let m = match_of(s, n, upto - 1);
        if 0 <= m < n.children.len() {
            let sub = patch_of(s.children[upto - 1], n.children[m]);
            if w < before.updated.len() {
                lemma_children_updated_counted(s, n, upto - 1, w);
            } else {
                let v = w - before.updated.len();
                assert((before.updated + sub.updated)[w] == sub.updated[v]);
                lemma_updated_counted(s.children[upto - 1], n.children[m], v);
                lemma_child_count_bounded(n, sub.updated[v].id, m, n.children.len() as int);
            }
        } else {
            lemma_children_updated_counted(s, n, upto - 1, w);
        }
    }
}

/// What a patch updates occurs in the instance.
pub proof fn lemma_updated_counted(s: SnapshotView, n: InstanceView, w: int)
    requires
        0 <= w < patch_of(s, n).updated.len(),
    ensures
        count_id(n, patch_of(s, n).updated[w].id) >= 1,
    decreases s, s.children.len() + 1,
{
    let own = match update_for(s, n) {
        Some(u) => PatchView { updated: seq![u], ..PatchView::empty() },
        None => PatchView::empty(),
    };
    let sub = children_patch(s, n, s.children.len() as int);
    let all = own.updated + sub.updated;
    if w < own.updated.len() {
        assert(all[w] == own.updated[w]);
    } else {
        let v = w - own.updated.len();
        assert(all[w] == sub.updated[v]);
        lemma_children_updated_counted(s, n, s.children.len() as int, v);
    }
}

/// The parent of what the patch for the first children adds occurs in the
/// instance.
pub proof fn lemma_children_added_counted(s: SnapshotView, n: InstanceView, upto: int, w: int)
    requires
        0 <= upto <= s.children.len(),
        0 <= w < children_patch(s, n, upto).added.len(),
    ensures
        count_id(n, children_patch(s, n, upto).added[w].parent_id) >= 1,
    decreases s, upto,
{
    if upto > 0 {
        let before = children_patch(s, n, upto - 1);
        let m = match_of(s, n, upto - 1);
        if 0 <= m < n.children.len() {
            let sub = patch_of(s.children[upto - 1], n.children[m]);
            if w < before.added.len() {
                lemma_children_added_counted(s, n, upto - 1, w);
            } else {
                let v = w - before.added.len();
                assert((before.added + sub.added)[w] == sub.added[v]);
                lemma_added_counted(s.children[upto - 1], n.children[m], v);
                lemma_child_count_bounded(n, sub.added[v].parent_id, m, n.children.len() as int);
            }
        } else {
            if w < before.added.len() {
                lemma_children_added_counted(s, n, upto - 1, w);
            }
        }
    }
}

/// The parent of what a patch adds occurs in the instance.
pub proof fn lemma_added_counted(s: SnapshotView, n: InstanceView, w: int)
    requires
        0 <= w < patch_of(s, n).added.len(),
    ensures
        count_id(n, patch_of(s, n).added[w].parent_id) >= 1,
    decreases s, s.children.len() + 1,
{
    let sub = children_patch(s, n, s.children.len() as int);
    assert(patch_of(s, n).added =~= sub.added);
    lemma_children_added_counted(s, n, s.children.len() as int, w);
}

/// Where no id occurs twice, an id that occurs in a child occurs neither at
/// the top nor in another child.
pub proof fn lemma_unique_in_child(x: InstanceView, i: int, id: u128)
    requires
        ids_unique(x),
        0 <= i < x.children.len(),
        count_id(x.children[i], id) >= 1,
    ensures
        only_in_child(x, i, id),
{
    assert(count_id(x, id) <= 1);
    lemma_child_count_bounded(x, id, i, x.children.len() as int);
    assert forall|k: int| 0 <= k < x.children.len() && k != i implies count_id(
        #[trigger] x.children[k],
        id,
    ) == 0 by {
        if k < i {
            crate::ignore_unknown::lemma_two_children_counted(
                x,
                id,
                k,
                i,
                x.children.len() as int,
            );
        } else {
            crate::ignore_unknown::lemma_two_children_counted(
                x,
                id,
                i,
                k,
                x.children.len() as int,
            );
        }
    }
}

/// Where no id occurs twice, an id that occurs below the top of a child is
/// the id of no child, and occurs neither at the top nor in another child.
pub proof fn lemma_unique_within_child(x: InstanceView, i: int, id: u128)
    requires
        ids_unique(x),
        0 <= i < x.children.len(),
        count_upto(x.children[i], id, x.children[i].children.len() as int) >= 1,
    ensures
        only_within(x, i, id),
{
    lemma_unique_in_child(x, i, id);
    assert(count_id(x, id) <= 1);
    lemma_child_count_bounded(x, id, i, x.children.len() as int);
    assert(x.children[i].id != id);
}

/// Where no id occurs twice in an instance, none occurs twice in a child.
pub proof fn lemma_child_unique(x: InstanceView, i: int)
    requires
        ids_unique(x),
        0 <= i < x.children.len(),
    ensures
        ids_unique(x.children[i]),
{
    assert forall|id: u128| #[trigger] count_id(x.children[i], id) <= 1 by {
        lemma_child_count_bounded(x, id, i, x.children.len() as int);
        assert(count_id(x, id) <= 1);
    }
}

/// Against its own snapshot, every child of an instance is of the kind of
/// the child of the snapshot at its position.
pub proof fn lemma_own_lead(n: InstanceView, j: int)
    requires
        0 <= j <= n.children.len(),
    ensures
        lead_from(snapshot_of(n), n, j) == n.children.len(),
    decreases n.children.len() - j,
{
    reveal_with_fuel(snapshot_of, 2);
    if j < n.children.len() {
        assert(snapshot_of(n).children[j] == snapshot_of(n.children[j]));
        lemma_own_lead(n, j + 1);
    }
}

/// The snapshot of an instance lines up with the instance.
pub proof fn lemma_own_snapshot_aligned(n: InstanceView)
    ensures
        aligned(snapshot_of(n), n),
    decreases n,
{
    let s = snapshot_of(n);
    lemma_own_lead(n, 0);
    assert forall|j: int| 0 <= j < lead(s, n) && j < s.children.len() implies aligned(
        #[trigger] s.children[j],
        n.children[j],
    ) by {
        assert(s.children[j] == snapshot_of(n.children[j]));
        lemma_own_snapshot_aligned(n.children[j]);
    }
}

/// Every snapshot lines up with an instance without children.
pub proof fn lemma_childless_aligned(s: SnapshotView, x: InstanceView)
    requires
        x.children.len() == 0,
    ensures
        aligned(s, x),
{
    assert(lead(s, x) == 0);
}

} // verus!
