//! The three phases of applying the patch for a snapshot whose children
//! line up with the children of the instance: what the instance looks like
//! after the removals, after the updates, and after the additions.

use vstd::prelude::*;
use crate::aligned::{lead, lemma_added_counted, lemma_aligned_matching, lemma_aligned_unmatched, lemma_lead_from, lemma_removed_below, lemma_unique_in_child, lemma_unique_within_child, lemma_updated_counted, no_later_match};
use crate::diff::{children_patch, match_of, patch_of, unmatched_ids, update_for};
use crate::ids::{count_id, ids_below, ids_unique, lemma_insert_count, lemma_instantiated_count};
use crate::instance::{find_in, insert_in, instantiated, kept_upto, lemma_children_size_monotone, remove_in, InstanceView};
use crate::locality::{lemma_additions_joined, lemma_additions_prefix, lemma_additions_within, lemma_remove_absent, lemma_removals_count, lemma_removals_joined, lemma_removals_keep_top, lemma_removals_within, lemma_updates_count, lemma_updates_joined, lemma_updates_keep_id, lemma_updates_within, only_in_child, only_within};
use crate::patch::{AddView, PatchView, UpdateView};
use crate::path_index::lemma_child_count_bounded;
use crate::reconcile::{after_additions, after_removals, after_updates, can_add, Grown};
use crate::snapshot::{children_size, snapshot_size, SnapshotView};
use crate::update::{apply_update, update_in};

verus! {

/// The child at `j` after the removals of the patch for it and the child
/// of the snapshot at `j`.
pub open spec fn pruned_child(s: SnapshotView, x: InstanceView, j: int) -> InstanceView {
    let sub = patch_of(s.children[j], x.children[j]);
    after_removals(x.children[j], sub.removed, sub.removed.len() as int)
}

/// The children of `x`, the first `k` of them pruned.
pub open spec fn pruned_children(s: SnapshotView, x: InstanceView, k: int) -> Seq<InstanceView> {
    Seq::new(
        x.children.len(),
        |i: int|
            if i < k {
                pruned_child(s, x, i)
            } else {
                x.children[i]
            },
    )
}

/// After the lead, the patch for the children removes and updates nothing
/// more.
pub proof fn lemma_after_lead_same(s: SnapshotView, x: InstanceView, k: int)
    requires
        no_later_match(s, x, lead(s, x)),
        lead(s, x) <= k <= s.children.len(),
    ensures
        children_patch(s, x, k).removed == children_patch(s, x, lead(s, x)).removed,
        children_patch(s, x, k).updated == children_patch(s, x, lead(s, x)).updated,
    decreases k,
{
    lemma_lead_from(s, x, 0);
    if k > lead(s, x) {
        lemma_after_lead_same(s, x, k - 1);
        lemma_aligned_matching(s, x, k - 1);
    }
}

/// Up to the lead, the patch for the children is the patches of the pairs,
/// one after the other.
pub proof fn lemma_upto_lead(s: SnapshotView, x: InstanceView, k: int)
    requires
        no_later_match(s, x, lead(s, x)),
        0 < k <= lead(s, x),
    ensures
        k <= s.children.len(),
        k <= x.children.len(),
        children_patch(s, x, k) == children_patch(s, x, k - 1).concat(
            patch_of(s.children[k - 1], x.children[k - 1]),
        ),
{
    lemma_lead_from(s, x, 0);
    lemma_aligned_matching(s, x, k - 1);
}

/// After the removals that the patch for the first `k` pairs names, the
/// first `k` children are pruned and nothing else has changed.
pub proof fn lemma_removals_nested(s: SnapshotView, x: InstanceView, k: int)
    requires
        ids_unique(x),
        no_later_match(s, x, lead(s, x)),
        0 <= k <= lead(s, x),
    ensures
        after_removals(
            x,
            children_patch(s, x, k).removed,
            children_patch(s, x, k).removed.len() as int,
        ) == (InstanceView { children: pruned_children(s, x, k), ..x }),
    decreases k,
{
    lemma_lead_from(s, x, 0);
    if k > 0 {
        lemma_removals_nested(s, x, k - 1);
        lemma_upto_lead(s, x, k);
        let before = children_patch(s, x, k - 1).removed;
        let sub = patch_of(s.children[k - 1], x.children[k - 1]).removed;
        let mid = InstanceView { children: pruned_children(s, x, k - 1), ..x };
        lemma_removals_joined(x, before, sub, sub.len() as int);
        assert forall|w: int| 0 <= w < sub.len() implies only_within(
            mid,
            k - 1,
            #[trigger] sub[w],
        ) by {
            let id = sub[w];
            assert(sub.contains(id));
            lemma_removed_below(s.children[k - 1], x.children[k - 1], id);
            lemma_unique_within_child(x, k - 1, id);
            assert forall|i: int| 0 <= i < mid.children.len() implies (
            #[trigger] mid.children[i]).id != id by {
                assert(x.children[i].id != id);
                if i < k - 1 {
                    let own = patch_of(s.children[i], x.children[i]).removed;
                    lemma_removals_keep_top(x.children[i], own, own.len() as int);
                }
            }
            assert forall|i: int| 0 <= i < mid.children.len() && i != k - 1 implies count_id(
                #[trigger] mid.children[i],
                id,
            ) == 0 by {
                assert(count_id(x.children[i], id) == 0);
                if i < k - 1 {
                    let own = patch_of(s.children[i], x.children[i]).removed;
                    lemma_removals_count(x.children[i], own, own.len() as int, id);
                }
            }
        }
        lemma_removals_within(mid, k - 1, sub, sub.len() as int);
        assert(mid.children.update(k - 1, pruned_child(s, x, k - 1)) =~= pruned_children(
            s,
            x,
            k,
        ));
    } else {
        assert(pruned_children(s, x, 0) =~= x.children);
    }
}

/// Removing the id of a child that occurs nowhere else takes out that
/// child, over the first children.
pub proof fn lemma_remove_direct_upto(n: InstanceView, p: int, upto: int)
    requires
        0 <= p < n.children.len(),
        forall|k: int|
            0 <= k < n.children.len() && k != p ==> count_id(
                #[trigger] n.children[k],
                n.children[p].id,
            ) == 0,
        0 <= upto <= n.children.len(),
    ensures
        kept_upto(n, n.children[p].id, upto) == (if upto <= p {
            n.children.subrange(0, upto)
        } else {
            n.children.remove(p).subrange(0, upto - 1)
        }),
    decreases upto,
{
    let id = n.children[p].id;
    if upto > 0 {
        lemma_remove_direct_upto(n, p, upto - 1);
        let child = n.children[upto - 1];
        if upto - 1 != p {
            assert(count_id(child, id) == 0);
            lemma_remove_absent(child, id);
            assert(child.id != id);
        }
        if upto - 1 < p {
            assert(n.children.subrange(0, upto) =~= n.children.subrange(0, upto - 1).push(child));
        } else if upto - 1 == p {
            assert(n.children.remove(p).subrange(0, upto - 1) =~= n.children.subrange(
                0,
                upto - 1,
            ));
        } else {
            assert(n.children.remove(p).subrange(0, upto - 1) =~= n.children.remove(p).subrange(
                0,
                upto - 2,
            ).push(child));
        }
    } else {
        assert(n.children.subrange(0, 0) =~= Seq::<InstanceView>::empty());
    }
}

/// Removing the id of a child that occurs nowhere else takes out that
/// child.
pub proof fn lemma_remove_direct(n: InstanceView, p: int)
    requires
        0 <= p < n.children.len(),
        forall|k: int|
            0 <= k < n.children.len() && k != p ==> count_id(
                #[trigger] n.children[k],
                n.children[p].id,
            ) == 0,
    ensures
        remove_in(n, n.children[p].id) == (InstanceView { children: n.children.remove(p), ..n }),
{
    lemma_remove_direct_upto(n, p, n.children.len() as int);
    assert(n.children.remove(p).subrange(0, n.children.len() - 1) =~= n.children.remove(p));
}

/// Removing the ids of the children from `m` on, each of which occurs
/// nowhere else, leaves the children before `m`.
pub proof fn lemma_remove_tail(n: InstanceView, m: int, ids: Seq<u128>, r: int)
    requires
        0 <= m <= n.children.len(),
        ids.len() == n.children.len() - m,
        forall|w: int| 0 <= w < ids.len() ==> #[trigger] ids[w] == n.children[m + w].id,
        forall|i: int, k: int|
            m <= i < n.children.len() && 0 <= k < n.children.len() && k != i ==> count_id(
                #[trigger] n.children[k],
                (#[trigger] n.children[i]).id,
            ) == 0,
        0 <= r <= ids.len(),
    ensures
        after_removals(n, ids, r) == (InstanceView {
            children: n.children.subrange(0, m) + n.children.subrange(
                m + r,
                n.children.len() as int,
            ),
            ..n
        }),
    decreases r,
{
    let len = n.children.len() as int;
    if r > 0 {
        lemma_remove_tail(n, m, ids, r - 1);
        let rest = n.children.subrange(0, m) + n.children.subrange(m + r - 1, len);
        let before = InstanceView { children: rest, ..n };
        assert(rest[m] == n.children[m + r - 1]);
        assert forall|k: int| 0 <= k < rest.len() && k != m implies count_id(
            #[trigger] rest[k],
            rest[m].id,
        ) == 0 by {
            if k < m {
                assert(rest[k] == n.children[k]);
            } else {
                assert(rest[k] == n.children[k + r - 1]);
            }
        }
        lemma_remove_direct(before, m);
        assert(rest.remove(m) =~= n.children.subrange(0, m) + n.children.subrange(m + r, len));
    } else {
        assert(n.children.subrange(0, m) + n.children.subrange(m, len) =~= n.children);
    }
}

/// The children that are left after the removals of the patch: the first
/// `lead`, pruned.
pub open spec fn children_after_removals(s: SnapshotView, x: InstanceView) -> Seq<InstanceView> {
    Seq::new(lead(s, x) as nat, |j: int| pruned_child(s, x, j))
}

/// After the removals of the patch, the instance holds the children that
/// line up, each pruned, and no other child.
pub proof fn lemma_phase_removals(s: SnapshotView, x: InstanceView)
    requires
        ids_unique(x),
        no_later_match(s, x, lead(s, x)),
        x.metadata.ignore_unknown_instances ==> lead(s, x) == x.children.len(),
    ensures
        after_removals(x, patch_of(s, x).removed, patch_of(s, x).removed.len() as int) == (
        InstanceView { children: children_after_removals(s, x), ..x }),
{
    let m = lead(s, x);
    let len = x.children.len() as int;
    lemma_lead_from(s, x, 0);
    lemma_removals_nested(s, x, m);
    lemma_after_lead_same(s, x, s.children.len() as int);
    let nested = children_patch(s, x, s.children.len() as int).removed;
    let gone = if x.metadata.ignore_unknown_instances {
        Seq::<u128>::empty()
    } else {
        unmatched_ids(s, x, len)
    };
    let all = patch_of(s, x).removed;
    assert(all =~= nested + gone);
    lemma_removals_joined(x, nested, gone, gone.len() as int);
    let mid = InstanceView { children: pruned_children(s, x, m), ..x };
    if x.metadata.ignore_unknown_instances {
        assert(pruned_children(s, x, m) =~= children_after_removals(s, x));
    } else {
        lemma_aligned_unmatched(s, x, len);
        assert forall|i: int, k: int|
            m <= i < mid.children.len() && 0 <= k < mid.children.len() && k != i implies count_id(
            #[trigger] mid.children[k],
            (#[trigger] mid.children[i]).id,
        ) == 0 by {
            let id = x.children[i].id;
            assert(mid.children[i] == x.children[i]);
            assert(count_id(x.children[i], id) >= 1);
            lemma_unique_in_child(x, i, id);
            assert(count_id(x.children[k], id) == 0);
            if k < m {
                let own = patch_of(s.children[k], x.children[k]).removed;
                lemma_removals_count(x.children[k], own, own.len() as int, id);
            }
        }
        lemma_remove_tail(mid, m, gone, gone.len() as int);
        assert(mid.children.subrange(0, m) + mid.children.subrange(len, len)
            =~= children_after_removals(s, x));
    }
}

/// The child at `j` after the removals and the updates of the patch for it
/// and the child of the snapshot at `j`.
pub open spec fn updated_child(s: SnapshotView, x: InstanceView, j: int) -> InstanceView {
    let sub = patch_of(s.children[j], x.children[j]);
    after_updates(pruned_child(s, x, j), sub.updated, sub.updated.len() as int)
}

/// The instance after the removals of the patch.
pub open spec fn top_after_removals(s: SnapshotView, x: InstanceView) -> InstanceView {
    InstanceView { children: children_after_removals(s, x), ..x }
}

/// The instance after the removals of the patch and its own update.
pub open spec fn top_after_own_update(s: SnapshotView, x: InstanceView) -> InstanceView {
    match update_for(s, x) {
        Some(u) => apply_update(top_after_removals(s, x), u),
        None => top_after_removals(s, x),
    }
}

/// The children that line up, the first `k` of them updated, the others
/// pruned.
pub open spec fn updated_children(s: SnapshotView, x: InstanceView, k: int) -> Seq<InstanceView> {
    Seq::new(
        lead(s, x) as nat,
        |i: int|
            if i < k {
                updated_child(s, x, i)
            } else {
                pruned_child(s, x, i)
            },
    )
}

/// A child that was pruned and updated holds no id more often than before.
pub proof fn lemma_updated_child_count(s: SnapshotView, x: InstanceView, j: int, id: u128)
    requires
        0 <= j < x.children.len(),
        j < s.children.len(),
    ensures
        count_id(updated_child(s, x, j), id) <= count_id(x.children[j], id),
        count_id(pruned_child(s, x, j), id) <= count_id(x.children[j], id),
        updated_child(s, x, j).id == x.children[j].id,
{
    let sub = patch_of(s.children[j], x.children[j]);
    lemma_removals_count(x.children[j], sub.removed, sub.removed.len() as int, id);
    lemma_updates_count(pruned_child(s, x, j), sub.updated, sub.updated.len() as int, id);
    lemma_removals_keep_top(x.children[j], sub.removed, sub.removed.len() as int);
    lemma_updates_keep_id(pruned_child(s, x, j), sub.updated, sub.updated.len() as int);
}

/// After the updates that the patch for the first `k` pairs names, the
/// first `k` children are updated and nothing else has changed.
pub proof fn lemma_updates_nested(s: SnapshotView, x: InstanceView, k: int)
    requires
        ids_unique(x),
        no_later_match(s, x, lead(s, x)),
        0 <= k <= lead(s, x),
    ensures
        after_updates(
            top_after_own_update(s, x),
            children_patch(s, x, k).updated,
            children_patch(s, x, k).updated.len() as int,
        ) == (InstanceView { children: updated_children(s, x, k), ..top_after_own_update(s, x) }),
    decreases k,
{
    let top = top_after_own_update(s, x);
    lemma_lead_from(s, x, 0);
    if k > 0 {
        lemma_updates_nested(s, x, k - 1);
        lemma_upto_lead(s, x, k);
        let before = children_patch(s, x, k - 1).updated;
        let sub = patch_of(s.children[k - 1], x.children[k - 1]).updated;
        let mid = InstanceView { children: updated_children(s, x, k - 1), ..top };
        lemma_updates_joined(top, before, sub, sub.len() as int);
        assert forall|w: int| 0 <= w < sub.len() implies only_in_child(
            mid,
            k - 1,
            (#[trigger] sub[w]).id,
        ) by {
            let id = sub[w].id;
            lemma_updated_counted(s.children[k - 1], x.children[k - 1], w);
            lemma_unique_in_child(x, k - 1, id);
            assert forall|i: int| 0 <= i < mid.children.len() && i != k - 1 implies count_id(
                #[trigger] mid.children[i],
                id,
            ) == 0 by {
                assert(count_id(x.children[i], id) == 0);
                lemma_updated_child_count(s, x, i, id);
            }
        }
        lemma_updates_within(mid, k - 1, sub, sub.len() as int);
        assert(mid.children.update(k - 1, updated_child(s, x, k - 1)) =~= updated_children(
            s,
            x,
            k,
        ));
    } else {
        assert(updated_children(s, x, 0) =~= children_after_removals(s, x));
    }
}

/// The instance after the removals and the updates of the patch.
pub open spec fn top_after_updates(s: SnapshotView, x: InstanceView) -> InstanceView {
    InstanceView {
        children: Seq::new(lead(s, x) as nat, |j: int| updated_child(s, x, j)),
        ..top_after_own_update(s, x)
    }
}

/// After the updates of the patch, the instance has its own update, and
/// each child that lines up has the updates of its pair.
pub proof fn lemma_phase_updates(s: SnapshotView, x: InstanceView)
    requires
        ids_unique(x),
        no_later_match(s, x, lead(s, x)),
    ensures
        after_updates(
            top_after_removals(s, x),
            patch_of(s, x).updated,
            patch_of(s, x).updated.len() as int,
        ) == top_after_updates(s, x),
{
    let m = lead(s, x);
    let start = top_after_removals(s, x);
    lemma_lead_from(s, x, 0);
    lemma_after_lead_same(s, x, s.children.len() as int);
    lemma_updates_nested(s, x, m);
    let own = match update_for(s, x) {
        Some(u) => seq![u],
        None => Seq::<UpdateView>::empty(),
    };
    let nested = children_patch(s, x, s.children.len() as int).updated;
    assert(patch_of(s, x).updated =~= own + nested);
    lemma_updates_joined(start, own, nested, nested.len() as int);
    match update_for(s, x) {
        Some(u) => {
            assert(after_updates(start, own, 0) == start);
            assert(find_in(start, u.id) == Some(start));
            assert(update_in(start, u) == apply_update(start, u));
            assert(after_updates(start, own, 1) == apply_update(start, u));
        },
        None => {},
    }
    assert(updated_children(s, x, m) =~= top_after_updates(s, x).children);
}

/// Additions do not change the count of an id below the first new id, and
/// do not lower the next id.
pub proof fn lemma_additions_count_old(start: Grown, adds: Seq<AddView>, upto: int, id: u128)
    requires
        0 <= start.next,
        id < start.next,
        0 <= upto <= adds.len(),
    ensures
        count_id(after_additions(start, adds, upto).tree, id) == count_id(start.tree, id),
        after_additions(start, adds, upto).next >= start.next,
    decreases upto,
{
    if upto > 0 {
        lemma_additions_count_old(start, adds, upto - 1, id);
        let before = after_additions(start, adds, upto - 1);
        let a = adds[upto - 1];
        if can_add(before.tree, before.next, a) {
            lemma_insert_count(
                before.tree,
                a.parent_id,
                instantiated(a.instance, before.next),
                id,
            );
            lemma_instantiated_count(a.instance, before.next, id);
        }
    }
}

/// Additions keep the id of an instance.
pub proof fn lemma_additions_keep_id(start: Grown, adds: Seq<AddView>, upto: int)
    requires
        0 <= upto <= adds.len(),
    ensures
        after_additions(start, adds, upto).tree.id == start.tree.id,
    decreases upto,
{
    if upto > 0 {
        lemma_additions_keep_id(start, adds, upto - 1);
    }
}

/// The child at `j` after the whole patch for it and the child of the
/// snapshot at `j`, the additions receiving ids from `n` on.
pub open spec fn grown_child(s: SnapshotView, x: InstanceView, j: int, n: int) -> Grown {
    let sub = patch_of(s.children[j], x.children[j]);
    after_additions(
        Grown { tree: updated_child(s, x, j), next: n, added: Seq::empty() },
        sub.added,
        sub.added.len() as int,
    )
}

/// The next id after the additions below the first `k` children that line
/// up.
pub open spec fn next_at(s: SnapshotView, x: InstanceView, next: int, k: int) -> int
    decreases k,
{
    if 0 < k {
        grown_child(s, x, k - 1, next_at(s, x, next, k - 1)).next
    } else {
        next
    }
}

/// The children that line up, the first `k` of them grown, the others
/// updated.
pub open spec fn grown_children(s: SnapshotView, x: InstanceView, next: int, k: int) -> Seq<
    InstanceView,
> {
    Seq::new(
        lead(s, x) as nat,
        |i: int|
            if i < k {
                grown_child(s, x, i, next_at(s, x, next, i)).tree
            } else {
                updated_child(s, x, i)
            },
    )
}

/// The next id does not go down.
pub proof fn lemma_next_at_grows(s: SnapshotView, x: InstanceView, next: int, k: int)
    requires
        0 <= k,
    ensures
        next_at(s, x, next, k) >= next,
    decreases k,
{
    if k > 0 {
        lemma_next_at_grows(s, x, next, k - 1);
        let sub = patch_of(s.children[k - 1], x.children[k - 1]);
        let n = next_at(s, x, next, k - 1);
        lemma_additions_next(
            Grown { tree: updated_child(s, x, k - 1), next: n, added: Seq::empty() },
            sub.added,
            sub.added.len() as int,
        );
    }
}

/// Additions do not lower the next id.
pub proof fn lemma_additions_next(start: Grown, adds: Seq<AddView>, upto: int)
    requires
        0 <= upto <= adds.len(),
    ensures
        after_additions(start, adds, upto).next >= start.next,
    decreases upto,
{
    if upto > 0 {
        lemma_additions_next(start, adds, upto - 1);
    }
}

/// After the additions that the patch for the first `k` pairs names, the
/// first `k` children are grown and nothing else has changed.
pub proof fn lemma_additions_nested(s: SnapshotView, x: InstanceView, next: int, k: int)
    requires
        ids_unique(x),
        ids_below(x, next),
        0 <= next,
        no_later_match(s, x, lead(s, x)),
        0 <= k <= lead(s, x),
    ensures
        ({
            let g = after_additions(
                Grown { tree: top_after_updates(s, x), next, added: Seq::empty() },
                children_patch(s, x, k).added,
                children_patch(s, x, k).added.len() as int,
            );
            &&& g.tree == (InstanceView {
                children: grown_children(s, x, next, k),
                ..top_after_own_update(s, x)
            })
            &&& g.next == next_at(s, x, next, k)
        }),
    decreases k,
{
    let start = Grown { tree: top_after_updates(s, x), next, added: Seq::<u128>::empty() };
    lemma_lead_from(s, x, 0);
    if k > 0 {
        lemma_additions_nested(s, x, next, k - 1);
        lemma_upto_lead(s, x, k);
        let before = children_patch(s, x, k - 1).added;
        let sub = patch_of(s.children[k - 1], x.children[k - 1]).added;
        let g = after_additions(start, before, before.len() as int);
        lemma_additions_joined(start, before, sub, sub.len() as int);
        assert forall|w: int| 0 <= w < sub.len() implies only_in_child(
            g.tree,
            k - 1,
            (#[trigger] sub[w]).parent_id,
        ) by {
            let id = sub[w].parent_id;
            lemma_added_counted(s.children[k - 1], x.children[k - 1], w);
            lemma_unique_in_child(x, k - 1, id);
            lemma_child_count_bounded(x, id, k - 1, x.children.len() as int);
            assert(count_id(x, id) >= 1);
            assert(id < next);
            assert forall|i: int| 0 <= i < g.tree.children.len() && i != k - 1 implies count_id(
                #[trigger] g.tree.children[i],
                id,
            ) == 0 by {
                assert(count_id(x.children[i], id) == 0);
                lemma_updated_child_count(s, x, i, id);
                if i < k - 1 {
                    let own = patch_of(s.children[i], x.children[i]);
                    let n = next_at(s, x, next, i);
                    lemma_next_at_grows(s, x, next, i);
                    lemma_additions_count_old(
                        Grown { tree: updated_child(s, x, i), next: n, added: Seq::empty() },
                        own.added,
                        own.added.len() as int,
                        id,
                    );
                }
            }
        }
        lemma_additions_within(g.tree, k - 1, g.next, g.added, sub, sub.len() as int);
        assert(g.tree.children.update(
            k - 1,
            grown_child(s, x, k - 1, next_at(s, x, next, k - 1)).tree,
        ) =~= grown_children(s, x, next, k));
    } else {
        assert(grown_children(s, x, next, 0) =~= top_after_updates(s, x).children);
    }
}

/// The instances made of the children of the snapshot from the lead on,
/// the first of them with the id `first`.
pub open spec fn added_children(s: SnapshotView, x: InstanceView, first: int, count: int) -> Seq<
    InstanceView,
> {
    Seq::new(
        count as nat,
        |r: int|
            instantiated(
                s.children[lead(s, x) + r],
                first + children_size(s, lead(s, x) + r) - children_size(s, lead(s, x)),
            ),
    )
}

/// After all additions that the patch for the first `k` children names,
/// the children that line up are grown, and the children of the snapshot
/// from the lead on are added after them.
pub proof fn lemma_additions_root(s: SnapshotView, x: InstanceView, next: int, k: int)
    requires
        ids_unique(x),
        ids_below(x, next),
        0 <= next,
        no_later_match(s, x, lead(s, x)),
        lead(s, x) <= k <= s.children.len(),
        next_at(s, x, next, lead(s, x)) + children_size(s, s.children.len() as int) - children_size(
            s,
            lead(s, x),
        ) <= u128::MAX,
    ensures
        ({
            let g = after_additions(
                Grown { tree: top_after_updates(s, x), next, added: Seq::empty() },
                children_patch(s, x, k).added,
                children_patch(s, x, k).added.len() as int,
            );
            let first = next_at(s, x, next, lead(s, x));
            &&& g.tree == (InstanceView {
                children: grown_children(s, x, next, lead(s, x)) + added_children(
                    s,
                    x,
                    first,
                    k - lead(s, x),
                ),
                ..top_after_own_update(s, x)
            })
            &&& g.next == first + children_size(s, k) - children_size(s, lead(s, x))
        }),
    decreases k,
{
    let m = lead(s, x);
    let start = Grown { tree: top_after_updates(s, x), next, added: Seq::<u128>::empty() };
    let first = next_at(s, x, next, m);
    lemma_lead_from(s, x, 0);
    if k > m {
        lemma_additions_root(s, x, next, k - 1);
        lemma_aligned_matching(s, x, k - 1);
        let before = children_patch(s, x, k - 1).added;
        let a = AddView { parent_id: x.id, provisional_id: 0, instance: s.children[k - 1] };
        let now = children_patch(s, x, k).added;
        assert(now =~= before.push(a));
        lemma_additions_prefix(start, now, before, before.len() as int);
        let g = after_additions(start, before, before.len() as int);
        lemma_children_size_monotone(s, k, s.children.len() as int);
        lemma_children_size_monotone(s, m, k - 1);
        lemma_next_at_grows(s, x, next, m);
        assert(g.tree.id == x.id);
        assert(find_in(g.tree, a.parent_id) == Some(g.tree));
        assert(can_add(g.tree, g.next, a));
        let made = instantiated(a.instance, g.next);
        assert(insert_in(g.tree, x.id, made).children == g.tree.children.push(made));
        assert(g.tree.children.push(made) =~= grown_children(s, x, next, m) + added_children(
            s,
            x,
            first,
            k - m,
        ));
    } else {
        lemma_additions_nested(s, x, next, m);
        assert(grown_children(s, x, next, m) + added_children(s, x, first, 0) =~= grown_children(
            s,
            x,
            next,
            m,
        ));
    }
}

} // verus!
