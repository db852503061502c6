//! Locality: an operation whose target lies within one child of an
//! instance changes that child alone.

use vstd::prelude::*;
use crate::ids::{count_id, count_upto, lemma_found_iff_counted, lemma_found_upto_iff_counted, lemma_remove_count, lemma_update_count};
use crate::instance::{find_in, find_upto, insert_in, inserted_upto, kept_upto, lemma_find_upto_stays, remove_in, InstanceView};
use crate::patch::{AddView, UpdateView};
use crate::path_index::lemma_child_count_bounded;
use crate::reconcile::{after_additions, after_removals, after_updates, can_add, Grown};
use crate::instance::instantiated;
use crate::snapshot::snapshot_size;
use crate::update::{update_in, updated_upto};

verus! {

/// `n` with `child` in place of its child at index `i`.
pub open spec fn with_child_at(n: InstanceView, i: int, child: InstanceView) -> InstanceView {
    InstanceView { children: n.children.update(i, child), ..n }
}

/// Whether `id` occurs neither at the top of `n` nor in a child of `n`
/// other than the one at index `i`, nor at the top of that one.
pub open spec fn only_within(n: InstanceView, i: int, id: u128) -> bool {
    &&& n.id != id
    &&& forall|k: int| 0 <= k < n.children.len() ==> (#[trigger] n.children[k]).id != id
    &&& forall|k: int| 0 <= k < n.children.len() && k != i ==> count_id(#[trigger] n.children[k], id) == 0
}

/// Whether `id` occurs neither at the top of `n` nor in a child of `n`
/// other than the one at index `i`.
pub open spec fn only_in_child(n: InstanceView, i: int, id: u128) -> bool {
    &&& n.id != id
    &&& forall|k: int| 0 <= k < n.children.len() && k != i ==> count_id(#[trigger] n.children[k], id) == 0
}

/// An id that does not occur in an instance does not occur in its children.
pub proof fn lemma_absent_below(n: InstanceView, id: u128, k: int)
    requires
        count_id(n, id) == 0,
        0 <= k < n.children.len(),
    ensures
        n.id != id,
        count_id(n.children[k], id) == 0,
{
    lemma_child_count_bounded(n, id, k, n.children.len() as int);
}

/// Removing an id that does not occur changes nothing.
pub proof fn lemma_remove_absent(n: InstanceView, id: u128)
    requires
        count_id(n, id) == 0,
    ensures
        remove_in(n, id) == n,
    decreases n, n.children.len() + 1,
{
    lemma_remove_absent_upto(n, id, n.children.len() as int);
    assert(n.children.subrange(0, n.children.len() as int) =~= n.children);
}

/// Removing an id that does not occur keeps the first children as they are.
pub proof fn lemma_remove_absent_upto(n: InstanceView, id: u128, upto: int)
    requires
        count_id(n, id) == 0,
        0 <= upto <= n.children.len(),
    ensures
        kept_upto(n, id, upto) == n.children.subrange(0, upto),
    decreases n, upto,
{
    if upto > 0 {
        lemma_remove_absent_upto(n, id, upto - 1);
        lemma_absent_below(n, id, upto - 1);
        let child = n.children[upto - 1];
        lemma_found_iff_counted(child, id);
        lemma_remove_absent(child, id);
        assert(n.children.subrange(0, upto) =~= n.children.subrange(0, upto - 1).push(child));
    } else {
        assert(n.children.subrange(0, 0) =~= Seq::<InstanceView>::empty());
    }
}

/// Removing an id that occurs within one child alone changes that child
/// alone, over the first children.
pub proof fn lemma_remove_within_upto(n: InstanceView, i: int, id: u128, upto: int)
    requires
        0 <= i < n.children.len(),
        only_within(n, i, id),
        0 <= upto <= n.children.len(),
    ensures
        kept_upto(n, id, upto) == n.children.update(i, remove_in(n.children[i], id)).subrange(
            0,
            upto,
        ),
    decreases upto,
{
    let target = n.children.update(i, remove_in(n.children[i], id));
    if upto > 0 {
        lemma_remove_within_upto(n, i, id, upto - 1);
        let child = n.children[upto - 1];
        assert(child.id != id);
        if upto - 1 != i {
            lemma_remove_absent(child, id);
        }
        assert(target.subrange(0, upto) =~= target.subrange(0, upto - 1).push(target[upto - 1]));
    } else {
        assert(target.subrange(0, 0) =~= Seq::<InstanceView>::empty());
    }
}

/// Removing an id that occurs within one child alone changes that child
/// alone.
pub proof fn lemma_remove_within(n: InstanceView, i: int, id: u128)
    requires
        0 <= i < n.children.len(),
        only_within(n, i, id),
    ensures
        remove_in(n, id) == with_child_at(n, i, remove_in(n.children[i], id)),
{
    lemma_remove_within_upto(n, i, id, n.children.len() as int);
    let target = n.children.update(i, remove_in(n.children[i], id));
    assert(target.subrange(0, n.children.len() as int) =~= target);
}

/// Removing ids that occur within one child alone changes that child
/// alone.
pub proof fn lemma_removals_within(n: InstanceView, i: int, ids: Seq<u128>, upto: int)
    requires
        0 <= i < n.children.len(),
        0 <= upto <= ids.len(),
        forall|k: int| 0 <= k < ids.len() ==> only_within(n, i, #[trigger] ids[k]),
    ensures
        after_removals(n, ids, upto) == with_child_at(
            n,
            i,
            after_removals(n.children[i], ids, upto),
        ),
    decreases upto,
{
    if upto > 0 {
        lemma_removals_within(n, i, ids, upto - 1);
        let before = after_removals(n, ids, upto - 1);
        let child = after_removals(n.children[i], ids, upto - 1);
        let id = ids[upto - 1];
        assert(only_within(n, i, id));
        lemma_removals_keep_top(n.children[i], ids, upto - 1);
        assert forall|k: int| 0 <= k < before.children.len() implies (
        #[trigger] before.children[k]).id != id by {
            assert(n.children[k].id != id);
        }
        assert forall|k: int| 0 <= k < before.children.len() && k != i implies count_id(
            #[trigger] before.children[k],
            id,
        ) == 0 by {
            assert(before.children[k] == n.children[k]);
        }
        lemma_remove_within(before, i, id);
        assert(before.children.update(i, remove_in(child, id)) =~= n.children.update(
            i,
            remove_in(child, id),
        ));
    } else {
        assert(n.children.update(i, n.children[i]) =~= n.children);
    }
}

/// Removals keep the top of an instance: its id and all but its children.
pub proof fn lemma_removals_keep_top(n: InstanceView, ids: Seq<u128>, upto: int)
    requires
        0 <= upto <= ids.len(),
    ensures
        after_removals(n, ids, upto) == (InstanceView {
            children: after_removals(n, ids, upto).children,
            ..n
        }),
    decreases upto,
{
    if upto > 0 {
        lemma_removals_keep_top(n, ids, upto - 1);
    }
}

/// Removals do not raise the count of any id.
pub proof fn lemma_removals_count(n: InstanceView, ids: Seq<u128>, upto: int, id: u128)
    requires
        0 <= upto <= ids.len(),
    ensures
        count_id(after_removals(n, ids, upto), id) <= count_id(n, id),
    decreases upto,
{
    if upto > 0 {
        lemma_removals_count(n, ids, upto - 1, id);
        lemma_remove_count(after_removals(n, ids, upto - 1), ids[upto - 1], id);
    }
}

/// Removing one list of ids and then another is removing the two lists
/// joined.
pub proof fn lemma_removals_joined(n: InstanceView, a: Seq<u128>, b: Seq<u128>, upto: int)
    requires
        0 <= upto <= b.len(),
    ensures
        after_removals(n, a + b, a.len() + upto) == after_removals(
            after_removals(n, a, a.len() as int),
            b,
            upto,
        ),
    decreases upto,
{
    if upto > 0 {
        lemma_removals_joined(n, a, b, upto - 1);
        assert((a + b)[a.len() + upto - 1] == b[upto - 1]);
    } else {
        lemma_removals_prefix(n, a + b, a, a.len() as int);
    }
}

/// The first removals depend on the first ids alone.
pub proof fn lemma_removals_prefix(n: InstanceView, a: Seq<u128>, b: Seq<u128>, upto: int)
    requires
        0 <= upto <= a.len(),
        upto <= b.len(),
        forall|k: int| 0 <= k < upto ==> a[k] == b[k],
    ensures
        after_removals(n, a, upto) == after_removals(n, b, upto),
    decreases upto,
{
    if upto > 0 {
        lemma_removals_prefix(n, a, b, upto - 1);
    }
}

/// An id that occurs in none of the children before `i` is not counted
/// among them.
pub proof fn lemma_none_before(n: InstanceView, i: int, id: u128, upto: int)
    requires
        0 <= i < n.children.len(),
        only_in_child(n, i, id),
        0 <= upto <= i,
    ensures
        count_upto(n, id, upto) == 0,
        find_upto(n, id, upto).is_none(),
    decreases upto,
{
    if upto > 0 {
        lemma_none_before(n, i, id, upto - 1);
        assert(count_id(n.children[upto - 1], id) == 0);
    }
    lemma_found_upto_iff_counted(n, id, upto);
}

/// An id that occurs within one child alone is found in the instance
/// exactly where it is found in that child.
pub proof fn lemma_found_within(n: InstanceView, i: int, id: u128)
    requires
        0 <= i < n.children.len(),
        only_in_child(n, i, id),
    ensures
        find_in(n, id) == find_in(n.children[i], id),
    decreases n.children.len() - i,
{
    lemma_none_before(n, i, id, i);
    if find_in(n.children[i], id).is_some() {
        lemma_find_upto_stays(n, id, i + 1, n.children.len() as int);
    } else {
        lemma_none_after(n, i, id, n.children.len() as int);
    }
}

/// An id that occurs in no child but the one at `i`, and is not found in
/// that one, is found in no child.
pub proof fn lemma_none_after(n: InstanceView, i: int, id: u128, upto: int)
    requires
        0 <= i < n.children.len(),
        only_in_child(n, i, id),
        find_in(n.children[i], id).is_none(),
        0 <= upto <= n.children.len(),
    ensures
        find_upto(n, id, upto).is_none(),
    decreases upto,
{
    if upto > 0 {
        lemma_none_after(n, i, id, upto - 1);
        if upto - 1 != i {
            lemma_found_iff_counted(n.children[upto - 1], id);
        }
    }
}

/// An update for an instance within one child alone changes that child
/// alone, over the first children.
pub proof fn lemma_update_within_upto(n: InstanceView, i: int, u: UpdateView, upto: int)
    requires
        0 <= i < n.children.len(),
        only_in_child(n, i, u.id),
        find_in(n.children[i], u.id).is_some(),
        0 <= upto <= n.children.len(),
    ensures
        updated_upto(n, u, upto) == n.children.update(i, update_in(n.children[i], u)).subrange(
            0,
            upto,
        ),
    decreases upto,
{
    let target = n.children.update(i, update_in(n.children[i], u));
    if upto > 0 {
        lemma_update_within_upto(n, i, u, upto - 1);
        let child = n.children[upto - 1];
        if upto - 1 < i {
            lemma_found_iff_counted(child, u.id);
        } else if upto - 1 == i {
            lemma_none_before(n, i, u.id, i);
        } else {
            lemma_none_before(n, i, u.id, i);
            lemma_find_upto_stays(n, u.id, i + 1, upto - 1);
        }
        assert(target.subrange(0, upto) =~= target.subrange(0, upto - 1).push(target[upto - 1]));
    } else {
        assert(target.subrange(0, 0) =~= Seq::<InstanceView>::empty());
    }
}

/// An update for an instance within one child alone changes that child
/// alone.
pub proof fn lemma_update_within(n: InstanceView, i: int, u: UpdateView)
    requires
        0 <= i < n.children.len(),
        only_in_child(n, i, u.id),
        find_in(n.children[i], u.id).is_some(),
    ensures
        update_in(n, u) == with_child_at(n, i, update_in(n.children[i], u)),
{
    lemma_update_within_upto(n, i, u, n.children.len() as int);
    let target = n.children.update(i, update_in(n.children[i], u));
    assert(target.subrange(0, n.children.len() as int) =~= target);
}

/// Updates keep the id of an instance.
pub proof fn lemma_updates_keep_id(n: InstanceView, updates: Seq<UpdateView>, upto: int)
    requires
        0 <= upto <= updates.len(),
    ensures
        after_updates(n, updates, upto).id == n.id,
    decreases upto,
{
    if upto > 0 {
        lemma_updates_keep_id(n, updates, upto - 1);
    }
}

/// Updates change the count of no id.
pub proof fn lemma_updates_count(n: InstanceView, updates: Seq<UpdateView>, upto: int, id: u128)
    requires
        0 <= upto <= updates.len(),
    ensures
        count_id(after_updates(n, updates, upto), id) == count_id(n, id),
    decreases upto,
{
    if upto > 0 {
        lemma_updates_count(n, updates, upto - 1, id);
        lemma_update_count(after_updates(n, updates, upto - 1), updates[upto - 1], id);
    }
}

/// Updates for instances within one child alone change that child alone.
pub proof fn lemma_updates_within(n: InstanceView, i: int, updates: Seq<UpdateView>, upto: int)
    requires
        0 <= i < n.children.len(),
        0 <= upto <= updates.len(),
        forall|k: int| 0 <= k < updates.len() ==> only_in_child(n, i, (#[trigger] updates[k]).id),
    ensures
        after_updates(n, updates, upto) == with_child_at(
            n,
            i,
            after_updates(n.children[i], updates, upto),
        ),
    decreases upto,
{
    if upto > 0 {
        lemma_updates_within(n, i, updates, upto - 1);
        let before = after_updates(n, updates, upto - 1);
        let child = after_updates(n.children[i], updates, upto - 1);
        let u = updates[upto - 1];
        assert(only_in_child(n, i, u.id));
        assert forall|k: int| 0 <= k < before.children.len() && k != i implies count_id(
            #[trigger] before.children[k],
            u.id,
        ) == 0 by {
            assert(before.children[k] == n.children[k]);
        }
        lemma_found_within(before, i, u.id);
        if find_in(child, u.id).is_some() {
            lemma_update_within(before, i, u);
            assert(before.children.update(i, update_in(child, u)) =~= n.children.update(
                i,
                update_in(child, u),
            ));
        }
    } else {
        assert(n.children.update(i, n.children[i]) =~= n.children);
    }
}

/// Applying one list of updates and then another is applying the two
/// lists joined.
pub proof fn lemma_updates_joined(
    n: InstanceView,
    a: Seq<UpdateView>,
    b: Seq<UpdateView>,
    upto: int,
)
    requires
        0 <= upto <= b.len(),
    ensures
        after_updates(n, a + b, a.len() + upto) == after_updates(
            after_updates(n, a, a.len() as int),
            b,
            upto,
        ),
    decreases upto,
{
    if upto > 0 {
        lemma_updates_joined(n, a, b, upto - 1);
        assert((a + b)[a.len() + upto - 1] == b[upto - 1]);
    } else {
        lemma_updates_prefix(n, a + b, a, a.len() as int);
    }
}

/// The first updates depend on the first entries alone.
pub proof fn lemma_updates_prefix(
    n: InstanceView,
    a: Seq<UpdateView>,
    b: Seq<UpdateView>,
    upto: int,
)
    requires
        0 <= upto <= a.len(),
        upto <= b.len(),
        forall|k: int| 0 <= k < upto ==> a[k] == b[k],
    ensures
        after_updates(n, a, upto) == after_updates(n, b, upto),
    decreases upto,
{
    if upto > 0 {
        lemma_updates_prefix(n, a, b, upto - 1);
    }
}

/// An addition below an instance within one child alone changes that child
/// alone, over the first children.
pub proof fn lemma_insert_within_upto(
    n: InstanceView,
    i: int,
    parent: u128,
    new: InstanceView,
    upto: int,
)
    requires
        0 <= i < n.children.len(),
        only_in_child(n, i, parent),
        find_in(n.children[i], parent).is_some(),
        0 <= upto <= n.children.len(),
    ensures
        inserted_upto(n, parent, new, upto) == n.children.update(
            i,
            insert_in(n.children[i], parent, new),
        ).subrange(0, upto),
    decreases upto,
{
    let target = n.children.update(i, insert_in(n.children[i], parent, new));
    if upto > 0 {
        lemma_insert_within_upto(n, i, parent, new, upto - 1);
        let child = n.children[upto - 1];
        if upto - 1 < i {
            lemma_found_iff_counted(child, parent);
        } else if upto - 1 == i {
            lemma_none_before(n, i, parent, i);
        } else {
            lemma_none_before(n, i, parent, i);
            lemma_find_upto_stays(n, parent, i + 1, upto - 1);
        }
        assert(target.subrange(0, upto) =~= target.subrange(0, upto - 1).push(target[upto - 1]));
    } else {
        assert(target.subrange(0, 0) =~= Seq::<InstanceView>::empty());
    }
}

/// An addition below an instance within one child alone changes that child
/// alone.
pub proof fn lemma_insert_within(n: InstanceView, i: int, parent: u128, new: InstanceView)
    requires
        0 <= i < n.children.len(),
        only_in_child(n, i, parent),
        find_in(n.children[i], parent).is_some(),
    ensures
        insert_in(n, parent, new) == with_child_at(n, i, insert_in(n.children[i], parent, new)),
{
    lemma_insert_within_upto(n, i, parent, new, n.children.len() as int);
    let target = n.children.update(i, insert_in(n.children[i], parent, new));
    assert(target.subrange(0, n.children.len() as int) =~= target);
}

/// Additions below instances within one child alone change that child
/// alone, and receive the ids that they receive in that child by itself.
pub proof fn lemma_additions_within(
    n: InstanceView,
    i: int,
    next: int,
    added: Seq<u128>,
    adds: Seq<AddView>,
    upto: int,
)
    requires
        0 <= i < n.children.len(),
        0 <= upto <= adds.len(),
        forall|k: int|
            0 <= k < adds.len() ==> only_in_child(n, i, (#[trigger] adds[k]).parent_id),
    ensures
        ({
            let whole = after_additions(Grown { tree: n, next, added }, adds, upto);
            let part = after_additions(
                Grown { tree: n.children[i], next, added: Seq::empty() },
                adds,
                upto,
            );
            &&& whole.tree == with_child_at(n, i, part.tree)
            &&& whole.next == part.next
            &&& whole.added == added + part.added
        }),
    decreases upto,
{
    let start = Grown { tree: n, next, added };
    let start_part = Grown { tree: n.children[i], next, added: Seq::<u128>::empty() };
    if upto > 0 {
        lemma_additions_within(n, i, next, added, adds, upto - 1);
        let before = after_additions(start, adds, upto - 1);
        let part = after_additions(start_part, adds, upto - 1);
        let a = adds[upto - 1];
        assert(only_in_child(n, i, a.parent_id));
        assert forall|k: int| 0 <= k < before.tree.children.len() && k != i implies count_id(
            #[trigger] before.tree.children[k],
            a.parent_id,
        ) == 0 by {
            assert(before.tree.children[k] == n.children[k]);
        }
        lemma_found_within(before.tree, i, a.parent_id);
        if can_add(part.tree, part.next, a) {
            let new = instantiated(a.instance, part.next);
            lemma_insert_within(before.tree, i, a.parent_id, new);
            assert(before.tree.children.update(i, insert_in(part.tree, a.parent_id, new))
                =~= n.children.update(i, insert_in(part.tree, a.parent_id, new)));
            assert(added + part.added.push(part.next as u128) =~= (added + part.added).push(
                part.next as u128,
            ));
        }
    } else {
        assert(n.children.update(i, n.children[i]) =~= n.children);
        assert(added + Seq::<u128>::empty() =~= added);
    }
}

/// The first additions depend on the first entries alone.
pub proof fn lemma_additions_prefix(start: Grown, a: Seq<AddView>, b: Seq<AddView>, upto: int)
    requires
        0 <= upto <= a.len(),
        upto <= b.len(),
        forall|k: int| 0 <= k < upto ==> a[k] == b[k],
    ensures
        after_additions(start, a, upto) == after_additions(start, b, upto),
    decreases upto,
{
    if upto > 0 {
        lemma_additions_prefix(start, a, b, upto - 1);
    }
}

/// Making one list of additions and then another is making the two lists
/// joined.
pub proof fn lemma_additions_joined(start: Grown, a: Seq<AddView>, b: Seq<AddView>, upto: int)
    requires
        0 <= upto <= b.len(),
    ensures
        after_additions(start, a + b, a.len() + upto) == after_additions(
            after_additions(start, a, a.len() as int),
            b,
            upto,
        ),
    decreases upto,
{
    if upto > 0 {
        lemma_additions_joined(start, a, b, upto - 1);
        assert((a + b)[a.len() + upto - 1] == b[upto - 1]);
    } else {
        lemma_additions_prefix(start, a + b, a, a.len() as int);
    }
}

} // verus!
