//! Counting ids: how often an id occurs in an instance and its descendants,
//! and what the tree's operations do to that number.

use vstd::prelude::*;
use crate::instance::{find_in, find_upto, insert_in, inserted_upto, instantiated, instantiated_upto, kept_upto, remove_in, InstanceView};
use crate::patch::UpdateView;
use crate::snapshot::{children_size, snapshot_size, SnapshotView};
use crate::update::{apply_update, update_in, updated_upto};

verus! {

/// How often `id` occurs among the first `upto` children of `n` and their
/// descendants.
pub open spec fn count_upto(n: InstanceView, id: u128, upto: int) -> nat
    decreases n, upto,
{
    if 0 < upto <= n.children.len() {
        count_upto(n, id, upto - 1) + count_id(n.children[upto - 1], id)
    } else {
        0
    }
}

/// How often `id` occurs among `n` and its descendants.
pub open spec fn count_id(n: InstanceView, id: u128) -> nat
    decreases n, n.children.len() + 1,
{
    (if n.id == id {
        1nat
    } else {
        0nat
    }) + count_upto(n, id, n.children.len() as int)
}

/// How often `id` occurs among the first `upto` instances of `kids` and
/// their descendants.
pub open spec fn sum_counts(kids: Seq<InstanceView>, id: u128, upto: int) -> nat
    decreases upto,
{
    if 0 < upto <= kids.len() {
        sum_counts(kids, id, upto - 1) + count_id(kids[upto - 1], id)
    } else {
        0
    }
}

/// No id occurs twice among `n` and its descendants.
pub open spec fn ids_unique(n: InstanceView) -> bool {
    forall|id: u128| #[trigger] count_id(n, id) <= 1
}

/// Every id among `n` and its descendants is below `bound`.
pub open spec fn ids_below(n: InstanceView, bound: int) -> bool {
    forall|id: u128| id >= bound ==> #[trigger] count_id(n, id) == 0
}

/// The count over the children of `n` is the count over them as a list.
pub proof fn lemma_count_upto_is_sum(n: InstanceView, id: u128, upto: int)
    ensures
        count_upto(n, id, upto) == sum_counts(n.children, id, upto),
    decreases upto,
{
    if 0 < upto <= n.children.len() {
        lemma_count_upto_is_sum(n, id, upto - 1);
    }
}

/// The count over a list depends on the instances counted alone.
pub proof fn lemma_sum_counts_prefix(a: Seq<InstanceView>, b: Seq<InstanceView>, id: u128, upto: int)
    requires
        0 <= upto <= a.len(),
        upto <= b.len(),
        forall|j: int| 0 <= j < upto ==> a[j] == b[j],
    ensures
        sum_counts(a, id, upto) == sum_counts(b, id, upto),
    decreases upto,
{
    if upto > 0 {
        lemma_sum_counts_prefix(a, b, id, upto - 1);
    }
}

/// The count over a list with one more instance.
pub proof fn lemma_sum_counts_push(a: Seq<InstanceView>, x: InstanceView, id: u128)
    ensures
        sum_counts(a.push(x), id, a.len() as int + 1) == sum_counts(a, id, a.len() as int) + count_id(
            x,
            id,
        ),
{
    lemma_sum_counts_prefix(a.push(x), a, id, a.len() as int);
}

/// The count of an instance is that of itself and of its children as a list.
pub proof fn lemma_count_by_children(n: InstanceView, id: u128)
    ensures
        count_id(n, id) == (if n.id == id {
            1nat
        } else {
            0nat
        }) + sum_counts(n.children, id, n.children.len() as int),
{
    lemma_count_upto_is_sum(n, id, n.children.len() as int);
}

/// An id is found exactly where it occurs.
pub proof fn lemma_found_iff_counted(n: InstanceView, id: u128)
    ensures
        find_in(n, id).is_some() <==> count_id(n, id) >= 1,
        find_in(n, id) matches Some(x) ==> x.id == id,
    decreases n, n.children.len() + 1,
{
    lemma_found_upto_iff_counted(n, id, n.children.len() as int);
}

/// An id is found among the first children exactly where it occurs there.
pub proof fn lemma_found_upto_iff_counted(n: InstanceView, id: u128, upto: int)
    requires
        0 <= upto <= n.children.len(),
    ensures
        find_upto(n, id, upto).is_some() <==> count_upto(n, id, upto) >= 1,
        find_upto(n, id, upto) matches Some(x) ==> x.id == id,
    decreases n, upto,
{
    if upto > 0 {
        lemma_found_upto_iff_counted(n, id, upto - 1);
        lemma_found_iff_counted(n.children[upto - 1], id);
    }
}

/// Removal does not raise the count of any id.
pub proof fn lemma_remove_count(n: InstanceView, gone: u128, id: u128)
    ensures
        count_id(remove_in(n, gone), id) <= count_id(n, id),
    decreases n, n.children.len() + 1,
{
    lemma_remove_count_upto(n, gone, id, n.children.len() as int);
    lemma_count_by_children(remove_in(n, gone), id);
}

/// Removal does not raise the count of any id over the first children.
pub proof fn lemma_remove_count_upto(n: InstanceView, gone: u128, id: u128, upto: int)
    requires
        0 <= upto <= n.children.len(),
    ensures
        kept_upto(n, gone, upto).len() <= upto,
        sum_counts(kept_upto(n, gone, upto), id, kept_upto(n, gone, upto).len() as int)
            <= count_upto(n, id, upto),
    decreases n, upto,
{
    if upto > 0 {
        lemma_remove_count_upto(n, gone, id, upto - 1);
        let before = kept_upto(n, gone, upto - 1);
        let child = n.children[upto - 1];
        if child.id != gone {
            lemma_remove_count(child, gone, id);
            lemma_sum_counts_push(before, remove_in(child, gone), id);
        }
    }
}

/// Insertion adds the counts of the new instance where the parent is found.
pub proof fn lemma_insert_count(n: InstanceView, parent: u128, new: InstanceView, id: u128)
    ensures
        count_id(insert_in(n, parent, new), id) == count_id(n, id) + (if find_in(
            n,
            parent,
        ).is_some() {
            count_id(new, id)
        } else {
            0
        }),
    decreases n, n.children.len() + 1,
{
    let after = insert_in(n, parent, new);
    lemma_count_by_children(after, id);
    lemma_count_by_children(n, id);
    if n.id == parent {
        lemma_sum_counts_push(n.children, new, id);
    } else {
        lemma_insert_count_upto(n, parent, new, id, n.children.len() as int);
        lemma_count_upto_is_sum(n, id, n.children.len() as int);
    }
}

/// Insertion adds the counts of the new instance over the first children
/// where the parent is found among them.
pub proof fn lemma_insert_count_upto(
    n: InstanceView,
    parent: u128,
    new: InstanceView,
    id: u128,
    upto: int,
)
    requires
        0 <= upto <= n.children.len(),
    ensures
        inserted_upto(n, parent, new, upto).len() == upto,
        sum_counts(inserted_upto(n, parent, new, upto), id, upto) == count_upto(n, id, upto) + (
        if find_upto(n, parent, upto).is_some() {
            count_id(new, id)
        } else {
            0
        }),
    decreases n, upto,
{
    if upto > 0 {
        lemma_insert_count_upto(n, parent, new, id, upto - 1);
        let before = inserted_upto(n, parent, new, upto - 1);
        let child = n.children[upto - 1];
        if find_upto(n, parent, upto - 1).is_none() && find_in(child, parent).is_some() {
            lemma_insert_count(child, parent, new, id);
            lemma_sum_counts_push(before, insert_in(child, parent, new), id);
        } else {
            lemma_sum_counts_push(before, child, id);
        }
    }
}

/// An update changes the count of no id.
pub proof fn lemma_update_count(n: InstanceView, u: UpdateView, id: u128)
    ensures
        count_id(update_in(n, u), id) == count_id(n, id),
    decreases n, n.children.len() + 1,
{
    let after = update_in(n, u);
    lemma_count_by_children(after, id);
    lemma_count_by_children(n, id);
    if n.id != u.id {
        lemma_update_count_upto(n, u, id, n.children.len() as int);
        lemma_count_upto_is_sum(n, id, n.children.len() as int);
    }
}

/// An update changes the count of no id over the first children.
pub proof fn lemma_update_count_upto(n: InstanceView, u: UpdateView, id: u128, upto: int)
    requires
        0 <= upto <= n.children.len(),
    ensures
        updated_upto(n, u, upto).len() == upto,
        sum_counts(updated_upto(n, u, upto), id, upto) == count_upto(n, id, upto),
    decreases n, upto,
{
    if upto > 0 {
        lemma_update_count_upto(n, u, id, upto - 1);
        let before = updated_upto(n, u, upto - 1);
        let child = n.children[upto - 1];
        if find_upto(n, u.id, upto - 1).is_none() && find_in(child, u.id).is_some() {
            lemma_update_count(child, u, id);
            lemma_sum_counts_push(before, update_in(child, u), id);
        } else {
            lemma_sum_counts_push(before, child, id);
        }
    }
}

/// The instance made of a snapshot holds each id from `first` up to its
/// size once, and no other.
pub proof fn lemma_instantiated_count(s: SnapshotView, first: int, id: u128)
    requires
        0 <= first,
        first + snapshot_size(s) <= u128::MAX,
    ensures
        count_id(instantiated(s, first), id) == (if first <= id < first + snapshot_size(s) {
            1nat
        } else {
            0nat
        }),
    decreases s, s.children.len() + 1,
{
    let made = instantiated(s, first);
    lemma_count_by_children(made, id);
    lemma_instantiated_count_upto(s, first, id, s.children.len() as int);
}

/// The instances made of the first children of a snapshot hold each id of
/// their range once, and no other.
pub proof fn lemma_instantiated_count_upto(s: SnapshotView, first: int, id: u128, upto: int)
    requires
        0 <= first,
        first + snapshot_size(s) <= u128::MAX,
        0 <= upto <= s.children.len(),
    ensures
        instantiated_upto(s, first, upto).len() == upto,
        sum_counts(instantiated_upto(s, first, upto), id, upto) == (if first + 1 <= id < first + 1
            + children_size(s, upto) {
            1nat
        } else {
            0nat
        }),
        children_size(s, upto) <= children_size(s, s.children.len() as int),
    decreases s, upto,
{
    crate::instance::lemma_children_size_monotone(s, upto, s.children.len() as int);
    if upto > 0 {
        lemma_instantiated_count_upto(s, first, id, upto - 1);
        let before = instantiated_upto(s, first, upto - 1);
        let start = first + 1 + children_size(s, upto - 1);
        crate::instance::lemma_child_fits(s, upto - 1);
        lemma_instantiated_count(s.children[upto - 1], start, id);
        lemma_sum_counts_push(before, instantiated(s.children[upto - 1], start), id);
    }
}

} // verus!
