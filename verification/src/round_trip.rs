//! The round trip: applying the patch that was computed for a snapshot
//! gives a tree that the snapshot describes.
//!
//! This holds where the children of the snapshot line up with the children
//! of the instance, so that what is kept stays in the order of the
//! snapshot. It holds in particular for an instance without children,
//! which is how a session builds its tree.

use vstd::prelude::*;
use crate::aligned::{aligned, lead, lemma_child_unique, lemma_lead_from, no_later_match};
use crate::diff::{children_patch, numbered, patch_of, update_for};
use crate::ids::{count_id, ids_below, ids_unique};
use crate::instance::{instantiated, instantiated_upto, lemma_children_size_monotone, snapshot_of, InstanceView};
use crate::patch::{delta_map, lemma_delta_reaches, AddView};
use crate::path_index::lemma_child_count_bounded;
use crate::phases::{added_children, grown_child, grown_children, lemma_additions_root, lemma_phase_removals, lemma_phase_updates, next_at, top_after_own_update, top_after_removals, top_after_updates};
use crate::reconcile::{after_additions, after_patch, can_add, Grown};
use crate::snapshot::{children_size, snapshot_size, without_ids, SnapshotView};
use crate::update::apply_update;

verus! {

/// The instances made of the first children of a snapshot, by position.
pub proof fn lemma_instantiated_children(s: SnapshotView, first: int, upto: int, i: int)
    requires
        0 <= i < upto <= s.children.len(),
    ensures
        instantiated_upto(s, first, upto).len() == upto,
        instantiated_upto(s, first, upto)[i] == instantiated(
            s.children[i],
            first + 1 + children_size(s, i),
        ),
    decreases upto,
{
    lemma_instantiated_len(s, first, upto - 1);
    if i < upto - 1 {
        lemma_instantiated_children(s, first, upto - 1, i);
    }
}

/// One instance is made of each of the first children of a snapshot.
pub proof fn lemma_instantiated_len(s: SnapshotView, first: int, upto: int)
    requires
        0 <= upto <= s.children.len(),
    ensures
        instantiated_upto(s, first, upto).len() == upto,
    decreases upto,
{
    if upto > 0 {
        lemma_instantiated_len(s, first, upto - 1);
    }
}

/// The snapshot of the instance made of a snapshot is that snapshot, the
/// provisional ids apart.
pub proof fn lemma_instantiated_shape(s: SnapshotView, first: int)
    ensures
        without_ids(snapshot_of(instantiated(s, first))) == without_ids(s),
    decreases s,
{
    let made = instantiated(s, first);
    let a = without_ids(snapshot_of(made));
    let b = without_ids(s);
    lemma_instantiated_len(s, first, s.children.len() as int);
    assert(a.children.len() == b.children.len());
    assert forall|i: int| 0 <= i < a.children.len() implies a.children[i] == b.children[i] by {
        lemma_instantiated_children(s, first, s.children.len() as int, i);
        lemma_instantiated_shape(s.children[i], first + 1 + children_size(s, i));
    }
    assert(a.children =~= b.children);
}

/// `n` itself after the update that was computed for it against `s`, or
/// `n` where no update was needed.
pub open spec fn own_fields_updated(s: SnapshotView, n: InstanceView) -> InstanceView {
    match update_for(s, n) {
        Some(u) => apply_update(n, u),
        None => n,
    }
}

/// Applying the update that was computed for an instance against a
/// snapshot gives the instance the name, the class, the properties and the
/// metadata of the snapshot, and leaves its id and its children as they
/// were.
pub proof fn lemma_own_fields_round_trip(s: SnapshotView, n: InstanceView)
    ensures
        own_fields_updated(s, n).name == s.name,
        own_fields_updated(s, n).class_name == s.class_name,
        own_fields_updated(s, n).properties == s.properties,
        own_fields_updated(s, n).metadata == s.metadata,
        own_fields_updated(s, n).id == n.id,
        own_fields_updated(s, n).children == n.children,
{
    match update_for(s, n) {
        Some(u) => {
            lemma_delta_reaches(s.properties, n.properties);
        },
        None => {
            assert(delta_map(s.properties, n.properties) == Map::<
                Seq<char>,
                Option<crate::value::ValueView>,
            >::empty());
            assert forall|k: Seq<char>| s.properties.contains_key(k) == n.properties.contains_key(
                k,
            ) by {
                assert(!delta_map(s.properties, n.properties).contains_key(k));
            }
            assert forall|k: Seq<char>| s.properties.contains_key(k) implies s.properties[k]
                == n.properties[k] by {
                assert(!delta_map(s.properties, n.properties).contains_key(k));
            }
            assert(s.properties =~= n.properties);
        },
    }
}

/// The snapshot of `n` without its ids: its shape.
pub open spec fn shape_of(n: InstanceView) -> SnapshotView {
    without_ids(snapshot_of(n))
}

/// For the children that line up, applying the patch of each pair gives
/// the shape of the child of the snapshot, and uses no more ids than that
/// child describes instances.
pub proof fn lemma_children_round_trip(s: SnapshotView, x: InstanceView, next: int, k: int)
    requires
        aligned(s, x),
        ids_unique(x),
        ids_below(x, next),
        0 <= next,
        next + snapshot_size(s) <= u128::MAX,
        0 <= k <= lead(s, x),
    ensures
        next <= next_at(s, x, next, k) <= next + children_size(s, k),
        forall|j: int|
            0 <= j < k ==> shape_of(
                #[trigger] grown_child(s, x, j, next_at(s, x, next, j)).tree,
            ) == without_ids(s.children[j]),
    decreases s, k,
{
    lemma_lead_from(s, x, 0);
    if k > 0 {
        lemma_children_round_trip(s, x, next, k - 1);
        let j = k - 1;
        let n = next_at(s, x, next, j);
        let child = x.children[j];
        lemma_child_unique(x, j);
        assert forall|id: u128| id >= n implies #[trigger] count_id(child, id) == 0 by {
            lemma_child_count_bounded(x, id, j, x.children.len() as int);
            assert(count_id(x, id) == 0);
        }
        lemma_children_size_monotone(s, k, s.children.len() as int);
        assert(aligned(s.children[j], child));
        lemma_aligned_round_trip(s.children[j], child, n);
        assert(grown_child(s, x, j, n) == after_patch(
            child,
            n,
            patch_of(s.children[j], child),
        ));
    }
}

/// Applying the patch that was computed for a snapshot against an instance
/// whose children line up with the children of the snapshot gives an
/// instance whose snapshot is that snapshot, the ids apart. It uses fewer
/// ids than the snapshot describes instances.
pub proof fn lemma_aligned_round_trip(s: SnapshotView, x: InstanceView, next: int)
    requires
        aligned(s, x),
        ids_unique(x),
        ids_below(x, next),
        0 <= next,
        next + snapshot_size(s) <= u128::MAX,
    ensures
        shape_of(after_patch(x, next, patch_of(s, x)).tree) == without_ids(s),
        next <= after_patch(x, next, patch_of(s, x)).next <= next + snapshot_size(s) - 1,
    decreases s, s.children.len() + 1,
{
    let m = lead(s, x);
    let len = s.children.len() as int;
    let p = patch_of(s, x);
    lemma_lead_from(s, x, 0);
    lemma_phase_removals(s, x);
    lemma_phase_updates(s, x);
    lemma_children_round_trip(s, x, next, m);
    lemma_children_size_monotone(s, m, len);
    lemma_additions_root(s, x, next, len);
    assert(p.added =~= children_patch(s, x, len).added);
    let last = after_patch(x, next, p);
    let first = next_at(s, x, next, m);
    let top = top_after_own_update(s, x);
    assert(last.tree == (InstanceView {
        children: grown_children(s, x, next, m) + added_children(s, x, first, len - m),
        ..top
    }));
    lemma_own_fields_round_trip(s, x);
    match update_for(s, x) {
        Some(u) => {
            assert(top == apply_update(top_after_removals(s, x), u));
        },
        None => {},
    }
    assert(top.name == s.name);
    assert(top.class_name == s.class_name);
    assert(top.properties == s.properties);
    assert(top.metadata == s.metadata);
    let a = shape_of(last.tree);
    let b = without_ids(s);
    assert(a.children.len() == b.children.len());
    assert forall|i: int| 0 <= i < a.children.len() implies a.children[i] == b.children[i] by {
        if i < m {
            assert(last.tree.children[i] == grown_child(s, x, i, next_at(s, x, next, i)).tree);
        } else {
            let r = i - m;
            assert(last.tree.children[i] == added_children(s, x, first, len - m)[r]);
            lemma_instantiated_shape(s.children[i], first + children_size(s, i) - children_size(s, m));
        }
    }
    assert(a.children =~= b.children);
}

/// Additions that differ in their numbers alone do the same.
pub proof fn lemma_numbers_are_neutral(start: Grown, a: Seq<AddView>, b: Seq<AddView>, upto: int)
    requires
        a.len() == b.len(),
        0 <= upto <= a.len(),
        forall|k: int|
            0 <= k < a.len() ==> (#[trigger] a[k]).parent_id == b[k].parent_id && a[k].instance
                == b[k].instance,
    ensures
        after_additions(start, a, upto) == after_additions(start, b, upto),
    decreases upto,
{
    if upto > 0 {
        lemma_numbers_are_neutral(start, a, b, upto - 1);
        assert(a[upto - 1].parent_id == b[upto - 1].parent_id);
    }
}

/// Applying the patch set that was computed for a snapshot against the
/// root of a tree gives a tree whose snapshot is that snapshot, the ids
/// apart, where the children of the snapshot line up with the children of
/// the instances, no id occurs twice, and ids are left for every instance
/// that the snapshot describes.
pub proof fn lemma_round_trip(root: InstanceView, next: int, s: SnapshotView)
    requires
        aligned(s, root),
        ids_unique(root),
        ids_below(root, next),
        0 <= next,
        next + snapshot_size(s) <= u128::MAX,
    ensures
        shape_of(after_patch(root, next, numbered(patch_of(s, root))).tree) == without_ids(s),
{
    let p = patch_of(s, root);
    lemma_aligned_round_trip(s, root, next);
    let start = Grown {
        tree: crate::reconcile::after_updates(
            crate::reconcile::after_removals(root, p.removed, p.removed.len() as int),
            p.updated,
            p.updated.len() as int,
        ),
        next,
        added: Seq::<u128>::empty(),
    };
    lemma_numbers_are_neutral(start, numbered(p).added, p.added, p.added.len() as int);
}

} // verus!
