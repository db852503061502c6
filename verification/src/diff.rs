//! Computing the patch that brings an instance in line with a snapshot.
//!
//! The snapshot is matched against the instance. Where name, class,
//! properties or metadata differ, the patch holds an update. The children
//! of the snapshot are matched, in order, each with the first child of the
//! instance that has its name and class and is not matched yet; matched
//! pairs are compared in the same way. A child of the snapshot without a
//! match is added; a child of the instance without a match is removed,
//! unless the instance ignores unknown instances.

use vstd::prelude::*;
use crate::instance::{instance_views, instance_wf, snapshot_of, Instance, InstanceView};
use crate::patch::{add_views, change_map, change_names, changes_wf, delta_map, diff_properties, lemma_change_at, lemma_delta_of_same, patch_wf, update_views, update_wf, AddView, PatchAdd, PatchSet, PatchUpdate, PatchView, UpdateView};
use crate::path::str_eq;
use crate::snapshot::{snapshot_wf, InstanceSnapshot, SnapshotView};
use crate::value::ValueView;

verus! {

/// The update that brings `n` itself in line with `s`, if anything differs.
pub open spec fn update_for(s: SnapshotView, n: InstanceView) -> Option<UpdateView> {
    let u = UpdateView {
        id: n.id,
        changed_name: if s.name == n.name {
            None
        } else {
            Some(s.name)
        },
        changed_class_name: if s.class_name == n.class_name {
            None
        } else {
            Some(s.class_name)
        },
        changed_properties: delta_map(s.properties, n.properties),
        changed_metadata: if s.metadata == n.metadata {
            None
        } else {
            Some(s.metadata)
        },
    };
    if u.changed_name.is_none() && u.changed_class_name.is_none() && u.changed_properties
        == Map::<Seq<char>, Option<ValueView>>::empty() && u.changed_metadata.is_none() {
        None
    } else {
        Some(u)
    }
}

/// Index of the first instance at or after `from` that is not in `taken`
/// and has the name and class of `s`, or `-1`.
pub open spec fn first_free_match(
    s: SnapshotView,
    kids: Seq<InstanceView>,
    taken: Set<int>,
    from: int,
) -> int
    decreases kids.len() - from,
{
    if from < 0 || from >= kids.len() {
        -1
    } else if !taken.contains(from) && kids[from].name == s.name && kids[from].class_name
        == s.class_name {
        from
    } else {
        first_free_match(s, kids, taken, from + 1)
    }
}

/// The children of `n` that the first `upto` children of `s` are matched
/// with.
pub open spec fn taken_upto(s: SnapshotView, n: InstanceView, upto: int) -> Set<int>
    decreases upto,
{
    if 0 < upto <= s.children.len() {
        let before = taken_upto(s, n, upto - 1);
        let m = first_free_match(s.children[upto - 1], n.children, before, 0);
        if m >= 0 {
            before.insert(m)
        } else {
            before
        }
    } else {
        Set::empty()
    }
}

/// The child of `n` that child `i` of `s` is matched with, or `-1`.
pub open spec fn match_of(s: SnapshotView, n: InstanceView, i: int) -> int {
    first_free_match(s.children[i], n.children, taken_upto(s, n, i), 0)
}

/// The patch for the first `upto` children of `s` against the children of
/// `n`.
pub open spec fn children_patch(s: SnapshotView, n: InstanceView, upto: int) -> PatchView
    decreases s, upto,
{
    if 0 < upto <= s.children.len() {
        let before = children_patch(s, n, upto - 1);
        let m = match_of(s, n, upto - 1);
        if 0 <= m < n.children.len() {
            before.concat(patch_of(s.children[upto - 1], n.children[m]))
        } else {
            PatchView {
                added: before.added.push(
                    AddView { parent_id: n.id, provisional_id: 0, instance: s.children[upto - 1] },
                ),
                ..before
            }
        }
    } else {
        PatchView::empty()
    }
}

/// The ids of those among the first `upto` children of `n` that no child of
/// `s` is matched with.
pub open spec fn unmatched_ids(s: SnapshotView, n: InstanceView, upto: int) -> Seq<u128>
    decreases upto,
{
    if 0 < upto <= n.children.len() {
        let before = unmatched_ids(s, n, upto - 1);
        if taken_upto(s, n, s.children.len() as int).contains(upto - 1) {
            before
        } else {
            before.push(n.children[upto - 1].id)
        }
    } else {
        Seq::empty()
    }
}

/// The patch that brings `n` and its descendants in line with `s`, the
/// additions not yet numbered.
pub open spec fn patch_of(s: SnapshotView, n: InstanceView) -> PatchView
    decreases s, s.children.len() + 1,
{
    let own = match update_for(s, n) {
        Some(u) => PatchView { updated: seq![u], ..PatchView::empty() },
        None => PatchView::empty(),
    };
    let below = children_patch(s, n, s.children.len() as int);
    let gone = if n.metadata.ignore_unknown_instances {
        Seq::empty()
    } else {
        unmatched_ids(s, n, n.children.len() as int)
    };
    PatchView { removed: own.removed + below.removed + gone, ..own.concat(below) }
}

/// The same patch with each addition numbered by its position.
pub open spec fn numbered(p: PatchView) -> PatchView {
    PatchView {
        added: Seq::new(
            p.added.len(),
            |i: int| AddView { provisional_id: i, ..p.added[i] },
        ),
        ..p
    }
}

/// The indices at which `t` holds `true`.
pub open spec fn taken_set(t: Seq<bool>) -> Set<int> {
    Set::new(|i: int| 0 <= i < t.len() && t[i])
}

/// A match is the index of a child that is free and has the name and class.
pub proof fn lemma_first_free_match(
    s: SnapshotView,
    kids: Seq<InstanceView>,
    taken: Set<int>,
    from: int,
)
    requires
        0 <= from,
    ensures
        -1 <= first_free_match(s, kids, taken, from) < kids.len(),
        first_free_match(s, kids, taken, from) >= 0 ==> {
            let m = first_free_match(s, kids, taken, from);
            from <= m && !taken.contains(m) && kids[m].name == s.name && kids[m].class_name
                == s.class_name
        },
    decreases kids.len() - from,
{
    if from < kids.len() && !(!taken.contains(from) && kids[from].name == s.name
        && kids[from].class_name == s.class_name) {
        lemma_first_free_match(s, kids, taken, from + 1);
    }
}

/// Computes the update that brings `n` itself in line with `s`.
pub fn compute_update(s: &InstanceSnapshot, n: &Instance) -> (r: Option<PatchUpdate>)
    requires
        snapshot_wf(*s),
        instance_wf(*n),
    ensures
        match r {
            Some(u) => update_for(s@, n@) == Some(u@) && update_wf(u),
            None => update_for(s@, n@).is_none(),
        },
{
    let changed_name = if str_eq(s.name.as_str(), n.name.as_str()) {
        None
    } else {
        Some(s.name.clone())
    };
    let changed_class_name = if str_eq(s.class_name.as_str(), n.class_name.as_str()) {
        None
    } else {
        Some(s.class_name.clone())
    };
    let changed_properties = diff_properties(&s.properties, &n.properties);
    let changed_metadata = if s.metadata.same(&n.metadata) {
        None
    } else {
        Some(s.metadata.clone())
    };
    proof {
        if changed_properties.len() == 0 {
            assert(change_map(changed_properties@) =~= Map::<Seq<char>, Option<ValueView>>::empty());
        } else {
            lemma_change_at(changed_properties@, 0);
        }
    }
    if changed_name.is_none() && changed_class_name.is_none() && changed_properties.len() == 0
        && changed_metadata.is_none() {
        None
    } else {
        Some(
            PatchUpdate {
                id: n.id,
                changed_name,
                changed_class_name,
                changed_properties,
                changed_metadata,
            },
        )
    }
}

/// Finds the first child that is free and has the name and class of `s`.
pub fn find_match(s: &InstanceSnapshot, kids: &Vec<Instance>, taken: &Vec<bool>) -> (r: Option<
    usize,
>)
    requires
        taken.len() == kids.len(),
    ensures
        match r {
            Some(m) => m < kids.len() && m as int == first_free_match(
                s@,
                instance_views(kids@),
                taken_set(taken@),
                0,
            ),
            None => first_free_match(s@, instance_views(kids@), taken_set(taken@), 0) == -1,
        },
{
    let ghost views = instance_views(kids@);
    let ghost set = taken_set(taken@);
    let mut j: usize = 0;
    while j < kids.len()
        invariant
            0 <= j <= kids.len(),
            taken.len() == kids.len(),
            views == instance_views(kids@),
            set == taken_set(taken@),
            first_free_match(s@, views, set, j as int) == first_free_match(s@, views, set, 0),
        decreases kids.len() - j,
    {
        assert(views[j as int] == kids@[j as int]@);
        if !taken[j] && str_eq(kids[j].name.as_str(), s.name.as_str()) && str_eq(
            kids[j].class_name.as_str(),
            s.class_name.as_str(),
        ) {
            return Some(j);
        }
        j = j + 1;
    }
    None
}

/// Appends to `patch` what brings `n` and its descendants in line with `s`.
pub fn compute_into(s: &InstanceSnapshot, n: &Instance, patch: &mut PatchSet)
    requires
        snapshot_wf(*s),
        instance_wf(*n),
        patch_wf(*old(patch)),
    ensures
        final(patch)@ == old(patch)@.concat(patch_of(s@, n@)),
        patch_wf(*final(patch)),
    decreases s,
{
    let ghost start = patch@;
    let ghost kids = instance_views(n.children@);
    assert(n@.children =~= kids);
    match compute_update(s, n) {
        Some(u) => {
            let ghost before = patch.updated_instances@;
            patch.updated_instances.push(u);
            proof {
                assert(update_views(patch.updated_instances@) =~= update_views(before).push(u@));
            }
        },
        None => {},
    }
    let ghost own = match update_for(s@, n@) {
        Some(u) => PatchView { updated: seq![u], ..PatchView::empty() },
        None => PatchView::empty(),
    };
    assert(patch@.updated =~= start.updated + own.updated);
    assert(patch@.removed =~= start.removed + own.removed);
    assert(patch@.added =~= start.added + own.added);
    let mut taken: Vec<bool> = Vec::new();
    let mut t: usize = 0;
    while t < n.children.len()
        invariant
            0 <= t <= n.children.len(),
            taken.len() == t,
            forall|j: int| 0 <= j < t ==> !taken[j],
        decreases n.children.len() - t,
    {
        taken.push(false);
        t = t + 1;
    }
    assert(taken_set(taken@) =~= Set::<int>::empty());
    let mut k: usize = 0;
    while k < s.children.len()
        invariant
            0 <= k <= s.children.len(),
            snapshot_wf(*s),
            instance_wf(*n),
            patch_wf(*patch),
            taken.len() == n.children.len(),
            kids == instance_views(n.children@),
            n@.children == kids,
            taken_set(taken@) == taken_upto(s@, n@, k as int),
            patch@ == start.concat(own).concat(children_patch(s@, n@, k as int)),
        decreases s.children.len() - k,
    {
        let ghost before = patch@;
        let ghost sofar = children_patch(s@, n@, k as int);
        proof {
            assert(s@.children[k as int] == s.children@[k as int]@);
            assert(snapshot_wf(s.children@[k as int]));
        }
        match find_match(&s.children[k], &n.children, &taken) {
            Some(m) => {
                proof {
                    assert(kids[m as int] == n.children@[m as int]@);
                    assert(instance_wf(n.children@[m as int]));
                }
                let ghost old_taken = taken@;
                taken.set(m, true);
                assert(taken_set(taken@) =~= taken_set(old_taken).insert(m as int));
                compute_into(&s.children[k], &n.children[m], patch);
                proof {
                    let sub = patch_of(s@.children[k as int], n@.children[m as int]);
                    assert(children_patch(s@, n@, k + 1) == sofar.concat(sub));
                    let goal = start.concat(own).concat(sofar.concat(sub));
                    assert(patch@.removed =~= goal.removed);
                    assert(patch@.added =~= goal.added);
                    assert(patch@.updated =~= goal.updated);
                }
            },
            None => {
                let ghost added_before = patch.added_instances@;
                let child = s.children[k].clone();
                patch.added_instances.push(
                    PatchAdd { parent_id: n.id, provisional_id: 0, instance: child },
                );
                proof {
                    let a = AddView {
                        parent_id: n.id,
                        provisional_id: 0,
                        instance: s@.children[k as int],
                    };
                    assert(add_views(patch.added_instances@) =~= add_views(added_before).push(a));
                    let next = children_patch(s@, n@, k + 1);
                    assert(next.added == sofar.added.push(a));
                    let goal = start.concat(own).concat(next);
                    assert(patch@.removed =~= goal.removed);
                    assert(patch@.added =~= goal.added);
                    assert(patch@.updated =~= goal.updated);
                }
            },
        }
        k = k + 1;
    }
    let ghost below = children_patch(s@, n@, s.children.len() as int);
    if !n.metadata.ignore_unknown_instances {
        let mut j: usize = 0;
        let ghost removed0 = patch.removed_instances@;
        assert(removed0 + unmatched_ids(s@, n@, 0) =~= removed0);
        while j < n.children.len()
            invariant
                0 <= j <= n.children.len(),
                patch_wf(*patch),
                taken.len() == n.children.len(),
                kids == instance_views(n.children@),
                n@.children == kids,
                taken_set(taken@) == taken_upto(s@, n@, s.children.len() as int),
                patch.removed_instances@ == removed0 + unmatched_ids(s@, n@, j as int),
                add_views(patch.added_instances@) == start.concat(own).concat(below).added,
                update_views(patch.updated_instances@) == start.concat(own).concat(below).updated,
            decreases n.children.len() - j,
        {
            assert(kids[j as int] == n.children@[j as int]@);
            if !taken[j] {
                patch.removed_instances.push(n.children[j].id);
            }
            assert(patch.removed_instances@ =~= removed0 + unmatched_ids(s@, n@, j + 1));
            j = j + 1;
        }
    }
    proof {
        let goal = start.concat(patch_of(s@, n@));
        assert(patch@.removed =~= goal.removed);
        assert(patch@.added =~= goal.added);
        assert(patch@.updated =~= goal.updated);
    }
}

/// The indices below `k`.
pub open spec fn below(k: int) -> Set<int> {
    Set::new(|i: int| 0 <= i < k)
}

/// Whether `id` is the id of a child of an instance, among `n` and its
/// descendants, that does not ignore unknown instances.
pub open spec fn attended_child(n: InstanceView, id: u128) -> bool
    decreases n,
{
    ||| (!n.metadata.ignore_unknown_instances && exists|j: int|
        0 <= j < n.children.len() && #[trigger] n.children[j].id == id)
    ||| exists|j: int| 0 <= j < n.children.len() && attended_child(#[trigger] n.children[j], id)
}

/// With the children before `k` taken, a child `k` that has the name and
/// class is the first free match.
pub proof fn lemma_match_skips_taken(s: SnapshotView, kids: Seq<InstanceView>, k: int, from: int)
    requires
        0 <= from <= k < kids.len(),
        kids[k].name == s.name,
        kids[k].class_name == s.class_name,
    ensures
        first_free_match(s, kids, below(k), from) == k,
    decreases k - from,
{
    if from < k {
        lemma_match_skips_taken(s, kids, k, from + 1);
    }
}

/// Against its own snapshot, every child of `n` is matched with itself.
proof fn lemma_identity_matching(n: InstanceView, k: int)
    requires
        0 <= k <= n.children.len(),
    ensures
        taken_upto(snapshot_of(n), n, k) == below(k),
        k < n.children.len() ==> match_of(snapshot_of(n), n, k) == k,
    decreases k,
{
    let s = snapshot_of(n);
    if k > 0 {
        lemma_identity_matching(n, k - 1);
        assert(taken_upto(s, n, k) =~= below(k));
    } else {
        assert(taken_upto(s, n, k) =~= below(k));
    }
    if k < n.children.len() {
        reveal_with_fuel(snapshot_of, 2);
        assert(s.children[k] == snapshot_of(n.children[k]));
        lemma_match_skips_taken(s.children[k], n.children, k, 0);
    }
}

/// Against its own snapshot, the children of `n` need no patch.
proof fn lemma_children_need_no_patch(n: InstanceView, k: int)
    requires
        0 <= k <= n.children.len(),
    ensures
        children_patch(snapshot_of(n), n, k) == PatchView::empty(),
    decreases n, k,
{
    let s = snapshot_of(n);
    if k > 0 {
        lemma_children_need_no_patch(n, k - 1);
        lemma_identity_matching(n, k - 1);
        lemma_snapshot_needs_no_patch(n.children[k - 1]);
        let before = children_patch(s, n, k - 1);
        let sub = patch_of(s.children[k - 1], n.children[k - 1]);
        assert(before.concat(sub).removed =~= Seq::<u128>::empty());
        assert(before.concat(sub).added =~= Seq::<AddView>::empty());
        assert(before.concat(sub).updated =~= Seq::<UpdateView>::empty());
    }
}

/// Against its own snapshot, no child of `n` is left without a match.
proof fn lemma_none_unmatched(n: InstanceView, j: int)
    requires
        0 <= j <= n.children.len(),
    ensures
        unmatched_ids(snapshot_of(n), n, j) == Seq::<u128>::empty(),
    decreases j,
{
    if j > 0 {
        lemma_none_unmatched(n, j - 1);
        lemma_identity_matching(n, n.children.len() as int);
    }
}

/// The snapshot taken of an instance needs no patch against that instance:
/// computing the patch of a tree against its own snapshot changes nothing.
pub proof fn lemma_snapshot_needs_no_patch(n: InstanceView)
    ensures
        patch_of(snapshot_of(n), n) == PatchView::empty(),
        numbered(patch_of(snapshot_of(n), n)) == PatchView::empty(),
    decreases n, n.children.len() + 1,
{
    let s = snapshot_of(n);
    lemma_delta_of_same(n.properties);
    assert(update_for(s, n).is_none());
    lemma_children_need_no_patch(n, n.children.len() as int);
    lemma_none_unmatched(n, n.children.len() as int);
    let p = patch_of(s, n);
    assert(p.removed =~= Seq::<u128>::empty());
    assert(p.added =~= Seq::<AddView>::empty());
    assert(p.updated =~= Seq::<UpdateView>::empty());
    assert(numbered(p).added =~= Seq::<AddView>::empty());
}

/// An id without a match is the id of a child.
proof fn lemma_unmatched_are_children(s: SnapshotView, n: InstanceView, j: int, id: u128)
    requires
        0 <= j <= n.children.len(),
        unmatched_ids(s, n, j).contains(id),
    ensures
        exists|i: int| 0 <= i < n.children.len() && #[trigger] n.children[i].id == id,
    decreases j,
{
    if j > 0 {
        let before = unmatched_ids(s, n, j - 1);
        if before.contains(id) {
            lemma_unmatched_are_children(s, n, j - 1, id);
        } else {
            let all = unmatched_ids(s, n, j);
            let w = all.index_of(id);
            assert(all[w] == id);
            if w < before.len() {
                assert(before[w] == id);
            }
            assert(n.children[j - 1].id == id);
        }
    }
}

/// What the patch for the children removes lies below an attended parent
/// within one of the children.
proof fn lemma_children_removed_attended(s: SnapshotView, n: InstanceView, k: int, id: u128)
    requires
        0 <= k <= s.children.len(),
        children_patch(s, n, k).removed.contains(id),
    ensures
        exists|j: int| 0 <= j < n.children.len() && attended_child(#[trigger] n.children[j], id),
    decreases s, k,
{
    if k > 0 {
        let before = children_patch(s, n, k - 1);
        let m = match_of(s, n, k - 1);
        if 0 <= m < n.children.len() {
            let sub = patch_of(s.children[k - 1], n.children[m]);
            let all = before.removed + sub.removed;
            let w = all.index_of(id);
            assert(all[w] == id);
            if w < before.removed.len() {
                assert(before.removed[w] == id);
                lemma_children_removed_attended(s, n, k - 1, id);
            } else {
                assert(sub.removed[w - before.removed.len()] == id);
                lemma_removed_are_attended(s.children[k - 1], n.children[m], id);
            }
        } else {
            lemma_children_removed_attended(s, n, k - 1, id);
        }
    }
}

/// Whatever a patch removes is a child of an instance that does not ignore
/// unknown instances: no patch removes a child of an instance that does.
pub proof fn lemma_removed_are_attended(s: SnapshotView, n: InstanceView, id: u128)
    requires
        patch_of(s, n).removed.contains(id),
    ensures
        attended_child(n, id),
        numbered(patch_of(s, n)).removed == patch_of(s, n).removed,
    decreases s, s.children.len() + 1,
{
    let own = match update_for(s, n) {
        Some(u) => PatchView { updated: seq![u], ..PatchView::empty() },
        None => PatchView::empty(),
    };
    let sub = children_patch(s, n, s.children.len() as int);
    let gone = if n.metadata.ignore_unknown_instances {
        Seq::empty()
    } else {
        unmatched_ids(s, n, n.children.len() as int)
    };
    let all = own.removed + sub.removed + gone;
    assert(own.removed.len() == 0);
    let w = all.index_of(id);
    assert(all[w] == id);
    if w < sub.removed.len() {
        assert(sub.removed[w] == id);
        lemma_children_removed_attended(s, n, s.children.len() as int, id);
    } else {
        assert(gone[w - sub.removed.len()] == id);
        lemma_unmatched_are_children(s, n, n.children.len() as int, id);
    }
}

} // verus!
