//! Instances: the nodes of the live tree, and the functions that say what
//! the tree's operations do to them.
//!
//! An instance owns its children. Everything here is stated over
//! [`InstanceView`], the mathematical value of an instance and its
//! descendants.

use vstd::prelude::*;
use crate::metadata::{InstanceMetadata, InstanceMetadataView};
use crate::snapshot::{children_size, snapshot_size, snapshot_wf, InstanceSnapshot, SnapshotView};
use crate::value::{copy_props, prop_map, props_wf, Value, ValueView};

verus! {

/// An instance of the live tree with its descendants.
#[derive(Debug, PartialEq, Eq)]
pub struct Instance {
    pub id: u128,
    pub name: String,
    pub class_name: String,
    pub properties: Vec<(String, Value)>,
    pub metadata: InstanceMetadata,
    pub children: Vec<Instance>,
}

/// What an [`Instance`] holds. The properties are the map from each name to
/// its value.
pub struct InstanceView {
    pub id: u128,
    pub name: Seq<char>,
    pub class_name: Seq<char>,
    pub properties: Map<Seq<char>, ValueView>,
    pub metadata: InstanceMetadataView,
    pub children: Seq<InstanceView>,
}

/// The view of an instance, level by level.
pub open spec fn instance_view(n: Instance) -> InstanceView
    decreases n,
{
    InstanceView {
        id: n.id,
        name: n.name@,
        class_name: n.class_name@,
        properties: prop_map(n.properties@),
        metadata: n.metadata@,
        children: Seq::new(
            n.children@.len(),
            |i: int|
                if 0 <= i < n.children@.len() {
                    instance_view(n.children@[i])
                } else {
                    arbitrary()
                },
        ),
    }
}

impl View for Instance {
    type V = InstanceView;

    open spec fn view(&self) -> InstanceView {
        instance_view(*self)
    }
}

/// The views of a list of instances.
pub open spec fn instance_views(v: Seq<Instance>) -> Seq<InstanceView> {
    Seq::new(v.len(), |i: int| v[i]@)
}

/// An instance is well-formed when, at every level, no property name occurs
/// twice and the metadata is consistent.
pub open spec fn instance_wf(n: Instance) -> bool
    decreases n,
{
    &&& props_wf(n.properties@)
    &&& n.metadata@.consistent()
    &&& forall|i: int| 0 <= i < n.children@.len() ==> instance_wf(#[trigger] n.children@[i])
}

/// The ids of the first `upto` children of `n` and of their descendants,
/// each child before its own children.
pub open spec fn ids_upto(n: InstanceView, upto: int) -> Seq<u128>
    decreases n, upto,
{
    if 0 < upto <= n.children.len() {
        ids_upto(n, upto - 1) + ids_of(n.children[upto - 1])
    } else {
        Seq::empty()
    }
}

/// The ids of `n` and of its descendants, each instance before its children.
pub open spec fn ids_of(n: InstanceView) -> Seq<u128>
    decreases n, n.children.len() + 1,
{
    seq![n.id] + ids_upto(n, n.children.len() as int)
}

/// The instance with id `id` among the first `upto` children of `n` and
/// their descendants: the first in document order.
pub open spec fn find_upto(n: InstanceView, id: u128, upto: int) -> Option<InstanceView>
    decreases n, upto,
{
    if 0 < upto <= n.children.len() {
        match find_upto(n, id, upto - 1) {
            Some(x) => Some(x),
            None => find_in(n.children[upto - 1], id),
        }
    } else {
        None
    }
}

/// The instance with id `id` among `n` and its descendants.
pub open spec fn find_in(n: InstanceView, id: u128) -> Option<InstanceView>
    decreases n, n.children.len() + 1,
{
    if n.id == id {
        Some(n)
    } else {
        find_upto(n, id, n.children.len() as int)
    }
}

/// The first `upto` children of `n` without the child with id `id`, and
/// with that instance removed from below the others.
pub open spec fn kept_upto(n: InstanceView, id: u128, upto: int) -> Seq<InstanceView>
    decreases n, upto,
{
    if 0 < upto <= n.children.len() {
        let before = kept_upto(n, id, upto - 1);
        let child = n.children[upto - 1];
        if child.id == id {
            before
        } else {
            before.push(remove_in(child, id))
        }
    } else {
        Seq::empty()
    }
}

/// `n` with every instance with id `id` below it removed, with its
/// descendants.
pub open spec fn remove_in(n: InstanceView, id: u128) -> InstanceView
    decreases n, n.children.len() + 1,
{
    InstanceView { children: kept_upto(n, id, n.children.len() as int), ..n }
}

/// The ids that removing `id` from below `n` takes out, over the first
/// `upto` children of `n`.
pub open spec fn removed_upto(n: InstanceView, id: u128, upto: int) -> Seq<u128>
    decreases n, upto,
{
    if 0 < upto <= n.children.len() {
        let before = removed_upto(n, id, upto - 1);
        let child = n.children[upto - 1];
        if child.id == id {
            before + ids_of(child)
        } else {
            before + removed_below(child, id)
        }
    } else {
        Seq::empty()
    }
}

/// The ids that removing `id` from below `n` takes out.
pub open spec fn removed_below(n: InstanceView, id: u128) -> Seq<u128>
    decreases n, n.children.len() + 1,
{
    removed_upto(n, id, n.children.len() as int)
}

/// Removes every instance with id `id` from below `n`, with its
/// descendants, and appends the ids taken out to `removed`.
pub fn remove_node(n: &mut Instance, id: u128, removed: &mut Vec<u128>)
    requires
        instance_wf(*old(n)),
    ensures
        final(n)@ == remove_in(old(n)@, id),
        instance_wf(*final(n)),
        final(removed)@ == old(removed)@ + removed_below(old(n)@, id),
    decreases *old(n),
{
    let ghost orig = *n;
    let ghost taken0 = removed@;
    let mut k: usize = 0;
    let ghost mut done: int = 0;
    while k < n.children.len()
        invariant
            0 <= k <= n.children.len(),
            0 <= done <= orig.children.len(),
            n.children.len() - k == orig.children.len() - done,
            n.id == orig.id,
            n.name == orig.name,
            n.class_name == orig.class_name,
            n.properties == orig.properties,
            n.metadata == orig.metadata,
            orig == *old(n),
            instance_wf(orig),
            forall|j: int| k <= j < n.children.len() ==> n.children@[j] == orig.children@[done + (j - k)],
            forall|j: int| 0 <= j < k ==> instance_wf(#[trigger] n.children@[j]),
            instance_views(n.children@.subrange(0, k as int)) == kept_upto(orig@, id, done),
            removed@ == taken0 + removed_upto(orig@, id, done),
        decreases n.children.len() - k,
    {
        let ghost child = n.children@[k as int];
        assert(child == orig.children@[done]);
        assert(orig@.children[done] == child@);
        assert(instance_wf(orig.children@[done]));
        let ghost before = instance_views(n.children@.subrange(0, k as int));
        let ghost taken = removed@;
        if n.children[k].id == id {
            let gone = n.children.remove(k);
            collect_ids(&gone, removed);
            proof {
                assert(instance_views(n.children@.subrange(0, k as int)) =~= before);
                assert(removed@ =~= taken0 + removed_upto(orig@, id, done + 1));
                done = done + 1;
            }
        } else {
            remove_node(&mut n.children[k], id, removed);
            proof {
                let after = instance_views(n.children@.subrange(0, k + 1));
                assert(after =~= before.push(remove_in(child@, id)));
                assert(removed@ =~= taken0 + removed_upto(orig@, id, done + 1));
                done = done + 1;
            }
            k = k + 1;
        }
    }
    proof {
        assert(n.children@.subrange(0, k as int) =~= n.children@);
        assert(n@.children =~= instance_views(n.children@));
        assert(done == orig.children.len());
    }
}

/// Appends the ids of `n` and of its descendants to `out`, each instance
/// before its children.
pub fn collect_ids(n: &Instance, out: &mut Vec<u128>)
    ensures
        final(out)@ == old(out)@ + ids_of(n@),
    decreases n,
{
    let ghost start = out@;
    out.push(n.id);
    let mut k: usize = 0;
    while k < n.children.len()
        invariant
            0 <= k <= n.children.len(),
            out@ == start + seq![n.id] + ids_upto(n@, k as int),
        decreases n.children.len() - k,
    {
        let ghost before = out@;
        collect_ids(&n.children[k], out);
        proof {
            assert(n@.children[k as int] == n.children@[k as int]@);
            assert(out@ =~= start + seq![n.id] + ids_upto(n@, k + 1));
        }
        k = k + 1;
    }
    assert(out@ =~= start + ids_of(n@));
}

/// The first `upto` children of `n`, with `new` added below the first of
/// them that holds an instance with id `parent`.
pub open spec fn inserted_upto(n: InstanceView, parent: u128, new: InstanceView, upto: int) -> Seq<
    InstanceView,
>
    decreases n, upto,
{
    if 0 < upto <= n.children.len() {
        let before = inserted_upto(n, parent, new, upto - 1);
        let child = n.children[upto - 1];
        if find_upto(n, parent, upto - 1).is_none() && find_in(child, parent).is_some() {
            before.push(insert_in(child, parent, new))
        } else {
            before.push(child)
        }
    } else {
        Seq::empty()
    }
}

/// `n` with `new` as the last child of the instance with id `parent`: the
/// first such instance in document order. Without such an instance, `n`.
pub open spec fn insert_in(n: InstanceView, parent: u128, new: InstanceView) -> InstanceView
    decreases n, n.children.len() + 1,
{
    if n.id == parent {
        InstanceView { children: n.children.push(new), ..n }
    } else {
        InstanceView { children: inserted_upto(n, parent, new, n.children.len() as int), ..n }
    }
}

/// The instances made of the first `upto` children of the snapshot `s`,
/// where the instance made of `s` has id `first`.
pub open spec fn instantiated_upto(s: SnapshotView, first: int, upto: int) -> Seq<InstanceView>
    decreases s, upto,
{
    if 0 < upto <= s.children.len() {
        instantiated_upto(s, first, upto - 1).push(
            instantiated(s.children[upto - 1], first + 1 + children_size(s, upto - 1)),
        )
    } else {
        Seq::empty()
    }
}

/// The instance made of the snapshot `s` with ids from `first` on, each
/// instance numbered before its children, the children in order.
pub open spec fn instantiated(s: SnapshotView, first: int) -> InstanceView
    decreases s, s.children.len() + 1,
{
    InstanceView {
        id: first as u128,
        name: s.name,
        class_name: s.class_name,
        properties: s.properties,
        metadata: s.metadata,
        children: instantiated_upto(s, first, s.children.len() as int),
    }
}

/// The snapshot that describes `n` as it is: each level's provisional id
/// is the instance's id.
pub open spec fn snapshot_of(n: InstanceView) -> SnapshotView
    decreases n,
{
    SnapshotView {
        snapshot_id: Some(n.id),
        metadata: n.metadata,
        name: n.name,
        class_name: n.class_name,
        properties: n.properties,
        children: Seq::new(
            n.children.len(),
            |i: int|
                if 0 <= i < n.children.len() {
                    snapshot_of(n.children[i])
                } else {
                    arbitrary()
                },
        ),
    }
}

/// The sizes of a snapshot's first children add up to at most those of more
/// of them.
pub proof fn lemma_children_size_monotone(s: SnapshotView, a: int, b: int)
    requires
        0 <= a <= b <= s.children.len(),
    ensures
        children_size(s, a) <= children_size(s, b),
    decreases b - a,
{
    if a < b {
        lemma_children_size_monotone(s, a, b - 1);
    }
}

/// A child and the children before it are no larger than all the children.
pub proof fn lemma_child_fits(s: SnapshotView, k: int)
    requires
        0 <= k < s.children.len(),
    ensures
        children_size(s, k) + snapshot_size(s.children[k]) <= children_size(
            s,
            s.children.len() as int,
        ),
{
    lemma_children_size_monotone(s, k + 1, s.children.len() as int);
}

/// Returns the instance with id `id` among `n` and its descendants.
pub fn find_node(n: &Instance, id: u128) -> (r: Option<&Instance>)
    ensures
        match r {
            Some(x) => find_in(n@, id) == Some(x@) && x.id == id && (instance_wf(*n) ==> instance_wf(
                *x,
            )),
            None => find_in(n@, id).is_none(),
        },
    decreases n,
{
    if n.id == id {
        return Some(n);
    }
    let mut k: usize = 0;
    while k < n.children.len()
        invariant
            0 <= k <= n.children.len(),
            n.id != id,
            find_upto(n@, id, k as int).is_none(),
        decreases n.children.len() - k,
    {
        assert(n@.children[k as int] == n.children@[k as int]@);
        match find_node(&n.children[k], id) {
            Some(x) => {
                proof {
                    lemma_find_upto_stays(n@, id, k + 1, n.children.len() as int);
                }
                return Some(x);
            },
            None => {},
        }
        k = k + 1;
    }
    None
}

/// What is found among the first children is found among more of them.
pub proof fn lemma_find_upto_stays(n: InstanceView, id: u128, a: int, b: int)
    requires
        0 <= a <= b <= n.children.len(),
        find_upto(n, id, a).is_some(),
    ensures
        find_upto(n, id, b) == find_upto(n, id, a),
    decreases b - a,
{
    if a < b {
        lemma_find_upto_stays(n, id, a, b - 1);
    }
}

/// Adds `new` as the last child of the instance with id `parent` among `n`
/// and its descendants. Hands `new` back where there is no such instance.
pub fn insert_node(n: &mut Instance, parent: u128, new: Instance) -> (r: Option<Instance>)
    requires
        instance_wf(*old(n)),
        instance_wf(new),
    ensures
        instance_wf(*final(n)),
        match r {
            None => find_in(old(n)@, parent).is_some() && final(n)@ == insert_in(
                old(n)@,
                parent,
                new@,
            ),
            Some(back) => back == new && find_in(old(n)@, parent).is_none() && final(n)@ == old(
                n,
            )@,
        },
    decreases *old(n),
{
    if n.id == parent {
        n.children.push(new);
        proof {
            assert(n@.children =~= old(n)@.children.push(new@));
        }
        return None;
    }
    let ghost orig = *n;
    let mut pending = new;
    let mut k: usize = 0;
    while k < n.children.len()
        invariant
            0 <= k <= n.children.len(),
            n.children.len() == orig.children.len(),
            n.id == orig.id,
            n.name == orig.name,
            n.class_name == orig.class_name,
            n.properties == orig.properties,
            n.metadata == orig.metadata,
            orig == *old(n),
            instance_wf(orig),
            pending == new,
            instance_wf(new),
            n.id != parent,
            find_upto(orig@, parent, k as int).is_none(),
            forall|j: int| k <= j < n.children.len() ==> n.children@[j] == orig.children@[j],
            forall|j: int| 0 <= j < k ==> n.children@[j]@ == orig.children@[j]@,
            forall|j: int| 0 <= j < k ==> instance_wf(#[trigger] n.children@[j]),
            instance_views(n.children@.subrange(0, k as int)) == inserted_upto(
                orig@,
                parent,
                new@,
                k as int,
            ),
        decreases n.children.len() - k,
    {
        assert(orig@.children[k as int] == orig.children@[k as int]@);
        assert(instance_wf(orig.children@[k as int]));
        let ghost before = instance_views(n.children@.subrange(0, k as int));
        let ghost child = orig.children@[k as int];
        match insert_node(&mut n.children[k], parent, pending) {
            None => {
                proof {
                    let found = k as int;
                    let now = n@.children;
                    assert(now =~= instance_views(n.children@));
                    assert(now.subrange(0, found) =~= before);
                    assert forall|j: int| 0 <= j < now.len() && j != found implies now[j]
                        == orig@.children[j] by {
                        assert(orig@.children[j] == orig.children@[j]@);
                    }
                    lemma_inserted_rest(
                        orig@,
                        now,
                        parent,
                        new@,
                        found,
                        n.children.len() as int,
                    );
                    assert(now.subrange(0, now.len() as int) =~= now);
                    lemma_find_upto_stays(orig@, parent, k + 1, n.children.len() as int);
                    assert forall|j: int| 0 <= j < n.children@.len() implies instance_wf(
                        #[trigger] n.children@[j],
                    ) by {
                        if j > k {
                            assert(n.children@[j] == orig.children@[j]);
                        }
                    }
                }
                return None;
            },
            Some(back) => {
                pending = back;
                proof {
                    assert(instance_views(n.children@.subrange(0, k + 1)) =~= before.push(child@));
                }
            },
        }
        k = k + 1;
    }
    proof {
        assert(n@.children =~= orig@.children) by {
            assert forall|j: int| 0 <= j < n@.children.len() implies n@.children[j]
                == orig@.children[j] by {
                assert(n@.children[j] == n.children@[j]@);
                assert(orig@.children[j] == orig.children@[j]@);
            }
        }
    }
    Some(pending)
}

/// Once `new` has gone below child `found`, the children after it stay as
/// they are.
pub proof fn lemma_inserted_rest(
    n: InstanceView,
    now: Seq<InstanceView>,
    parent: u128,
    new: InstanceView,
    found: int,
    upto: int,
)
    requires
        0 <= found < upto <= n.children.len(),
        now.len() == n.children.len(),
        find_upto(n, parent, found).is_none(),
        find_in(n.children[found], parent).is_some(),
        now[found] == insert_in(n.children[found], parent, new),
        forall|j: int| 0 <= j < now.len() && j != found ==> now[j] == n.children[j],
        now.subrange(0, found) == inserted_upto(n, parent, new, found),
    ensures
        now.subrange(0, upto) == inserted_upto(n, parent, new, upto),
    decreases upto - found,
{
    if upto == found + 1 {
        assert(now.subrange(0, upto) =~= now.subrange(0, found).push(now[found]));
    } else {
        lemma_inserted_rest(n, now, parent, new, found, upto - 1);
        lemma_find_upto_stays(n, parent, found + 1, upto - 1);
        assert(now.subrange(0, upto) =~= now.subrange(0, upto - 1).push(now[upto - 1]));
    }
}

/// Makes the instance that the snapshot describes, with ids from `first`
/// on.
pub fn instantiate(s: &InstanceSnapshot, first: u128) -> (r: Instance)
    requires
        snapshot_wf(*s),
        first + snapshot_size(s@) <= u128::MAX,
    ensures
        r@ == instantiated(s@, first as int),
        instance_wf(r),
    decreases s,
{
    let mut children: Vec<Instance> = Vec::new();
    let mut next: u128 = first + 1;
    let mut k: usize = 0;
    while k < s.children.len()
        invariant
            0 <= k <= s.children.len(),
            snapshot_wf(*s),
            first + snapshot_size(s@) <= u128::MAX,
            next == first + 1 + children_size(s@, k as int),
            children.len() == k,
            instance_views(children@) == instantiated_upto(s@, first as int, k as int),
            forall|j: int| 0 <= j < k ==> instance_wf(#[trigger] children@[j]),
        decreases s.children.len() - k,
    {
        proof {
            assert(s@.children[k as int] == s.children@[k as int]@);
            assert(snapshot_wf(s.children@[k as int]));
            lemma_child_fits(s@, k as int);
        }
        let ghost before = instance_views(children@);
        let child = instantiate(&s.children[k], next);
        let used = count_instances(&s.children[k], u128::MAX - next);
        children.push(child);
        proof {
            assert(instance_views(children@) =~= before.push(child@));
        }
        next = next + used;
        k = k + 1;
    }
    let r = Instance {
        id: first,
        name: s.name.clone(),
        class_name: s.class_name.clone(),
        properties: copy_props(&s.properties),
        metadata: s.metadata.clone(),
        children,
    };
    assert(r@.children =~= instance_views(children@));
    r
}

/// Counts the instances that a snapshot describes, where that is at most
/// `limit`.
pub fn count_instances(s: &InstanceSnapshot, limit: u128) -> (r: u128)
    requires
        snapshot_size(s@) <= limit,
    ensures
        r == snapshot_size(s@),
    decreases s,
{
    let mut total: u128 = 1;
    let mut k: usize = 0;
    while k < s.children.len()
        invariant
            0 <= k <= s.children.len(),
            snapshot_size(s@) <= limit,
            total == 1 + children_size(s@, k as int),
        decreases s.children.len() - k,
    {
        proof {
            assert(s@.children[k as int] == s.children@[k as int]@);
            lemma_child_fits(s@, k as int);
        }
        let c = count_instances(&s.children[k], limit - total);
        total = total + c;
        k = k + 1;
    }
    total
}

/// Takes a snapshot of `n` and its descendants as they are.
pub fn snapshot_from(n: &Instance) -> (r: InstanceSnapshot)
    ensures
        r@ == snapshot_of(n@),
        instance_wf(*n) ==> snapshot_wf(r),
    decreases n,
{
    let mut children: Vec<InstanceSnapshot> = Vec::new();
    let mut k: usize = 0;
    while k < n.children.len()
        invariant
            0 <= k <= n.children.len(),
            children.len() == k,
            forall|j: int| 0 <= j < k ==> children@[j]@ == snapshot_of(n.children@[j]@),
            forall|j: int|
                0 <= j < k && instance_wf(n.children@[j]) ==> snapshot_wf(#[trigger] children@[j]),
        decreases n.children.len() - k,
    {
        let child = snapshot_from(&n.children[k]);
        children.push(child);
        k = k + 1;
    }
    let r = InstanceSnapshot {
        snapshot_id: Some(n.id),
        metadata: n.metadata.clone(),
        name: n.name.clone(),
        class_name: n.class_name.clone(),
        properties: copy_props(&n.properties),
        children,
    };
    assert(r@.children =~= snapshot_of(n@).children);
    r
}

/// Counts the instances that a snapshot describes, where that is at most
/// `limit`.
pub fn checked_size(s: &InstanceSnapshot, limit: u128) -> (r: Option<u128>)
    ensures
        match r {
            Some(size) => size == snapshot_size(s@) && size <= limit,
            None => snapshot_size(s@) > limit,
        },
    decreases s,
{
    if limit == 0 {
        return None;
    }
    let mut total: u128 = 1;
    let mut k: usize = 0;
    while k < s.children.len()
        invariant
            0 <= k <= s.children.len(),
            total <= limit,
            total == 1 + children_size(s@, k as int),
        decreases s.children.len() - k,
    {
        proof {
            assert(s@.children[k as int] == s.children@[k as int]@);
            lemma_child_fits(s@, k as int);
        }
        match checked_size(&s.children[k], limit - total) {
            Some(c) => {
                total = total + c;
            },
            None => {
                return None;
            },
        }
        k = k + 1;
    }
    Some(total)
}

/// The ids of the children of `n`, in order.
pub open spec fn child_ids(n: InstanceView) -> Seq<u128> {
    Seq::new(n.children.len(), |i: int| n.children[i].id)
}

/// Returns the ids of the children of `n`, in order.
pub fn children_of(n: &Instance) -> (r: Vec<u128>)
    ensures
        r@ == child_ids(n@),
{
    let mut out: Vec<u128> = Vec::new();
    let mut k: usize = 0;
    while k < n.children.len()
        invariant
            0 <= k <= n.children.len(),
            out.len() == k,
            forall|j: int| 0 <= j < k ==> out@[j] == n.children@[j].id,
        decreases n.children.len() - k,
    {
        out.push(n.children[k].id);
        k = k + 1;
    }
    assert forall|j: int| 0 <= j < n.children@.len() implies out@[j] == child_ids(n@)[j] by {
        assert(n@.children[j] == n.children@[j]@);
        assert(n.children@[j]@.id == n.children@[j].id);
    }
    assert(out@ =~= child_ids(n@));
    out
}

/// Returns the ids of the descendants of `n`, each instance before its
/// children.
pub fn descendants_of(n: &Instance) -> (r: Vec<u128>)
    ensures
        r@ == ids_upto(n@, n@.children.len() as int),
{
    let mut out: Vec<u128> = Vec::new();
    let mut k: usize = 0;
    assert(n@.children.len() == n.children@.len());
    while k < n.children.len()
        invariant
            0 <= k <= n.children.len(),
            out@ == ids_upto(n@, k as int),
        decreases n.children.len() - k,
    {
        assert(n@.children[k as int] == n.children@[k as int]@);
        collect_ids(&n.children[k], &mut out);
        k = k + 1;
    }
    out
}

} // verus!
