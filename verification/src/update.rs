//! Applying an update to an instance.

use vstd::prelude::*;
use crate::instance::{find_in, find_upto, instance_views, instance_wf, lemma_find_upto_stays, Instance, InstanceView};
use crate::patch::{apply_changes, change_map, change_names, changes_wf, lemma_change_at, lemma_change_push, option_value, update_wf, PatchUpdate, UpdateView};
use crate::value::{find_prop, lemma_prop_push, lemma_prop_remove, lemma_prop_set, prop_map, prop_names, props_wf, Value, ValueView};

verus! {

/// `n` itself after the update: each field that the update names has its
/// new value, the properties are changed as the update says, and the id
/// and the children are as they were.
pub open spec fn apply_update(n: InstanceView, u: UpdateView) -> InstanceView {
    InstanceView {
        name: match u.changed_name {
            Some(x) => x,
            None => n.name,
        },
        class_name: match u.changed_class_name {
            Some(x) => x,
            None => n.class_name,
        },
        properties: apply_changes(n.properties, u.changed_properties),
        metadata: match u.changed_metadata {
            Some(m) => m,
            None => n.metadata,
        },
        ..n
    }
}

/// The first `upto` children of `n`, with the update applied below the
/// first of them that holds the instance it is for.
pub open spec fn updated_upto(n: InstanceView, u: UpdateView, upto: int) -> Seq<InstanceView>
    decreases n, upto,
{
    if 0 < upto <= n.children.len() {
        let before = updated_upto(n, u, upto - 1);
        let child = n.children[upto - 1];
        if find_upto(n, u.id, upto - 1).is_none() && find_in(child, u.id).is_some() {
            before.push(update_in(child, u))
        } else {
            before.push(child)
        }
    } else {
        Seq::empty()
    }
}

/// `n` with the update applied to the instance it is for: the first with
/// that id in document order. Without such an instance, `n`.
pub open spec fn update_in(n: InstanceView, u: UpdateView) -> InstanceView
    decreases n, n.children.len() + 1,
{
    if n.id == u.id {
        apply_update(n, u)
    } else {
        InstanceView { children: updated_upto(n, u, n.children.len() as int), ..n }
    }
}

/// Changes `props` as `changes` says: a name with a value is set, a name
/// with `None` is removed.
pub fn apply_property_changes(
    props: &mut Vec<(String, Value)>,
    changes: &Vec<(String, Option<Value>)>,
)
    requires
        props_wf(old(props)@),
        changes_wf(changes@),
    ensures
        props_wf(final(props)@),
        prop_map(final(props)@) == apply_changes(prop_map(old(props)@), change_map(changes@)),
{
    let ghost start = prop_map(props@);
    let mut i: usize = 0;
    assert(change_map(changes@.subrange(0, 0)) =~= Map::<Seq<char>, Option<ValueView>>::empty());
    assert(apply_changes(start, change_map(changes@.subrange(0, 0))) =~= start);
    assert(change_names(changes@.subrange(0, 0)) =~= Seq::<Seq<char>>::empty());
    while i < changes.len()
        invariant
            0 <= i <= changes.len(),
            props_wf(props@),
            changes_wf(changes@),
            changes_wf(changes@.subrange(0, i as int)),
            prop_map(props@) == apply_changes(start, change_map(changes@.subrange(0, i as int))),
        decreases changes.len() - i,
    {
        let ghost done = changes@.subrange(0, i as int);
        let ghost pair = changes@[i as int];
        let ghost name = pair.0@;
        let ghost before = prop_map(props@);
        proof {
            assert(changes@.subrange(0, i + 1) =~= done.push(pair));
            if change_names(done).contains(name) {
                let j = change_names(done).index_of(name);
                assert(change_names(done)[j] == name);
                assert(change_names(changes@)[j] == name);
                assert(change_names(changes@)[i as int] == name);
            }
            lemma_change_push(done, pair);
        }
        let found = find_prop(props, changes[i].0.as_str());
        match &changes[i].1 {
            Some(v) => {
                let fresh = (changes[i].0.clone(), v.clone());
                match found {
                    Some(j) => {
                        proof {
                            lemma_prop_set(props@, j as int, fresh);
                        }
                        props.set(j, fresh);
                    },
                    None => {
                        proof {
                            lemma_prop_push(props@, fresh);
                        }
                        props.push(fresh);
                    },
                }
                assert(prop_map(props@) =~= apply_changes(
                    start,
                    change_map(done).insert(name, Some(v@)),
                ));
            },
            None => {
                match found {
                    Some(j) => {
                        proof {
                            lemma_prop_remove(props@, j as int);
                        }
                        props.remove(j);
                    },
                    None => {
                        assert(before.remove(name) =~= before);
                    },
                }
                assert(prop_map(props@) =~= apply_changes(
                    start,
                    change_map(done).insert(name, None),
                ));
            },
        }
        i = i + 1;
    }
    assert(changes@.subrange(0, changes.len() as int) =~= changes@);
}

/// Applies the update to `n` itself.
pub fn update_instance(n: &mut Instance, u: &PatchUpdate)
    requires
        instance_wf(*old(n)),
        update_wf(*u),
    ensures
        instance_wf(*final(n)),
        final(n)@ == apply_update(old(n)@, u@),
        final(n).children == old(n).children,
        final(n).id == old(n).id,
{
    match &u.changed_name {
        Some(x) => {
            n.name = x.clone();
        },
        None => {},
    }
    match &u.changed_class_name {
        Some(x) => {
            n.class_name = x.clone();
        },
        None => {},
    }
    apply_property_changes(&mut n.properties, &u.changed_properties);
    match &u.changed_metadata {
        Some(m) => {
            n.metadata = m.clone();
        },
        None => {},
    }
    assert(n@.children =~= old(n)@.children);
}

/// Once the update has gone below child `found`, the children after it stay
/// as they are.
pub proof fn lemma_updated_rest(
    n: InstanceView,
    now: Seq<InstanceView>,
    u: UpdateView,
    found: int,
    upto: int,
)
    requires
        0 <= found < upto <= n.children.len(),
        now.len() == n.children.len(),
        find_upto(n, u.id, found).is_none(),
        find_in(n.children[found], u.id).is_some(),
        now[found] == update_in(n.children[found], u),
        forall|j: int| 0 <= j < now.len() && j != found ==> now[j] == n.children[j],
        now.subrange(0, found) == updated_upto(n, u, found),
    ensures
        now.subrange(0, upto) == updated_upto(n, u, upto),
    decreases upto - found,
{
    if upto == found + 1 {
        assert(now.subrange(0, upto) =~= now.subrange(0, found).push(now[found]));
    } else {
        lemma_updated_rest(n, now, u, found, upto - 1);
        lemma_find_upto_stays(n, u.id, found + 1, upto - 1);
        assert(now.subrange(0, upto) =~= now.subrange(0, upto - 1).push(now[upto - 1]));
    }
}

/// Applies the update to the instance it is for, among `n` and its
/// descendants. Returns whether there is such an instance.
pub fn update_node(n: &mut Instance, u: &PatchUpdate) -> (r: bool)
    requires
        instance_wf(*old(n)),
        update_wf(*u),
    ensures
        instance_wf(*final(n)),
        r == find_in(old(n)@, u.id).is_some(),
        r ==> final(n)@ == update_in(old(n)@, u@),
        !r ==> final(n)@ == old(n)@,
    decreases *old(n),
{
    if n.id == u.id {
        update_instance(n, u);
        return true;
    }
    let ghost orig = *n;
    let mut k: usize = 0;
    while k < n.children.len()
        invariant
            0 <= k <= n.children.len(),
            n.children.len() == orig.children.len(),
            n.id == orig.id,
            n.name == orig.name,
            n.class_name == orig.class_name,
            n.properties == orig.properties,
            n.metadata == orig.metadata,
            orig == *old(n),
            instance_wf(orig),
            update_wf(*u),
            n.id != u.id,
            find_upto(orig@, u.id, k as int).is_none(),
            forall|j: int| k <= j < n.children.len() ==> n.children@[j] == orig.children@[j],
            forall|j: int| 0 <= j < k ==> n.children@[j]@ == orig.children@[j]@,
            forall|j: int| 0 <= j < k ==> instance_wf(#[trigger] n.children@[j]),
            instance_views(n.children@.subrange(0, k as int)) == updated_upto(
                orig@,
                u@,
                k as int,
            ),
        decreases n.children.len() - k,
    {
        assert(orig@.children[k as int] == orig.children@[k as int]@);
        assert(instance_wf(orig.children@[k as int]));
        let ghost before = instance_views(n.children@.subrange(0, k as int));
        let ghost child = orig.children@[k as int];
        if update_node(&mut n.children[k], u) {
            proof {
                let found = k as int;
                let now = n@.children;
                assert(now =~= instance_views(n.children@));
                assert(now.subrange(0, found) =~= before);
                assert forall|j: int| 0 <= j < now.len() && j != found implies now[j]
                    == orig@.children[j] by {
                    assert(orig@.children[j] == orig.children@[j]@);
                }
                lemma_updated_rest(orig@, now, u@, found, n.children.len() as int);
                assert(now.subrange(0, now.len() as int) =~= now);
                lemma_find_upto_stays(orig@, u.id, k + 1, n.children.len() as int);
                assert forall|j: int| 0 <= j < n.children@.len() implies instance_wf(
                    #[trigger] n.children@[j],
                ) by {
                    if j > k {
                        assert(n.children@[j] == orig.children@[j]);
                    }
                }
            }
            return true;
        }
        proof {
            assert(instance_views(n.children@.subrange(0, k + 1)) =~= before.push(child@));
        }
        k = k + 1;
    }
    proof {
        assert(n@.children =~= orig@.children) by {
            assert forall|j: int| 0 <= j < n@.children.len() implies n@.children[j]
                == orig@.children[j] by {
                assert(n@.children[j] == n.children@[j]@);
                assert(orig@.children[j] == orig.children@[j]@);
            }
        }
    }
    false
}

} // verus!
