//! The path index: for each path, the ids of the instances that name it
//! among their relevant paths.

use vstd::prelude::*;
use crate::ids::{count_id, count_upto, ids_unique, lemma_found_iff_counted, lemma_found_upto_iff_counted};
use crate::instance::{find_in, find_upto, lemma_find_upto_stays, Instance, InstanceView};
use crate::path::texts;
use crate::path_map::{position, PathMap};

verus! {

/// The ids of those among the first `upto` children of `n` and their
/// descendants that name `p` among their relevant paths, in document order.
pub open spec fn ids_at_upto(n: InstanceView, p: Seq<char>, upto: int) -> Seq<u128>
    decreases n, upto,
{
    if 0 < upto <= n.children.len() {
        ids_at_upto(n, p, upto - 1) + ids_at(n.children[upto - 1], p)
    } else {
        Seq::empty()
    }
}

/// The id of `n`, where `n` names `p` among its relevant paths.
pub open spec fn own_id_at(n: InstanceView, p: Seq<char>) -> Seq<u128> {
    if n.metadata.relevant_paths.contains(p) {
        seq![n.id]
    } else {
        Seq::empty()
    }
}

/// The ids of those among `n` and its descendants that name `p` among their
/// relevant paths, in document order.
pub open spec fn ids_at(n: InstanceView, p: Seq<char>) -> Seq<u128>
    decreases n, n.children.len() + 1,
{
    own_id_at(n, p) + ids_at_upto(n, p, n.children.len() as int)
}

/// The ids that an index holds for `p`: none where `p` is no entry.
pub open spec fn list_at(m: Map<Seq<char>, Vec<u128>>, p: Seq<char>) -> Seq<u128> {
    if m.contains_key(p) {
        m[p]@
    } else {
        Seq::empty()
    }
}

/// No entry of the index is empty.
pub open spec fn no_empty_lists(m: Map<Seq<char>, Vec<u128>>) -> bool {
    forall|p: Seq<char>| m.contains_key(p) ==> (#[trigger] m[p])@.len() > 0
}

/// Whether an instance with id `id` among `n` and its descendants names `p`
/// among its relevant paths.
pub open spec fn holder(n: InstanceView, id: u128, p: Seq<char>) -> bool
    decreases n,
{
    ||| (n.id == id && n.metadata.relevant_paths.contains(p))
    ||| exists|j: int| 0 <= j < n.children.len() && holder(#[trigger] n.children[j], id, p)
}

/// An id listed for `p` belongs to an instance that names `p`.
pub proof fn lemma_listed_has_holder(n: InstanceView, p: Seq<char>, id: u128)
    requires
        ids_at(n, p).contains(id),
    ensures
        holder(n, id, p),
    decreases n, n.children.len() + 1,
{
    let own = own_id_at(n, p);
    let sub = ids_at_upto(n, p, n.children.len() as int);
    let all = own + sub;
    let w = all.index_of(id);
    assert(all[w] == id);
    if w < own.len() {
        assert(own[w] == id);
    } else {
        assert(sub[w - own.len()] == id);
        lemma_listed_upto_has_holder(n, p, id, n.children.len() as int);
    }
}

/// An id listed for `p` among the first children belongs to an instance
/// below one of them that names `p`.
pub proof fn lemma_listed_upto_has_holder(n: InstanceView, p: Seq<char>, id: u128, upto: int)
    requires
        0 <= upto <= n.children.len(),
        ids_at_upto(n, p, upto).contains(id),
    ensures
        exists|j: int| 0 <= j < n.children.len() && holder(#[trigger] n.children[j], id, p),
    decreases n, upto,
{
    if upto > 0 {
        let before = ids_at_upto(n, p, upto - 1);
        let last = ids_at(n.children[upto - 1], p);
        let all = before + last;
        let w = all.index_of(id);
        assert(all[w] == id);
        if w < before.len() {
            assert(before[w] == id);
            lemma_listed_upto_has_holder(n, p, id, upto - 1);
        } else {
            assert(last[w - before.len()] == id);
            lemma_listed_has_holder(n.children[upto - 1], p, id);
        }
    }
}

/// An instance that names `p` occurs.
pub proof fn lemma_holder_counted(n: InstanceView, id: u128, p: Seq<char>)
    requires
        holder(n, id, p),
    ensures
        count_id(n, id) >= 1,
    decreases n,
{
    if !(n.id == id && n.metadata.relevant_paths.contains(p)) {
        let j = choose|j: int| 0 <= j < n.children.len() && holder(#[trigger] n.children[j], id, p);
        lemma_holder_counted(n.children[j], id, p);
        lemma_child_count_bounded(n, id, j, n.children.len() as int);
    }
}

/// The counts of the children before `j` and of child `j` are within the
/// count of more children.
pub proof fn lemma_child_count_bounded(n: InstanceView, id: u128, j: int, upto: int)
    requires
        0 <= j < upto <= n.children.len(),
    ensures
        count_upto(n, id, j) + count_id(n.children[j], id) <= count_upto(n, id, upto),
    decreases upto - j,
{
    if upto > j + 1 {
        lemma_child_count_bounded(n, id, j, upto - 1);
    }
}

/// Where no id occurs twice, the instance found for an id is the one that
/// names the path.
pub proof fn lemma_holder_is_found(n: InstanceView, id: u128, p: Seq<char>)
    requires
        holder(n, id, p),
        ids_unique(n),
    ensures
        find_in(n, id).is_some(),
        find_in(n, id)->0.id == id,
        find_in(n, id)->0.metadata.relevant_paths.contains(p),
    decreases n,
{
    assert(count_id(n, id) <= 1);
    if n.id == id {
        if !n.metadata.relevant_paths.contains(p) {
            let j = choose|j: int|
                0 <= j < n.children.len() && holder(#[trigger] n.children[j], id, p);
            lemma_holder_counted(n.children[j], id, p);
            lemma_child_count_bounded(n, id, j, n.children.len() as int);
        }
    } else {
        let j = choose|j: int| 0 <= j < n.children.len() && holder(#[trigger] n.children[j], id, p);
        let child = n.children[j];
        lemma_holder_counted(child, id, p);
        lemma_child_count_bounded(n, id, j, n.children.len() as int);
        assert(count_upto(n, id, j) == 0);
        assert(count_id(child, id) == 1);
        assert forall|other: u128| #[trigger] count_id(child, other) <= 1 by {
            lemma_child_count_bounded(n, other, j, n.children.len() as int);
            assert(count_id(n, other) <= 1);
        }
        lemma_holder_is_found(child, id, p);
        lemma_found_upto_iff_counted(n, id, j);
        assert(find_upto(n, id, j).is_none());
        assert(find_upto(n, id, j + 1) == find_in(child, id));
        lemma_find_upto_stays(n, id, j + 1, n.children.len() as int);
    }
}

/// Adds `id` to the ids that the index holds for `path`.
pub fn index_add(index: &mut PathMap<Vec<u128>>, path: &str, id: u128)
    requires
        old(index).wf(),
        no_empty_lists(old(index).values()),
    ensures
        final(index).wf(),
        no_empty_lists(final(index).values()),
        forall|p: Seq<char>|
            #[trigger] list_at(final(index).values(), p) == (if p == path@ {
                list_at(old(index).values(), p).push(id)
            } else {
                list_at(old(index).values(), p)
            }),
{
    if index.contains_key(path) {
        match index.get_mut(path) {
            Some(list) => {
                list.push(id);
            },
            None => {},
        }
    } else {
        let mut list: Vec<u128> = Vec::new();
        list.push(id);
        assert(list@ =~= Seq::<u128>::empty().push(id));
        index.insert(path, list);
    }
}

/// Adds `n` and its descendants to the index: each id under each of the
/// instance's relevant paths, once.
pub fn index_instance(n: &Instance, index: &mut PathMap<Vec<u128>>)
    requires
        old(index).wf(),
        no_empty_lists(old(index).values()),
    ensures
        final(index).wf(),
        no_empty_lists(final(index).values()),
        forall|p: Seq<char>|
            #[trigger] list_at(final(index).values(), p) == list_at(old(index).values(), p)
                + ids_at(n@, p),
    decreases n,
{
    let ghost start = index.values();
    let ghost paths = texts(n.metadata.relevant_paths@);
    assert(n@.metadata.relevant_paths == paths);
    let mut j: usize = 0;
    assert forall|p: Seq<char>| #[trigger]
        list_at(index.values(), p) == list_at(start, p) + (if paths.subrange(0, 0).contains(p) {
            seq![n.id]
        } else {
            Seq::empty()
        }) by {
        assert(list_at(start, p) + Seq::<u128>::empty() =~= list_at(start, p));
    }
    while j < n.metadata.relevant_paths.len()
        invariant
            0 <= j <= n.metadata.relevant_paths.len(),
            index.wf(),
            no_empty_lists(index.values()),
            paths == texts(n.metadata.relevant_paths@),
            forall|p: Seq<char>|
                #[trigger] list_at(index.values(), p) == list_at(start, p) + (if paths.subrange(
                    0,
                    j as int,
                ).contains(p) {
                    seq![n.id]
                } else {
                    Seq::empty()
                }),
        decreases n.metadata.relevant_paths.len() - j,
    {
        let ghost before = index.values();
        let ghost here = paths[j as int];
        let ghost seen = paths.subrange(0, j as int);
        let ghost seen2 = paths.subrange(0, j + 1);
        let first = position(&n.metadata.relevant_paths, n.metadata.relevant_paths[j].as_str());
        let is_first = match first {
            Some(w) => w == j,
            None => false,
        };
        proof {
            if is_first {
                if seen.contains(here) {
                    let w = seen.index_of(here);
                    assert(seen[w] == here);
                    assert(n.metadata.relevant_paths[w]@ == here);
                }
            } else {
                let w = first->0 as int;
                assert(n.metadata.relevant_paths[j as int]@ == here);
                assert(paths[j as int] == here);
                if first.is_none() {
                    assert(paths.contains(here));
                }
                assert(w < j);
                assert(seen[w] == here);
            }
            assert(is_first == !seen.contains(here));
            assert forall|p: Seq<char>| seen2.contains(p) == (seen.contains(p) || p == here) by {
                if seen2.contains(p) {
                    let w = seen2.index_of(p);
                    assert(seen2[w] == p);
                    if w < j {
                        assert(seen[w] == p);
                    }
                }
                if seen.contains(p) {
                    let w = seen.index_of(p);
                    assert(seen[w] == p);
                    assert(seen2[w] == p);
                }
                if p == here {
                    assert(seen2[j as int] == p);
                }
            }
        }
        if is_first {
            index_add(index, n.metadata.relevant_paths[j].as_str(), n.id);
            proof {
                assert forall|p: Seq<char>| #[trigger]
                    list_at(index.values(), p) == list_at(start, p) + (if seen2.contains(p) {
                        seq![n.id]
                    } else {
                        Seq::empty()
                    }) by {
                    if p == here {
                        assert(list_at(before, p) =~= list_at(start, p));
                        assert(list_at(start, p).push(n.id) =~= list_at(start, p) + seq![n.id]);
                    }
                }
            }
        }
        j = j + 1;
    }
    proof {
        assert(paths.subrange(0, paths.len() as int) =~= paths);
        assert forall|p: Seq<char>| #[trigger]
            list_at(index.values(), p) == list_at(start, p) + own_id_at(n@, p) + ids_at_upto(
                n@,
                p,
                0,
            ) by {
            assert(list_at(start, p) + own_id_at(n@, p) + Seq::<u128>::empty() =~= list_at(
                start,
                p,
            ) + own_id_at(n@, p));
        }
    }
    let mut k: usize = 0;
    while k < n.children.len()
        invariant
            0 <= k <= n.children.len(),
            index.wf(),
            no_empty_lists(index.values()),
            forall|p: Seq<char>|
                #[trigger] list_at(index.values(), p) == list_at(start, p) + own_id_at(n@, p)
                    + ids_at_upto(n@, p, k as int),
        decreases n.children.len() - k,
    {
        let ghost before = index.values();
        assert(n@.children[k as int] == n.children@[k as int]@);
        index_instance(&n.children[k], index);
        proof {
            assert forall|p: Seq<char>| #[trigger]
                list_at(index.values(), p) == list_at(start, p) + own_id_at(n@, p) + ids_at_upto(
                    n@,
                    p,
                    k + 1,
                ) by {
                let a = list_at(start, p) + own_id_at(n@, p);
                let b = ids_at_upto(n@, p, k as int);
                let c = ids_at(n@.children[k as int], p);
                assert(list_at(before, p) == a + b);
                assert(list_at(index.values(), p) == list_at(before, p) + c);
                assert((a + b) + c =~= a + (b + c));
            }
        }
        k = k + 1;
    }
    proof {
        assert forall|p: Seq<char>| #[trigger]
            list_at(index.values(), p) == list_at(start, p) + ids_at(n@, p) by {
            let a = list_at(start, p);
            let b = own_id_at(n@, p);
            let c = ids_at_upto(n@, p, n.children.len() as int);
            assert(list_at(index.values(), p) == a + b + c);
            assert((a + b) + c =~= a + (b + c));
        }
    }
}

/// Builds the index of `n` and its descendants.
pub fn build_index(n: &Instance) -> (index: PathMap<Vec<u128>>)
    ensures
        index.wf(),
        no_empty_lists(index.values()),
        forall|p: Seq<char>| #[trigger] list_at(index.values(), p) == ids_at(n@, p),
{
    let mut index: PathMap<Vec<u128>> = PathMap::new();
    index_instance(n, &mut index);
    proof {
        assert forall|p: Seq<char>| #[trigger] list_at(index.values(), p) == ids_at(n@, p) by {
            assert(Seq::<u128>::empty() + ids_at(n@, p) =~= ids_at(n@, p));
        }
    }
    index
}

} // verus!
