//! A map from paths to values that can remove a path together with every
//! path recorded below it.
//!
//! Each entry records the set of its known child paths. An entry whose
//! parent is absent when it is inserted is an orphan: it is adopted when the
//! parent is inserted later.

use vstd::prelude::*;
use crate::path::{components, components_of, join, join_of, lemma_parent_shorter, parent, parent_of, relative, relative_of, str_eq, texts};

verus! {

/// One entry of a [`PathMap`]: its path, its value and its known children.
pub struct PathMapNode<T> {
    pub path: String,
    pub value: T,
    pub children: Vec<String>,
}

/// A map from paths to values with removal of whole subtrees.
pub struct PathMap<T> {
    nodes: Vec<PathMapNode<T>>,
    orphan_paths: Vec<String>,
}

/// The paths of a sequence of entries.
pub open spec fn node_paths<T>(nodes: Seq<PathMapNode<T>>) -> Seq<Seq<char>> {
    Seq::new(nodes.len(), |i: int| nodes[i].path@)
}

/// An entry lists each child once, and only paths directly below its own.
pub open spec fn node_wf<T>(n: PathMapNode<T>) -> bool {
    &&& texts(n.children@).no_duplicates()
    &&& forall|k: int| 0 <= k < n.children.len() ==> parent_of(#[trigger] n.children[k]@) == Some(n.path@)
}

/// The values of a sequence of entries, by path.
pub open spec fn node_values<T>(nodes: Seq<PathMapNode<T>>) -> Map<Seq<char>, T> {
    Map::new(
        |p: Seq<char>| node_paths(nodes).contains(p),
        |p: Seq<char>| nodes[node_paths(nodes).index_of(p)].value,
    )
}

/// The child sets of a sequence of entries, by path.
pub open spec fn node_child_sets<T>(nodes: Seq<PathMapNode<T>>) -> Map<Seq<char>, Set<Seq<char>>> {
    Map::new(
        |p: Seq<char>| node_paths(nodes).contains(p),
        |p: Seq<char>| texts(nodes[node_paths(nodes).index_of(p)].children@).to_set(),
    )
}

/// The child lists of a sequence of entries, by path, each in the order in
/// which the children were recorded.
pub open spec fn node_child_lists<T>(nodes: Seq<PathMapNode<T>>) -> Map<Seq<char>, Seq<Seq<char>>> {
    Map::new(
        |p: Seq<char>| node_paths(nodes).contains(p),
        |p: Seq<char>| texts(nodes[node_paths(nodes).index_of(p)].children@),
    )
}

/// The greatest length among the first `upto` paths, or 0.
pub open spec fn max_len(paths: Seq<Seq<char>>, upto: int) -> int
    decreases upto,
{
    if 0 < upto <= paths.len() {
        let before = max_len(paths, upto - 1);
        if paths[upto - 1].len() > before {
            paths[upto - 1].len() as int
        } else {
            before
        }
    } else {
        0
    }
}

/// No path among the first `upto` is longer than their greatest length.
pub proof fn lemma_max_len(paths: Seq<Seq<char>>, upto: int, i: int)
    requires
        0 <= i < upto <= paths.len(),
    ensures
        paths[i].len() <= max_len(paths, upto),
        0 <= max_len(paths, upto),
    decreases upto,
{
    if i < upto - 1 {
        lemma_max_len(paths, upto - 1, i);
    } else if upto > 1 {
        lemma_max_len(paths, upto - 1, 0);
    }
}

/// Whether `p` is an entry that its parent, itself an entry, lists as a child.
pub open spec fn linked(children: Map<Seq<char>, Set<Seq<char>>>, p: Seq<char>) -> bool {
    &&& children.contains_key(p)
    &&& parent_of(p) matches Some(q)
    &&& children.contains_key(q)
    &&& children[q].contains(p)
}

/// Whether a chain of recorded child links leads from the entry `root` down
/// to the entry `p`.
pub open spec fn reachable(children: Map<Seq<char>, Set<Seq<char>>>, root: Seq<char>, p: Seq<char>) -> bool
    decreases p.len(),
{
    if p == root {
        children.contains_key(root)
    } else {
        match parent_of(p) {
            Some(q) => q.len() < p.len() && linked(children, p) && reachable(children, root, q),
            None => false,
        }
    }
}

/// The child sets after `path` has been recorded with its parent: in the
/// parent's child set where the parent is an entry, unchanged otherwise.
pub open spec fn with_child(children: Map<Seq<char>, Set<Seq<char>>>, path: Seq<char>) -> Map<Seq<char>, Set<Seq<char>>> {
    match parent_of(path) {
        Some(q) => if children.contains_key(q) {
            children.insert(q, children[q].insert(path))
        } else {
            children
        },
        None => children,
    }
}

/// The orphans after `path` has been recorded with its parent: unchanged
/// where the parent is an entry, with `path` added otherwise.
pub open spec fn with_orphan(children: Map<Seq<char>, Set<Seq<char>>>, orphans: Set<Seq<char>>, path: Seq<char>) -> Set<Seq<char>> {
    match parent_of(path) {
        Some(q) => if children.contains_key(q) {
            orphans
        } else {
            orphans.insert(path)
        },
        None => orphans.insert(path),
    }
}

/// The child sets after `path` has been struck from its parent's record.
pub open spec fn without_child(children: Map<Seq<char>, Set<Seq<char>>>, path: Seq<char>) -> Map<Seq<char>, Set<Seq<char>>> {
    match parent_of(path) {
        Some(q) => if children.contains_key(q) {
            children.insert(q, children[q].remove(path))
        } else {
            children
        },
        None => children,
    }
}

/// The orphans after `path` has been struck from its parent's record.
pub open spec fn without_orphan(children: Map<Seq<char>, Set<Seq<char>>>, orphans: Set<Seq<char>>, path: Seq<char>) -> Set<Seq<char>> {
    match parent_of(path) {
        Some(q) => if children.contains_key(q) {
            orphans
        } else {
            orphans.remove(path)
        },
        None => orphans.remove(path),
    }
}

/// Those among the first `upto` paths of `list` that lie directly below
/// `path`, in order.
pub open spec fn below_of(list: Seq<Seq<char>>, path: Seq<char>, upto: int) -> Seq<Seq<char>>
    decreases upto,
{
    if 0 < upto <= list.len() {
        let before = below_of(list, path, upto - 1);
        if parent_of(list[upto - 1]) == Some(path) {
            before.push(list[upto - 1])
        } else {
            before
        }
    } else {
        Seq::empty()
    }
}

/// Those among the first `upto` paths of `list` that do not lie directly
/// below `path`, in order.
pub open spec fn not_below_of(list: Seq<Seq<char>>, path: Seq<char>, upto: int) -> Seq<Seq<char>>
    decreases upto,
{
    if 0 < upto <= list.len() {
        let before = not_below_of(list, path, upto - 1);
        if parent_of(list[upto - 1]) == Some(path) {
            before
        } else {
            before.push(list[upto - 1])
        }
    } else {
        Seq::empty()
    }
}

/// The first `upto` paths of `list` without `path`, in order.
pub open spec fn without(list: Seq<Seq<char>>, path: Seq<char>, upto: int) -> Seq<Seq<char>>
    decreases upto,
{
    if 0 < upto <= list.len() {
        let before = without(list, path, upto - 1);
        if list[upto - 1] == path {
            before
        } else {
            before.push(list[upto - 1])
        }
    } else {
        Seq::empty()
    }
}

/// `list` with `path` at its end, unless it holds `path` already.
pub open spec fn with_last(list: Seq<Seq<char>>, path: Seq<char>) -> Seq<Seq<char>> {
    if list.contains(path) {
        list
    } else {
        list.push(path)
    }
}

/// The child lists after `path` has been recorded with its parent: at the
/// end of the parent's list where the parent is an entry and does not list
/// it yet.
pub open spec fn lists_with_child(
    lists: Map<Seq<char>, Seq<Seq<char>>>,
    path: Seq<char>,
) -> Map<Seq<char>, Seq<Seq<char>>> {
    match parent_of(path) {
        Some(q) => if lists.contains_key(q) {
            lists.insert(q, with_last(lists[q], path))
        } else {
            lists
        },
        None => lists,
    }
}

/// The orphan list after `path` has been recorded with its parent: with
/// `path` at its end where the parent is no entry and `path` is no orphan
/// yet.
pub open spec fn orphans_with(
    lists: Map<Seq<char>, Seq<Seq<char>>>,
    orphans: Seq<Seq<char>>,
    path: Seq<char>,
) -> Seq<Seq<char>> {
    match parent_of(path) {
        Some(q) => if lists.contains_key(q) {
            orphans
        } else {
            with_last(orphans, path)
        },
        None => with_last(orphans, path),
    }
}

/// The child lists after `path` has been struck from its parent's record.
pub open spec fn lists_without_child(
    lists: Map<Seq<char>, Seq<Seq<char>>>,
    path: Seq<char>,
) -> Map<Seq<char>, Seq<Seq<char>>> {
    match parent_of(path) {
        Some(q) => if lists.contains_key(q) {
            lists.insert(q, without(lists[q], path, lists[q].len() as int))
        } else {
            lists
        },
        None => lists,
    }
}

/// The orphan list after `path` has been struck from its parent's record.
pub open spec fn orphans_without(
    lists: Map<Seq<char>, Seq<Seq<char>>>,
    orphans: Seq<Seq<char>>,
    path: Seq<char>,
) -> Seq<Seq<char>> {
    match parent_of(path) {
        Some(q) => if lists.contains_key(q) {
            orphans
        } else {
            without(orphans, path, orphans.len() as int)
        },
        None => without(orphans, path, orphans.len() as int),
    }
}

/// Without a path that it does not hold, a list is as it is.
pub proof fn lemma_without_absent(list: Seq<Seq<char>>, path: Seq<char>, upto: int)
    requires
        0 <= upto <= list.len(),
        !list.contains(path),
    ensures
        without(list, path, upto) == list.subrange(0, upto),
    decreases upto,
{
    if upto > 0 {
        lemma_without_absent(list, path, upto - 1);
        assert(list[upto - 1] != path);
        assert(list.subrange(0, upto) =~= list.subrange(0, upto - 1).push(list[upto - 1]));
    } else {
        assert(list.subrange(0, 0) =~= Seq::<Seq<char>>::empty());
    }
}

/// Without the path at index `k`, a list that holds no path twice is the
/// list with that index taken out.
pub proof fn lemma_without_at(list: Seq<Seq<char>>, k: int, upto: int)
    requires
        list.no_duplicates(),
        0 <= k < list.len(),
        0 <= upto <= list.len(),
    ensures
        without(list, list[k], upto) == (if upto <= k {
            list.subrange(0, upto)
        } else {
            list.remove(k).subrange(0, upto - 1)
        }),
    decreases upto,
{
    if upto > 0 {
        lemma_without_at(list, k, upto - 1);
        if upto - 1 < k {
            assert(list.subrange(0, upto) =~= list.subrange(0, upto - 1).push(list[upto - 1]));
        } else if upto - 1 == k {
            assert(list.remove(k).subrange(0, upto - 1) =~= list.subrange(0, upto - 1));
        } else {
            assert(list.remove(k).subrange(0, upto - 1) =~= list.remove(k).subrange(
                0,
                upto - 2,
            ).push(list[upto - 1]));
        }
    } else {
        assert(list.subrange(0, 0) =~= Seq::<Seq<char>>::empty());
    }
}

/// The child sets that child lists stand for.
pub open spec fn sets_of(lists: Map<Seq<char>, Seq<Seq<char>>>) -> Map<Seq<char>, Set<Seq<char>>> {
    Map::new(|p: Seq<char>| lists.contains_key(p), |p: Seq<char>| lists[p].to_set())
}

/// Without a path, a list holds what it held but for that path.
pub proof fn lemma_without_set(list: Seq<Seq<char>>, path: Seq<char>, upto: int)
    requires
        0 <= upto <= list.len(),
    ensures
        without(list, path, upto).to_set() == list.subrange(0, upto).to_set().remove(path),
    decreases upto,
{
    let a = without(list, path, upto);
    let b = list.subrange(0, upto);
    if upto > 0 {
        lemma_without_set(list, path, upto - 1);
        let a0 = without(list, path, upto - 1);
        let b0 = list.subrange(0, upto - 1);
        assert(b =~= b0.push(list[upto - 1]));
        assert forall|x: Seq<char>| a.to_set().contains(x) == b.to_set().remove(path).contains(
            x,
        ) by {
            if a.contains(x) {
                let w = a.index_of(x);
                assert(a[w] == x);
                if w < a0.len() {
                    assert(a0[w] == x);
                    assert(a0.to_set().contains(x));
                    let v = b0.index_of(x);
                    assert(b0[v] == x);
                    assert(b[v] == x);
                } else {
                    assert(b[upto - 1] == x);
                }
            }
            if b.contains(x) && x != path {
                let v = b.index_of(x);
                assert(b[v] == x);
                if v < upto - 1 {
                    assert(b0[v] == x);
                    assert(b0.to_set().remove(path).contains(x));
                    assert(a0.to_set().contains(x));
                    let w = a0.index_of(x);
                    assert(a0[w] == x);
                    assert(a[w] == x);
                } else {
                    assert(a[a.len() - 1] == x);
                }
            }
        }
        assert(a.to_set() =~= b.to_set().remove(path));
    } else {
        assert(a.to_set() =~= b.to_set().remove(path));
    }
}

/// Striking a path from the child lists strikes it from the child sets
/// that they stand for.
pub proof fn lemma_sets_without_child(lists: Map<Seq<char>, Seq<Seq<char>>>, path: Seq<char>)
    ensures
        sets_of(lists_without_child(lists, path)) == without_child(sets_of(lists), path),
{
    match parent_of(path) {
        Some(q) => {
            if lists.contains_key(q) {
                lemma_without_set(lists[q], path, lists[q].len() as int);
                assert(lists[q].subrange(0, lists[q].len() as int) =~= lists[q]);
            }
        },
        None => {},
    }
    assert(sets_of(lists_without_child(lists, path)) =~= without_child(sets_of(lists), path));
}

/// The orphans directly below `path`.
pub open spec fn adopted_by(orphans: Set<Seq<char>>, path: Seq<char>) -> Set<Seq<char>> {
    orphans.filter(|o: Seq<char>| parent_of(o) == Some(path))
}

/// The path reached by walking from `current` along `names` for as long as
/// the next path is in `present`.
pub open spec fn descend_from(present: Set<Seq<char>>, current: Seq<char>, names: Seq<Seq<char>>) -> Seq<char>
    decreases names.len(),
{
    if names.len() == 0 {
        current
    } else {
        let next = join_of(current, names[0]);
        if present.contains(next) {
            descend_from(present, next, names.drop_first())
        } else {
            current
        }
    }
}

/// In a sequence without duplicates, an element is found at its own index.
pub proof fn lemma_index_of_unique(s: Seq<Seq<char>>, i: int)
    requires
        s.no_duplicates(),
        0 <= i < s.len(),
    ensures
        s.index_of(s[i]) == i,
{
    let j = s.index_of(s[i]);
    assert(s.contains(s[i]));
}

/// What the entry at index `i` contributes to the two maps.
pub proof fn lemma_node_at<T>(nodes: Seq<PathMapNode<T>>, i: int)
    requires
        node_paths(nodes).no_duplicates(),
        0 <= i < nodes.len(),
    ensures
        node_values(nodes).contains_key(nodes[i].path@),
        node_values(nodes)[nodes[i].path@] == nodes[i].value,
        node_child_sets(nodes).contains_key(nodes[i].path@),
        node_child_sets(nodes)[nodes[i].path@] == texts(nodes[i].children@).to_set(),
        node_child_lists(nodes).contains_key(nodes[i].path@),
        node_child_lists(nodes)[nodes[i].path@] == texts(nodes[i].children@),
{
    let ps = node_paths(nodes);
    assert(ps[i] == nodes[i].path@);
    lemma_index_of_unique(ps, i);
}

/// Index of `s` in `v`, if it occurs.
pub fn position(v: &Vec<String>, s: &str) -> (r: Option<usize>)
    ensures
        match r {
            Some(i) => i < v.len() && v[i as int]@ == s@ && forall|j: int|
                0 <= j < i ==> v[j]@ != s@,
            None => !texts(v@).contains(s@),
        },
{
    let mut i: usize = 0;
    while i < v.len()
        invariant
            0 <= i <= v.len(),
            forall|j: int| 0 <= j < i ==> v[j]@ != s@,
        decreases v.len() - i,
    {
        if str_eq(v[i].as_str(), s) {
            return Some(i);
        }
        i = i + 1;
    }
    None
}

impl<T> PathMap<T> {
    /// Every path is an entry once, and every entry is well-formed.
    pub closed spec fn wf(&self) -> bool {
        &&& node_paths(self.nodes@).no_duplicates()
        &&& texts(self.orphan_paths@).no_duplicates()
        &&& forall|i: int| 0 <= i < self.nodes.len() ==> node_wf(#[trigger] self.nodes[i])
    }

    /// The value stored at each path.
    pub closed spec fn values(&self) -> Map<Seq<char>, T> {
        node_values(self.nodes@)
    }

    /// The known children of each path. Its domain is that of `values`.
    pub closed spec fn child_sets(&self) -> Map<Seq<char>, Set<Seq<char>>> {
        node_child_sets(self.nodes@)
    }

    /// The known children of each path, in the order in which they were
    /// recorded. Its domain is that of `values`.
    pub closed spec fn child_lists(&self) -> Map<Seq<char>, Seq<Seq<char>>> {
        node_child_lists(self.nodes@)
    }

    /// The child list of a path holds each of its known children once, and
    /// only paths directly below it.
    pub proof fn lemma_child_lists(&self, p: Seq<char>)
        requires
            self.wf(),
        ensures
            self.child_lists().dom() == self.values().dom(),
            self.child_sets().dom() == self.values().dom(),
            self.values().contains_key(p) ==> {
                &&& self.child_lists()[p].to_set() == self.child_sets()[p]
                &&& self.child_lists()[p].no_duplicates()
                &&& forall|k: int|
                    0 <= k < self.child_lists()[p].len() ==> parent_of(
                        #[trigger] self.child_lists()[p][k],
                    ) == Some(p)
            },
    {
        assert(self.child_lists().dom() =~= self.values().dom());
        assert(self.child_sets().dom() =~= self.values().dom());
        if self.values().contains_key(p) {
            let ps = node_paths(self.nodes@);
            let i = ps.index_of(p);
            assert(ps[i] == p);
            assert(node_wf(self.nodes[i]));
            assert forall|k: int| 0 <= k < self.child_lists()[p].len() implies parent_of(
                #[trigger] self.child_lists()[p][k],
            ) == Some(p) by {
                assert(self.child_lists()[p][k] == self.nodes[i].children[k]@);
            }
        }
    }

    /// A bound on the length of the paths that are entries.
    pub closed spec fn longest(&self) -> int {
        max_len(node_paths(self.nodes@), self.nodes@.len() as int)
    }

    /// No entry's path is longer than the bound.
    pub proof fn lemma_longest(&self, p: Seq<char>)
        requires
            self.values().contains_key(p),
        ensures
            p.len() <= self.longest(),
    {
        let ps = node_paths(self.nodes@);
        let i = ps.index_of(p);
        assert(ps[i] == p);
        lemma_max_len(ps, ps.len() as int, i);
    }

    /// The child sets are what the child lists hold.
    pub proof fn lemma_sets_of_lists(&self)
        requires
            self.wf(),
        ensures
            self.child_sets() == sets_of(self.child_lists()),
    {
        assert(self.child_sets() =~= sets_of(self.child_lists()));
    }

    /// The orphans, in the order in which they became orphans.
    pub closed spec fn orphan_list(&self) -> Seq<Seq<char>> {
        texts(self.orphan_paths@)
    }

    /// The paths that were inserted while their parent was absent and have
    /// not been adopted since.
    pub closed spec fn orphans(&self) -> Set<Seq<char>> {
        texts(self.orphan_paths@).to_set()
    }

    /// The two maps have the same domain.
    pub proof fn lemma_same_domain(&self)
        ensures
            self.values().dom() == self.child_sets().dom(),
    {
        assert(self.values().dom() =~= self.child_sets().dom());
    }

    /// Creates an empty map.
    pub fn new() -> (r: PathMap<T>)
        ensures
            r.wf(),
            r.values() == Map::<Seq<char>, T>::empty(),
            r.child_sets() == Map::<Seq<char>, Set<Seq<char>>>::empty(),
            r.orphans() == Set::<Seq<char>>::empty(),
            r.child_lists() == Map::<Seq<char>, Seq<Seq<char>>>::empty(),
            r.orphan_list() == Seq::<Seq<char>>::empty(),
    {
        let r = PathMap { nodes: Vec::new(), orphan_paths: Vec::new() };
        assert(r.child_lists() =~= Map::<Seq<char>, Seq<Seq<char>>>::empty());
        assert(r.orphan_list() =~= Seq::<Seq<char>>::empty());
        assert(r.values() =~= Map::<Seq<char>, T>::empty());
        assert(r.child_sets() =~= Map::<Seq<char>, Set<Seq<char>>>::empty());
        assert(r.orphans() =~= Set::<Seq<char>>::empty());
        r
    }

    /// Index of the entry for `path`, if there is one.
    fn find(&self, path: &str) -> (r: Option<usize>)
        ensures
            match r {
                Some(i) => i < self.nodes.len() && self.nodes[i as int].path@ == path@,
                None => !node_paths(self.nodes@).contains(path@),
            },
    {
        let mut i: usize = 0;
        while i < self.nodes.len()
            invariant
                0 <= i <= self.nodes.len(),
                forall|j: int| 0 <= j < i ==> self.nodes[j].path@ != path@,
            decreases self.nodes.len() - i,
        {
            if str_eq(self.nodes[i].path.as_str(), path) {
                return Some(i);
            }
            i = i + 1;
        }
        None
    }

    /// Returns the value stored at `path`, if there is one.
    pub fn get(&self, path: &str) -> (r: Option<&T>)
        requires
            self.wf(),
        ensures
            match r {
                Some(v) => self.values().contains_key(path@) && *v == self.values()[path@],
                None => !self.values().contains_key(path@),
            },
    {
        match self.find(path) {
            Some(i) => {
                proof {
                    lemma_node_at(self.nodes@, i as int);
                }
                Some(&self.nodes[i].value)
            },
            None => None,
        }
    }

    /// Whether a value is stored at `path`.
    pub fn contains_key(&self, path: &str) -> (r: bool)
        requires
            self.wf(),
        ensures
            r == self.values().contains_key(path@),
    {
        match self.find(path) {
            Some(i) => {
                proof {
                    lemma_node_at(self.nodes@, i as int);
                }
                true
            },
            None => false,
        }
    }

    /// Returns the known children of `path`, each once, if `path` is an entry.
    pub fn children(&self, path: &str) -> (r: Option<Vec<String>>)
        requires
            self.wf(),
        ensures
            match r {
                Some(v) => self.child_sets().contains_key(path@)
                    && texts(v@).to_set() == self.child_sets()[path@]
                    && texts(v@).no_duplicates()
                    && texts(v@) == self.child_lists()[path@],
                None => !self.child_sets().contains_key(path@),
            },
    {
        match self.find(path) {
            Some(i) => {
                proof {
                    lemma_node_at(self.nodes@, i as int);
                }
                let v = clone_strings(&self.nodes[i].children);
                assert(texts(v@) =~= texts(self.nodes[i as int].children@));
                proof {
                    let ps = node_paths(self.nodes@);
                    assert(ps[i as int] == path@);
                    lemma_index_of_unique(ps, i as int);
                }
                Some(v)
            },
            None => None,
        }
    }

    /// Returns the orphan paths, each once.
    pub fn orphan_paths(&self) -> (r: Vec<String>)
        requires
            self.wf(),
        ensures
            texts(r@).to_set() == self.orphans(),
            texts(r@).no_duplicates(),
    {
        let v = clone_strings(&self.orphan_paths);
        assert(texts(v@) =~= texts(self.orphan_paths@));
        v
    }
}

/// Pushing a string adds its text to the set of texts.
pub proof fn lemma_texts_push(v: Seq<String>, s: String)
    ensures
        texts(v.push(s)) == texts(v).push(s@),
        texts(v.push(s)).to_set() == texts(v).to_set().insert(s@),
        texts(v).no_duplicates() && !texts(v).contains(s@) ==> texts(v.push(s)).no_duplicates(),
{
    let a = texts(v.push(s));
    let b = texts(v).push(s@);
    assert(a =~= b);
    assert forall|x: Seq<char>| a.to_set().contains(x) == texts(v).to_set().insert(s@).contains(x) by {
        if a.contains(x) {
            let i = a.index_of(x);
            if i < v.len() {
                assert(texts(v)[i] == x);
            }
        }
        if texts(v).contains(x) {
            let i = texts(v).index_of(x);
            assert(a[i] == x);
        }
        if x == s@ {
            assert(a[v.len() as int] == x);
        }
    }
    assert(a.to_set() =~= texts(v).to_set().insert(s@));
}

/// Removing the string at `k` from a list without duplicates removes its
/// text from the set of texts.
pub proof fn lemma_texts_remove(v: Seq<String>, k: int)
    requires
        texts(v).no_duplicates(),
        0 <= k < v.len(),
    ensures
        texts(v.remove(k)) == texts(v).remove(k),
        texts(v.remove(k)).to_set() == texts(v).to_set().remove(v[k]@),
        texts(v.remove(k)).no_duplicates(),
{
    let a = texts(v.remove(k));
    let b = texts(v);
    assert(a =~= b.remove(k));
    assert(b[k] == v[k]@);
    assert forall|i: int, j: int| 0 <= i < a.len() && 0 <= j < a.len() && i != j implies a[i]
        != a[j] by {
        let i2 = if i < k { i } else { i + 1 };
        let j2 = if j < k { j } else { j + 1 };
        assert(b[i2] == a[i]);
        assert(b[j2] == a[j]);
    }
    assert forall|x: Seq<char>| a.to_set().contains(x) == b.to_set().remove(v[k]@).contains(x) by {
        if a.contains(x) {
            let i = a.index_of(x);
            assert(a[i] == x);
            let i2 = if i < k { i } else { i + 1 };
            assert(b[i2] == x);
            assert(b.contains(x));
        }
        if b.contains(x) && x != v[k]@ {
            let i = b.index_of(x);
            if i < k {
                assert(a[i] == x);
            } else {
                assert(a[i - 1] == x);
            }
        }
    }
    assert(a.to_set() =~= b.to_set().remove(v[k]@));
}

/// Replacing the entry at `i` by one with the same path changes the two
/// maps at that path alone.
pub proof fn lemma_replace_node<T>(before: Seq<PathMapNode<T>>, after: Seq<PathMapNode<T>>, i: int)
    requires
        node_paths(before).no_duplicates(),
        0 <= i < before.len(),
        after.len() == before.len(),
        after[i].path@ == before[i].path@,
        forall|j: int| 0 <= j < before.len() && j != i ==> after[j] == before[j],
    ensures
        node_paths(after) == node_paths(before),
        node_values(after) == node_values(before).insert(before[i].path@, after[i].value),
        node_child_sets(after) == node_child_sets(before).insert(
            before[i].path@,
            texts(after[i].children@).to_set(),
        ),
        node_child_lists(after) == node_child_lists(before).insert(
            before[i].path@,
            texts(after[i].children@),
        ),
{
    let pb = node_paths(before);
    let pa = node_paths(after);
    assert(pa =~= pb);
    lemma_index_of_unique(pb, i);
    assert forall|p: Seq<char>| pb.contains(p) && p != before[i].path@ implies after[pb.index_of(p)]
        == before[pb.index_of(p)] by {
        let j = pb.index_of(p);
        assert(pb[j] == p);
    }
    assert(pb.contains(before[i].path@)) by {
        assert(pb[i] == before[i].path@);
    }
    assert(node_values(after) =~= node_values(before).insert(before[i].path@, after[i].value));
    assert(node_child_sets(after) =~= node_child_sets(before).insert(
        before[i].path@,
        texts(after[i].children@).to_set(),
    ));
    assert(node_child_lists(after) =~= node_child_lists(before).insert(
        before[i].path@,
        texts(after[i].children@),
    ));
}

/// Appending an entry with a new path adds it to the two maps.
pub proof fn lemma_push_node<T>(before: Seq<PathMapNode<T>>, n: PathMapNode<T>)
    requires
        node_paths(before).no_duplicates(),
        !node_paths(before).contains(n.path@),
    ensures
        node_paths(before.push(n)).no_duplicates(),
        node_paths(before.push(n)) == node_paths(before).push(n.path@),
        node_values(before.push(n)) == node_values(before).insert(n.path@, n.value),
        node_child_sets(before.push(n)) == node_child_sets(before).insert(
            n.path@,
            texts(n.children@).to_set(),
        ),
        node_child_lists(before.push(n)) == node_child_lists(before).insert(
            n.path@,
            texts(n.children@),
        ),
{
    let after = before.push(n);
    let pb = node_paths(before);
    let pa = node_paths(after);
    assert(pa =~= pb.push(n.path@));
    assert forall|a: int, b: int| 0 <= a < pa.len() && 0 <= b < pa.len() && a != b implies pa[a]
        != pa[b] by {
        if a < pb.len() {
            assert(pb[a] == pa[a]);
        }
        if b < pb.len() {
            assert(pb[b] == pa[b]);
        }
    }
    assert(pa[before.len() as int] == n.path@);
    lemma_index_of_unique(pa, before.len() as int);
    assert forall|p: Seq<char>| pb.contains(p) implies pa.contains(p) && pa.index_of(p)
        == pb.index_of(p) by {
        let j = pb.index_of(p);
        assert(pb[j] == p);
        assert(pa[j] == p);
        lemma_index_of_unique(pa, j);
    }
    assert forall|p: Seq<char>| pa.contains(p) implies pb.contains(p) || p == n.path@ by {
        let j = pa.index_of(p);
        assert(pa[j] == p);
        if j < pb.len() {
            assert(pb[j] == p);
        }
    }
    assert(node_values(after) =~= node_values(before).insert(n.path@, n.value));
    assert(node_child_sets(after) =~= node_child_sets(before).insert(
        n.path@,
        texts(n.children@).to_set(),
    ));
    assert(node_child_lists(after) =~= node_child_lists(before).insert(n.path@, texts(n.children@)));
}

/// Taking out the entry at `i` removes its path from the two maps.
pub proof fn lemma_remove_node<T>(before: Seq<PathMapNode<T>>, i: int)
    requires
        node_paths(before).no_duplicates(),
        0 <= i < before.len(),
    ensures
        node_paths(before.remove(i)).no_duplicates(),
        node_paths(before.remove(i)) == node_paths(before).remove(i),
        node_values(before.remove(i)) == node_values(before).remove(before[i].path@),
        node_child_sets(before.remove(i)) == node_child_sets(before).remove(before[i].path@),
        node_child_lists(before.remove(i)) == node_child_lists(before).remove(before[i].path@),
{
    let after = before.remove(i);
    let pb = node_paths(before);
    let pa = node_paths(after);
    assert(pa =~= pb.remove(i));
    assert forall|a: int, b: int| 0 <= a < pa.len() && 0 <= b < pa.len() && a != b implies pa[a]
        != pa[b] by {
        let a2 = if a < i { a } else { a + 1 };
        let b2 = if b < i { b } else { b + 1 };
        assert(pb[a2] == pa[a]);
        assert(pb[b2] == pa[b]);
    }
    assert(pb[i] == before[i].path@);
    assert forall|p: Seq<char>| pa.contains(p) implies pb.contains(p) && p != before[i].path@
        && after[pa.index_of(p)] == before[pb.index_of(p)] by {
        let j = pa.index_of(p);
        assert(pa[j] == p);
        let j2 = if j < i { j } else { j + 1 };
        assert(pb[j2] == p);
        lemma_index_of_unique(pb, j2);
    }
    assert forall|p: Seq<char>| pb.contains(p) && p != before[i].path@ implies pa.contains(p) by {
        let j = pb.index_of(p);
        assert(pb[j] == p);
        let j2 = if j < i { j } else { j - 1 };
        assert(pa[j2] == p);
    }
    assert(node_values(after) =~= node_values(before).remove(before[i].path@));
    assert(node_child_sets(after) =~= node_child_sets(before).remove(before[i].path@));
    assert(node_child_lists(after) =~= node_child_lists(before).remove(before[i].path@));
}

impl<T> PathMap<T> {
    /// Returns the value stored at `path` for writing, if there is one.
    pub fn get_mut(&mut self, path: &str) -> (r: Option<&mut T>)
        requires
            old(self).wf(),
        ensures
            final(self).wf(),
            final(self).child_sets() == old(self).child_sets(),
            final(self).orphans() == old(self).orphans(),
            final(self).child_lists() == old(self).child_lists(),
            final(self).orphan_list() == old(self).orphan_list(),
            match r {
                Some(v) => old(self).values().contains_key(path@) && *v == old(self).values()[path@]
                    && final(self).values() == old(self).values().insert(path@, *final(v)),
                None => !old(self).values().contains_key(path@) && final(self).values() == old(
                    self,
                ).values(),
            },
    {
        match self.find(path) {
            Some(i) => {
                proof {
                    lemma_node_at(self.nodes@, i as int);
                }
                let ghost before = self.nodes@;
                let node = &mut self.nodes[i];
                let v = &mut node.value;
                proof {
                    let after = before.update(
                        i as int,
                        PathMapNode {
                            path: before[i as int].path,
                            value: *final(v),
                            children: before[i as int].children,
                        },
                    );
                    lemma_replace_node(before, after, i as int);
                    assert(node_child_sets(before).insert(
                        before[i as int].path@,
                        texts(before[i as int].children@).to_set(),
                    ) =~= node_child_sets(before));
                    assert(node_child_lists(before).insert(
                        before[i as int].path@,
                        texts(before[i as int].children@),
                    ) =~= node_child_lists(before));
                }
                Some(v)
            },
            None => None,
        }
    }
}

impl<T> PathMap<T> {
    /// Records `path` with its parent: among the parent's children where the
    /// parent is an entry, among the orphans otherwise.
    fn add_to_parent(&mut self, path: String)
        requires
            old(self).wf(),
        ensures
            final(self).wf(),
            final(self).values() == old(self).values(),
            final(self).child_sets() == with_child(old(self).child_sets(), path@),
            final(self).orphans() == with_orphan(
                old(self).child_sets(),
                old(self).orphans(),
                path@,
            ),
            final(self).child_lists() == lists_with_child(old(self).child_lists(), path@),
            final(self).orphan_list() == orphans_with(
                old(self).child_lists(),
                old(self).orphan_list(),
                path@,
            ),
    {
        let ghost before = self.nodes@;
        proof {
            assert(node_child_lists(before).dom() =~= node_child_sets(before).dom());
        }
        let above = parent(path.as_str());
        match above {
            Some(q) => {
                match self.find(q.as_str()) {
                    Some(i) => {
                        proof {
                            lemma_node_at(before, i as int);
                        }
                        let found = position(&self.nodes[i].children, path.as_str());
                        if found.is_none() {
                            let ghost kids = self.nodes[i as int].children@;
                            self.nodes[i].children.push(path);
                            proof {
                                lemma_texts_push(kids, path);
                                lemma_replace_node(before, self.nodes@, i as int);
                                assert(node_wf(self.nodes[i as int]));
                                assert(node_values(before).insert(
                                    before[i as int].path@,
                                    before[i as int].value,
                                ) =~= node_values(before));
                            }
                        } else {
                            proof {
                                let set = node_child_sets(before)[q@];
                                let k = found->0 as int;
                                assert(texts(before[i as int].children@)[k] == path@);
                                assert(set.insert(path@) =~= set);
                                assert(node_child_sets(before).insert(q@, set) =~= node_child_sets(
                                    before,
                                ));
                                let list = node_child_lists(before)[q@];
                                assert(node_child_lists(before).insert(q@, list)
                                    =~= node_child_lists(before));
                            }
                        }
                        return ;
                    },
                    None => {},
                }
            },
            None => {},
        }
        let listed = position(&self.orphan_paths, path.as_str());
        if listed.is_none() {
            proof {
                lemma_texts_push(self.orphan_paths@, path);
            }
            self.orphan_paths.push(path);
        } else {
            proof {
                let k = listed->0 as int;
                assert(texts(self.orphan_paths@)[k] == path@);
                assert(self.orphans().insert(path@) =~= self.orphans());
            }
        }
    }

    /// Strikes `path` from its parent's children where the parent is an
    /// entry, from the orphans otherwise.
    fn remove_from_parent(&mut self, path: &str)
        requires
            old(self).wf(),
        ensures
            final(self).wf(),
            final(self).values() == old(self).values(),
            final(self).child_sets() == without_child(old(self).child_sets(), path@),
            final(self).orphans() == without_orphan(
                old(self).child_sets(),
                old(self).orphans(),
                path@,
            ),
            final(self).child_lists() == lists_without_child(old(self).child_lists(), path@),
            final(self).orphan_list() == orphans_without(
                old(self).child_lists(),
                old(self).orphan_list(),
                path@,
            ),
    {
        let ghost before = self.nodes@;
        proof {
            assert(node_child_lists(before).dom() =~= node_child_sets(before).dom());
        }
        let above = parent(path);
        match above {
            Some(q) => {
                match self.find(q.as_str()) {
                    Some(i) => {
                        proof {
                            lemma_node_at(before, i as int);
                        }
                        match position(&self.nodes[i].children, path) {
                            Some(k) => {
                                let ghost kids = self.nodes[i as int].children@;
                                self.nodes[i].children.remove(k);
                                proof {
                                    lemma_texts_remove(kids, k as int);
                                    lemma_without_at(texts(kids), k as int, kids.len() as int);
                                    assert(texts(kids).remove(k as int).subrange(0, kids.len() - 1)
                                        =~= texts(kids).remove(k as int));
                                    lemma_replace_node(before, self.nodes@, i as int);
                                    assert(node_wf(before[i as int]));
                                    assert forall|j: int|
                                        0 <= j < self.nodes[i as int].children.len() implies parent_of(
                                        #[trigger] self.nodes[i as int].children[j]@,
                                    ) == Some(self.nodes[i as int].path@) by {
                                        let j2 = if j < k { j } else { j + 1 };
                                        assert(self.nodes[i as int].children[j] == kids[j2]);
                                    }
                                    assert(node_wf(self.nodes[i as int]));
                                    assert(node_values(before).insert(
                                        before[i as int].path@,
                                        before[i as int].value,
                                    ) =~= node_values(before));
                                }
                            },
                            None => {
                                proof {
                                    let set = node_child_sets(before)[q@];
                                    assert(set.remove(path@) =~= set);
                                    assert(node_child_sets(before).insert(q@, set)
                                        =~= node_child_sets(before));
                                    let list = node_child_lists(before)[q@];
                                    lemma_without_absent(list, path@, list.len() as int);
                                    assert(list.subrange(0, list.len() as int) =~= list);
                                    assert(node_child_lists(before).insert(q@, list)
                                        =~= node_child_lists(before));
                                }
                            },
                        }
                        return ;
                    },
                    None => {},
                }
            },
            None => {},
        }
        match position(&self.orphan_paths, path) {
            Some(k) => {
                proof {
                    let list = texts(self.orphan_paths@);
                    lemma_texts_remove(self.orphan_paths@, k as int);
                    lemma_without_at(list, k as int, list.len() as int);
                    assert(list.remove(k as int).subrange(0, list.len() - 1) =~= list.remove(
                        k as int,
                    ));
                }
                self.orphan_paths.remove(k);
            },
            None => {
                proof {
                    let list = texts(self.orphan_paths@);
                    lemma_without_absent(list, path@, list.len() as int);
                    assert(list.subrange(0, list.len() as int) =~= list);
                    assert(self.orphans().remove(path@) =~= self.orphans());
                }
            },
        }
    }

    /// Takes the orphans directly below `path` out of the orphan list and
    /// returns them.
    fn adopt_orphans(&mut self, path: &str) -> (adopted: Vec<String>)
        requires
            old(self).wf(),
        ensures
            final(self).wf(),
            final(self).values() == old(self).values(),
            final(self).child_sets() == old(self).child_sets(),
            final(self).orphans() == old(self).orphans().difference(
                adopted_by(old(self).orphans(), path@),
            ),
            texts(adopted@).to_set() == adopted_by(old(self).orphans(), path@),
            texts(adopted@).no_duplicates(),
            final(self).nodes == old(self).nodes,
            final(self).child_lists() == old(self).child_lists(),
            texts(adopted@) == below_of(
                old(self).orphan_list(),
                path@,
                old(self).orphan_list().len() as int,
            ),
            final(self).orphan_list() == not_below_of(
                old(self).orphan_list(),
                path@,
                old(self).orphan_list().len() as int,
            ),
    {
        let mut adopted: Vec<String> = Vec::new();
        let mut kept: Vec<String> = Vec::new();
        let mut i: usize = 0;
        let ghost all = texts(self.orphan_paths@);
        while i < self.orphan_paths.len()
            invariant
                0 <= i <= self.orphan_paths.len(),
                *self == *old(self),
                all == texts(self.orphan_paths@),
                all.no_duplicates(),
                texts(adopted@).no_duplicates(),
                texts(kept@).no_duplicates(),
                texts(adopted@) == below_of(all, path@, i as int),
                texts(kept@) == not_below_of(all, path@, i as int),
                forall|x: Seq<char>| #[trigger]
                    texts(adopted@).contains(x) <==> (exists|j: int|
                        0 <= j < i && all[j] == x && parent_of(x) == Some(path@)),
                forall|x: Seq<char>| #[trigger]
                    texts(kept@).contains(x) <==> (exists|j: int|
                        0 <= j < i && all[j] == x && parent_of(x) != Some(path@)),
            decreases self.orphan_paths.len() - i,
        {
            let orphan = self.orphan_paths[i].clone();
            let below = match parent(orphan.as_str()) {
                Some(q) => str_eq(q.as_str(), path),
                None => false,
            };
            let ghost x0 = orphan@;
            assert(all[i as int] == x0);
            if below {
                proof {
                    if texts(adopted@).contains(x0) {
                        let j = choose|j: int| 0 <= j < i && all[j] == x0 && parent_of(x0) == Some(path@);
                        assert(false);
                    }
                    lemma_texts_push(adopted@, orphan);
                    let ghost next = texts(adopted@.push(orphan));
                    assert forall|x: Seq<char>| #[trigger]
                        next.contains(x) <==> (exists|j: int|
                            0 <= j < i + 1 && all[j] == x && parent_of(x) == Some(path@)) by {
                        if next.contains(x) {
                            if x == x0 {
                                assert(all[i as int] == x);
                            } else {
                                assert(texts(adopted@).to_set().contains(x));
                                assert(texts(adopted@).contains(x));
                                let j = choose|j: int| 0 <= j < i && all[j] == x && parent_of(x) == Some(path@);
                                assert(0 <= j < i + 1 && all[j] == x);
                            }
                        }
                        if exists|j: int| 0 <= j < i + 1 && all[j] == x && parent_of(x) == Some(path@) {
                            let j = choose|j: int| 0 <= j < i + 1 && all[j] == x && parent_of(x) == Some(path@);
                            if j < i {
                                assert(texts(adopted@).contains(x));
                            }
                            assert(next.to_set().contains(x));
                        }
                    }
                    assert forall|x: Seq<char>| #[trigger]
                        texts(kept@).contains(x) <==> (exists|j: int|
                            0 <= j < i + 1 && all[j] == x && parent_of(x) != Some(path@)) by {
                        if exists|j: int| 0 <= j < i + 1 && all[j] == x && parent_of(x) != Some(path@) {
                            let j = choose|j: int| 0 <= j < i + 1 && all[j] == x && parent_of(x) != Some(path@);
                            assert(j < i);
                        }
                    }
                }
                adopted.push(orphan);
            } else {
                proof {
                    if texts(kept@).contains(x0) {
                        let j = choose|j: int| 0 <= j < i && all[j] == x0 && parent_of(x0) != Some(path@);
                        assert(false);
                    }
                    lemma_texts_push(kept@, orphan);
                    let ghost next = texts(kept@.push(orphan));
                    assert forall|x: Seq<char>| #[trigger]
                        next.contains(x) <==> (exists|j: int|
                            0 <= j < i + 1 && all[j] == x && parent_of(x) != Some(path@)) by {
                        if next.contains(x) {
                            if x == x0 {
                                assert(all[i as int] == x);
                            } else {
                                assert(texts(kept@).to_set().contains(x));
                                assert(texts(kept@).contains(x));
                                let j = choose|j: int| 0 <= j < i && all[j] == x && parent_of(x) != Some(path@);
                                assert(0 <= j < i + 1 && all[j] == x);
                            }
                        }
                        if exists|j: int| 0 <= j < i + 1 && all[j] == x && parent_of(x) != Some(path@) {
                            let j = choose|j: int| 0 <= j < i + 1 && all[j] == x && parent_of(x) != Some(path@);
                            if j < i {
                                assert(texts(kept@).contains(x));
                            }
                            assert(next.to_set().contains(x));
                        }
                    }
                    assert forall|x: Seq<char>| #[trigger]
                        texts(adopted@).contains(x) <==> (exists|j: int|
                            0 <= j < i + 1 && all[j] == x && parent_of(x) == Some(path@)) by {
                        if exists|j: int| 0 <= j < i + 1 && all[j] == x && parent_of(x) == Some(path@) {
                            let j = choose|j: int| 0 <= j < i + 1 && all[j] == x && parent_of(x) == Some(path@);
                            assert(j < i);
                        }
                    }
                }
                kept.push(orphan);
            }
            i = i + 1;
        }
        proof {
            let before = old(self).orphans();
            assert forall|x: Seq<char>| texts(adopted@).to_set().contains(x) == adopted_by(
                before,
                path@,
            ).contains(x) by {
                if before.contains(x) && parent_of(x) == Some(path@) {
                    let j = all.index_of(x);
                    assert(all[j] == x);
                }
            }
            assert(texts(adopted@).to_set() =~= adopted_by(before, path@));
            assert forall|x: Seq<char>| texts(kept@).to_set().contains(x) == before.difference(
                adopted_by(before, path@),
            ).contains(x) by {
                if before.contains(x) && parent_of(x) != Some(path@) {
                    let j = all.index_of(x);
                    assert(all[j] == x);
                }
            }
            assert(texts(kept@).to_set() =~= before.difference(adopted_by(before, path@)));
        }
        self.orphan_paths = kept;
        adopted
    }

    /// Stores `value` at `path`, replacing what was stored there.
    ///
    /// The path is recorded with its parent, or as an orphan where the
    /// parent is absent; the orphans directly below `path` become its
    /// children and stop being orphans.
    pub fn insert(&mut self, path: &str, value: T)
        requires
            old(self).wf(),
        ensures
            final(self).wf(),
            final(self).values() == old(self).values().insert(path@, value),
            final(self).child_sets() == with_child(old(self).child_sets(), path@).insert(
                path@,
                adopted_by(
                    with_orphan(old(self).child_sets(), old(self).orphans(), path@),
                    path@,
                ),
            ),
            final(self).orphans() == with_orphan(
                old(self).child_sets(),
                old(self).orphans(),
                path@,
            ).difference(
                adopted_by(
                    with_orphan(old(self).child_sets(), old(self).orphans(), path@),
                    path@,
                ),
            ),
            final(self).child_lists() == lists_with_child(old(self).child_lists(), path@).insert(
                path@,
                below_of(
                    orphans_with(old(self).child_lists(), old(self).orphan_list(), path@),
                    path@,
                    orphans_with(old(self).child_lists(), old(self).orphan_list(), path@).len() as int,
                ),
            ),
            final(self).orphan_list() == not_below_of(
                orphans_with(old(self).child_lists(), old(self).orphan_list(), path@),
                path@,
                orphans_with(old(self).child_lists(), old(self).orphan_list(), path@).len() as int,
            ),
    {
        self.add_to_parent(path.to_owned());
        let children = self.adopt_orphans(path);
        proof {
            assert forall|k: int| 0 <= k < children.len() implies parent_of(
                #[trigger] children[k]@,
            ) == Some(path@) by {
                assert(texts(children@)[k] == children[k]@);
                assert(texts(children@).to_set().contains(children[k]@));
            }
        }
        let node = PathMapNode { path: path.to_owned(), value, children };
        let ghost before = self.nodes@;
        match self.find(path) {
            Some(i) => {
                self.nodes.set(i, node);
                proof {
                    lemma_replace_node(before, self.nodes@, i as int);
                }
            },
            None => {
                proof {
                    lemma_push_node(before, node);
                }
                self.nodes.push(node);
            },
        }
    }
}

/// The paths of a list of removed entries.
pub open spec fn entry_paths<T>(entries: Seq<(String, T)>) -> Seq<Seq<char>> {
    Seq::new(entries.len(), |i: int| entries[i].0@)
}

/// Whether `t` is listed as a child by an entry in `done`.
pub open spec fn child_of_done(
    links: Map<Seq<char>, Set<Seq<char>>>,
    done: Set<Seq<char>>,
    t: Seq<char>,
) -> bool {
    match parent_of(t) {
        Some(q) => done.contains(q) && links.contains_key(q) && links[q].contains(t),
        None => false,
    }
}

/// Whether every entry that an entry in `done` lists as a child is in `done`
/// or in `pending`.
pub open spec fn covered(
    links: Map<Seq<char>, Set<Seq<char>>>,
    done: Set<Seq<char>>,
    pending: Set<Seq<char>>,
) -> bool {
    forall|r: Seq<char>, c: Seq<char>|
        #![trigger links[r].contains(c)]
        done.contains(r) && links.contains_key(r) && links[r].contains(c) && links.contains_key(c)
            ==> done.contains(c) || pending.contains(c)
}

/// A set that holds the root and every entry listed by one of its members
/// holds everything reachable from the root.
pub proof fn lemma_closed_holds_reachable(
    links: Map<Seq<char>, Set<Seq<char>>>,
    root: Seq<char>,
    done: Set<Seq<char>>,
    p: Seq<char>,
)
    requires
        done.contains(root),
        covered(links, done, Set::empty()),
        reachable(links, root, p),
    ensures
        done.contains(p),
    decreases p.len(),
{
    if p != root {
        let q = parent_of(p)->0;
        lemma_closed_holds_reachable(links, root, done, q);
        assert(links[q].contains(p));
    }
}

/// Nothing is reachable from a root that is no entry.
pub proof fn lemma_absent_root_reaches_nothing(
    links: Map<Seq<char>, Set<Seq<char>>>,
    root: Seq<char>,
    p: Seq<char>,
)
    requires
        !links.contains_key(root),
    ensures
        !reachable(links, root, p),
    decreases p.len(),
{
    if p != root {
        match parent_of(p) {
            Some(q) => {
                if q.len() < p.len() {
                    lemma_absent_root_reaches_nothing(links, root, q);
                }
            },
            None => {},
        }
    }
}

impl<T> PathMap<T> {
    /// Removes `root` and every entry that a chain of recorded child links
    /// reaches from it, and returns them with their values, `root` first.
    ///
    /// `root` is first struck from its parent's record. Entries below `root`
    /// that no chain of links reaches stay in the map.
    pub fn remove(&mut self, root: &str) -> (removed: Vec<(String, T)>)
        requires
            old(self).wf(),
        ensures
            final(self).wf(),
            final(self).orphans() == without_orphan(
                old(self).child_sets(),
                old(self).orphans(),
                root@,
            ),
            entry_paths(removed@).no_duplicates(),
            forall|p: Seq<char>|
                entry_paths(removed@).contains(p) <==> reachable(
                    without_child(old(self).child_sets(), root@),
                    root@,
                    p,
                ),
            forall|k: int|
                0 <= k < removed.len() ==> old(self).values().contains_key(
                    #[trigger] removed[k].0@,
                ) && removed[k].1 == old(self).values()[removed[k].0@],
            removed.len() > 0 ==> removed[0].0@ == root@,
            final(self).values() == old(self).values().remove_keys(
                entry_paths(removed@).to_set(),
            ),
            final(self).child_sets() == without_child(old(self).child_sets(), root@).remove_keys(
                entry_paths(removed@).to_set(),
            ),
            final(self).child_lists() == lists_without_child(
                old(self).child_lists(),
                root@,
            ).remove_keys(entry_paths(removed@).to_set()),
            final(self).orphan_list() == orphans_without(
                old(self).child_lists(),
                old(self).orphan_list(),
                root@,
            ),
    {
        self.remove_from_parent(root);
        let ghost links = self.child_sets();
        let ghost lists = self.child_lists();
        let ghost vals = self.values();
        let mut removed: Vec<(String, T)> = Vec::new();
        proof {
            self.lemma_same_domain();
        }
        let first = self.find(root);
        if first.is_none() {
            proof {
                assert forall|p: Seq<char>| !reachable(links, root@, p) by {
                    lemma_absent_root_reaches_nothing(links, root@, p);
                }
                assert(entry_paths(removed@).to_set() =~= Set::<Seq<char>>::empty());
                assert(vals.remove_keys(Set::<Seq<char>>::empty()) =~= vals);
                assert(links.remove_keys(Set::<Seq<char>>::empty()) =~= links);
                assert(lists.remove_keys(Set::<Seq<char>>::empty()) =~= lists);
            }
            return removed;
        }
        let i = first.unwrap();
        proof {
            lemma_node_at(self.nodes@, i as int);
            lemma_remove_node(self.nodes@, i as int);
            assert(node_wf(self.nodes[i as int]));
        }
        let ghost nodes0 = self.nodes@;
        let node = self.nodes.remove(i);
        removed.push((node.path, node.value));
        let mut to_visit: Vec<String> = node.children;
        let ghost mut done: Set<Seq<char>> = Set::empty().insert(root@);
        proof {
            assert(entry_paths(removed@) =~= seq![root@]);
            assert(entry_paths(removed@).to_set() =~= done) by {
                assert forall|x: Seq<char>| entry_paths(removed@).to_set().contains(x)
                    == done.contains(x) by {
                    if x == root@ {
                        assert(entry_paths(removed@)[0] == x);
                    }
                }
            }
            assert(vals.remove(root@) =~= vals.remove_keys(done));
            assert(links.remove(root@) =~= links.remove_keys(done));
            assert(lists.remove(root@) =~= lists.remove_keys(done));
            assert forall|k: int| 0 <= k < to_visit.len() implies child_of_done(
                links,
                done,
                #[trigger] to_visit[k]@,
            ) by {
                assert(texts(to_visit@)[k] == to_visit[k]@);
                assert(texts(to_visit@).to_set().contains(to_visit[k]@));
            }
            assert(covered(links, done, texts(to_visit@).to_set()));
            assert forall|j: int| 0 <= j < self.nodes.len() implies node_wf(
                #[trigger] self.nodes[j],
            ) by {
                let j2 = if j < i { j } else { j + 1 };
                assert(self.nodes[j] == nodes0[j2]);
            }
        }
        while to_visit.len() > 0
            invariant
                self.wf(),
                self.orphans() == without_orphan(old(self).child_sets(), old(self).orphans(), root@),
                links.dom() == vals.dom(),
                node_values(self.nodes@) == vals.remove_keys(done),
                node_child_sets(self.nodes@) == links.remove_keys(done),
                node_child_lists(self.nodes@) == lists.remove_keys(done),
                self.orphan_list() == orphans_without(
                    old(self).child_lists(),
                    old(self).orphan_list(),
                    root@,
                ),
                done == entry_paths(removed@).to_set(),
                entry_paths(removed@).no_duplicates(),
                removed.len() > 0,
                removed[0].0@ == root@,
                forall|k: int|
                    0 <= k < removed.len() ==> vals.contains_key(#[trigger] removed[k].0@)
                        && removed[k].1 == vals[removed[k].0@] && reachable(
                        links,
                        root@,
                        removed[k].0@,
                    ),
                forall|k: int|
                    0 <= k < to_visit.len() ==> child_of_done(links, done, #[trigger] to_visit[k]@),
                covered(links, done, texts(to_visit@).to_set()),
            decreases self.nodes.len(), to_visit.len(),
        {
            let ghost pending = to_visit@;
            let ghost nodes1 = self.nodes@;
            let ghost removed1 = removed@;
            let path = to_visit.pop().unwrap();
            let ghost t = path@;
            assert(child_of_done(links, done, pending[pending.len() - 1]@));
            match self.find(path.as_str()) {
                Some(j) => {
                    proof {
                        lemma_node_at(nodes1, j as int);
                        lemma_remove_node(nodes1, j as int);
                        assert(node_wf(self.nodes[j as int]));
                        assert(!done.contains(t));
                        assert(links.contains_key(t));
                    }
                    let node = self.nodes.remove(j);
                    let ghost kids = node.children@;
                    removed.push((node.path, node.value));
                    let mut children = node.children;
                    to_visit.append(&mut children);
                    proof {
                        let q = parent_of(t)->0;
                        lemma_parent_shorter(t);
                        assert(entry_paths(removed1).contains(q));
                        let kq = entry_paths(removed1).index_of(q);
                        assert(entry_paths(removed1)[kq] == q);
                        assert(removed1[kq].0@ == q);
                        assert(reachable(links, root@, q));
                        assert(entry_paths(removed1).contains(root@)) by {
                            assert(entry_paths(removed1)[0] == root@);
                        }
                        assert(t != root@);
                        assert(linked(links, t));
                        assert(reachable(links, root@, t));
                        let done2 = done.insert(t);
                        assert(entry_paths(removed@) =~= entry_paths(removed1).push(t));
                        assert forall|x: Seq<char>| entry_paths(removed@).to_set().contains(x)
                            == done2.contains(x) by {
                            if entry_paths(removed@).contains(x) {
                                let k = entry_paths(removed@).index_of(x);
                                assert(entry_paths(removed@)[k] == x);
                                if k < removed1.len() {
                                    assert(entry_paths(removed1)[k] == x);
                                }
                            }
                            if done.contains(x) {
                                let k = entry_paths(removed1).index_of(x);
                                assert(entry_paths(removed1)[k] == x);
                                assert(entry_paths(removed@)[k] == x);
                            }
                            if x == t {
                                assert(entry_paths(removed@)[removed1.len() as int] == x);
                            }
                        }
                        assert(entry_paths(removed@).to_set() =~= done2);
                        assert forall|a: int, b: int|
                            0 <= a < removed.len() && 0 <= b < removed.len() && a != b implies entry_paths(
                            removed@,
                        )[a] != entry_paths(removed@)[b] by {
                            if a < removed1.len() {
                                assert(entry_paths(removed1)[a] == entry_paths(removed@)[a]);
                                assert(entry_paths(removed1).contains(entry_paths(removed@)[a]));
                            }
                            if b < removed1.len() {
                                assert(entry_paths(removed1)[b] == entry_paths(removed@)[b]);
                                assert(entry_paths(removed1).contains(entry_paths(removed@)[b]));
                            }
                        }
                        assert(vals.remove_keys(done).remove(t) =~= vals.remove_keys(done2));
                        assert(links.remove_keys(done).remove(t) =~= links.remove_keys(done2));
                        assert(lists.remove_keys(done).remove(t) =~= lists.remove_keys(done2));
                        assert forall|k: int| 0 <= k < removed.len() implies vals.contains_key(
                            #[trigger] removed[k].0@,
                        ) && removed[k].1 == vals[removed[k].0@] && reachable(
                            links,
                            root@,
                            removed[k].0@,
                        ) by {
                            if k < removed1.len() {
                                assert(removed[k] == removed1[k]);
                            }
                        }
                        assert(links[t] == texts(kids).to_set());
                        assert forall|k: int| 0 <= k < to_visit.len() implies child_of_done(
                            links,
                            done2,
                            #[trigger] to_visit[k]@,
                        ) by {
                            if k < pending.len() - 1 {
                                assert(to_visit[k] == pending[k]);
                                assert(child_of_done(links, done, pending[k]@));
                            } else {
                                let k2 = k - (pending.len() - 1);
                                assert(to_visit[k] == kids[k2]);
                                assert(texts(kids)[k2] == kids[k2]@);
                                assert(texts(kids).to_set().contains(kids[k2]@));
                            }
                        }
                        let pend1 = texts(pending).to_set();
                        let pend2 = texts(to_visit@).to_set();
                        assert forall|r: Seq<char>, c: Seq<char>|
                            #![trigger links[r].contains(c)]
                            done2.contains(r) && links.contains_key(r) && links[r].contains(c)
                                && links.contains_key(c) implies done2.contains(c)
                            || pend2.contains(c) by {
                            if r == t {
                                let k2 = texts(kids).index_of(c);
                                assert(texts(kids)[k2] == c);
                                let k = pending.len() - 1 + k2;
                                assert(to_visit[k] == kids[k2]);
                                assert(texts(to_visit@)[k] == c);
                            } else {
                                if !done.contains(c) {
                                    assert(pend1.contains(c));
                                    let k = texts(pending).index_of(c);
                                    assert(texts(pending)[k] == c);
                                    if k < pending.len() - 1 {
                                        assert(to_visit[k] == pending[k]);
                                        assert(texts(to_visit@)[k] == c);
                                    }
                                }
                            }
                        }
                        done = done2;
                        assert forall|k: int| 0 <= k < self.nodes.len() implies node_wf(
                            #[trigger] self.nodes[k],
                        ) by {
                            let k2 = if k < j { k } else { k + 1 };
                            assert(self.nodes[k] == nodes1[k2]);
                        }
                    }
                },
                None => {
                    proof {
                        assert(!node_values(self.nodes@).contains_key(t));
                        let pend1 = texts(pending).to_set();
                        let pend2 = texts(to_visit@).to_set();
                        assert forall|r: Seq<char>, c: Seq<char>|
                            #![trigger links[r].contains(c)]
                            done.contains(r) && links.contains_key(r) && links[r].contains(c)
                                && links.contains_key(c) implies done.contains(c)
                            || pend2.contains(c) by {
                            if !done.contains(c) {
                                assert(pend1.contains(c));
                                let k = texts(pending).index_of(c);
                                assert(texts(pending)[k] == c);
                                if k < pending.len() - 1 {
                                    assert(to_visit[k] == pending[k]);
                                    assert(texts(to_visit@)[k] == c);
                                } else {
                                    assert(c == t);
                                    assert(vals.contains_key(c));
                                }
                            }
                        }
                        assert forall|k: int| 0 <= k < to_visit.len() implies child_of_done(
                            links,
                            done,
                            #[trigger] to_visit[k]@,
                        ) by {
                            assert(to_visit[k] == pending[k]);
                        }
                    }
                },
            }
        }
        proof {
            assert(texts(to_visit@).to_set() =~= Set::<Seq<char>>::empty());
            assert(done.contains(root@)) by {
                assert(entry_paths(removed@)[0] == root@);
            }
            assert forall|p: Seq<char>| entry_paths(removed@).contains(p) <==> reachable(
                links,
                root@,
                p,
            ) by {
                if entry_paths(removed@).contains(p) {
                    let k = entry_paths(removed@).index_of(p);
                    assert(entry_paths(removed@)[k] == p);
                    assert(removed[k].0@ == p);
                }
                if reachable(links, root@, p) {
                    lemma_closed_holds_reachable(links, root@, done, p);
                }
            }
        }
        removed
    }
}

impl<T> PathMap<T> {
    /// Walks from `start` toward `target`, one component at a time, for as
    /// long as the next path is an entry, and returns the last path reached.
    ///
    /// `start` itself need not be an entry. `target` must lie at or below
    /// `start`.
    pub fn descend(&self, start: &str, target: &str) -> (r: String)
        requires
            self.wf(),
            relative_of(start@, target@).is_some(),
        ensures
            r@ == descend_from(
                self.values().dom(),
                start@,
                components_of(relative_of(start@, target@)->0),
            ),
    {
        let rest = relative(start, target).unwrap();
        let names = components(rest);
        let ghost present = self.values().dom();
        let ghost all = texts(names@);
        let mut current = start.to_owned();
        let mut i: usize = 0;
        assert(all.subrange(0, all.len() as int) =~= all);
        while i < names.len()
            invariant
                self.wf(),
                0 <= i <= names.len(),
                all == texts(names@),
                all == components_of(relative_of(start@, target@)->0),
                present == self.values().dom(),
                descend_from(present, current@, all.subrange(i as int, all.len() as int))
                    == descend_from(present, start@, all),
            decreases names.len() - i,
        {
            let next = join(current.as_str(), names[i].as_str());
            let ghost tail = all.subrange(i as int, all.len() as int);
            assert(tail.len() > 0);
            assert(tail[0] == names[i as int]@);
            assert(tail.drop_first() =~= all.subrange(i + 1, all.len() as int));
            if self.contains_key(next.as_str()) {
                assert(descend_from(present, current@, tail) == descend_from(
                    present,
                    next@,
                    tail.drop_first(),
                ));
                current = next;
                i = i + 1;
            } else {
                assert(descend_from(present, current@, tail) == current@);
                return current;
            }
        }
        current
    }
}

/// Copies a list of strings.
pub fn clone_strings(v: &Vec<String>) -> (r: Vec<String>)
    ensures
        r@.len() == v@.len(),
        forall|i: int| 0 <= i < v@.len() ==> r@[i]@ == v@[i]@,
{
    let mut out: Vec<String> = Vec::new();
    let mut i: usize = 0;
    while i < v.len()
        invariant
            0 <= i <= v.len(),
            out@.len() == i,
            forall|j: int| 0 <= j < i ==> out@[j]@ == v@[j]@,
        decreases v.len() - i,
    {
        out.push(v[i].clone());
        i = i + 1;
    }
    out
}

} // verus!
