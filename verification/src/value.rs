//! Property values and property lists.
//!
//! A property list is a list of `(name, value)` pairs. It is well-formed
//! when no name occurs twice; its meaning is then the map from each name to
//! its value.

use vstd::prelude::*;
use crate::path::{str_eq, texts};

verus! {

/// A typed property value.
#[derive(Debug, PartialEq, Eq)]
pub enum Value {
    String(String),
    Bool(bool),
    Int(i64),
    Binary(Vec<u8>),
}

/// What a [`Value`] holds.
pub enum ValueView {
    String(Seq<char>),
    Bool(bool),
    Int(i64),
    Binary(Seq<u8>),
}

impl View for Value {
    type V = ValueView;

    open spec fn view(&self) -> ValueView {
        match self {
            Value::String(s) => ValueView::String(s@),
            Value::Bool(b) => ValueView::Bool(*b),
            Value::Int(i) => ValueView::Int(*i),
            Value::Binary(b) => ValueView::Binary(b@),
        }
    }
}

/// Whether two byte lists hold the same bytes.
pub fn bytes_eq(a: &Vec<u8>, b: &Vec<u8>) -> (r: bool)
    ensures
        r == (a@ == b@),
{
    if a.len() != b.len() {
        return false;
    }
    let mut i: usize = 0;
    while i < a.len()
        invariant
            0 <= i <= a.len(),
            a.len() == b.len(),
            forall|j: int| 0 <= j < i ==> a@[j] == b@[j],
        decreases a.len() - i,
    {
        if a[i] != b[i] {
            return false;
        }
        i = i + 1;
    }
    assert(a@ =~= b@);
    true
}

/// Copies a byte list.
pub fn copy_bytes(a: &Vec<u8>) -> (r: Vec<u8>)
    ensures
        r@ == a@,
{
    let mut out: Vec<u8> = Vec::new();
    let mut i: usize = 0;
    while i < a.len()
        invariant
            0 <= i <= a.len(),
            out@ == a@.subrange(0, i as int),
        decreases a.len() - i,
    {
        out.push(a[i]);
        assert(out@ =~= a@.subrange(0, i + 1));
        i = i + 1;
    }
    assert(out@ =~= a@);
    out
}

/// Whether two optional strings hold the same text, or are both absent.
pub fn option_str_eq(a: &Option<String>, b: &Option<String>) -> (r: bool)
    ensures
        r == (crate::path::option_text(*a) == crate::path::option_text(*b)),
{
    match (a, b) {
        (Some(x), Some(y)) => str_eq(x.as_str(), y.as_str()),
        (None, None) => true,
        _ => false,
    }
}

/// Copies an optional string.
pub fn copy_option_str(a: &Option<String>) -> (r: Option<String>)
    ensures
        crate::path::option_text(r) == crate::path::option_text(*a),
{
    match a {
        Some(x) => Some(x.clone()),
        None => None,
    }
}

/// Whether two lists of strings hold the same texts in the same order.
pub fn strings_eq(a: &Vec<String>, b: &Vec<String>) -> (r: bool)
    ensures
        r == (texts(a@) == texts(b@)),
{
    if a.len() != b.len() {
        assert(texts(a@).len() != texts(b@).len());
        return false;
    }
    let mut i: usize = 0;
    while i < a.len()
        invariant
            0 <= i <= a.len(),
            a.len() == b.len(),
            forall|j: int| 0 <= j < i ==> a@[j]@ == b@[j]@,
        decreases a.len() - i,
    {
        if !str_eq(a[i].as_str(), b[i].as_str()) {
            assert(texts(a@)[i as int] != texts(b@)[i as int]);
            return false;
        }
        i = i + 1;
    }
    assert(texts(a@) =~= texts(b@));
    true
}

impl Value {
    /// Whether two values hold the same thing.
    pub fn same(&self, other: &Value) -> (r: bool)
        ensures
            r == (self@ == other@),
    {
        match (self, other) {
            (Value::String(a), Value::String(b)) => str_eq(a.as_str(), b.as_str()),
            (Value::Bool(a), Value::Bool(b)) => *a == *b,
            (Value::Int(a), Value::Int(b)) => *a == *b,
            (Value::Binary(a), Value::Binary(b)) => bytes_eq(a, b),
            _ => false,
        }
    }
}

impl Clone for Value {
    fn clone(&self) -> (r: Value)
        ensures
            r@ == self@,
    {
        match self {
            Value::String(s) => Value::String(s.clone()),
            Value::Bool(b) => Value::Bool(*b),
            Value::Int(i) => Value::Int(*i),
            Value::Binary(b) => Value::Binary(copy_bytes(b)),
        }
    }
}

/// The names of a property list, in order.
pub open spec fn prop_names(p: Seq<(String, Value)>) -> Seq<Seq<char>> {
    Seq::new(p.len(), |i: int| p[i].0@)
}

/// The pairs of a property list, in order.
pub open spec fn prop_pairs(p: Seq<(String, Value)>) -> Seq<(Seq<char>, ValueView)> {
    Seq::new(p.len(), |i: int| (p[i].0@, p[i].1@))
}

/// A property list is well-formed when no name occurs twice.
pub open spec fn props_wf(p: Seq<(String, Value)>) -> bool {
    prop_names(p).no_duplicates()
}

/// The map from each name of a property list to its value.
pub open spec fn prop_map(p: Seq<(String, Value)>) -> Map<Seq<char>, ValueView> {
    Map::new(
        |k: Seq<char>| prop_names(p).contains(k),
        |k: Seq<char>| p[prop_names(p).index_of(k)].1@,
    )
}

/// In a well-formed list the pair at index `i` is the map's entry for its name.
pub proof fn lemma_prop_at(p: Seq<(String, Value)>, i: int)
    requires
        props_wf(p),
        0 <= i < p.len(),
    ensures
        prop_map(p).contains_key(p[i].0@),
        prop_map(p)[p[i].0@] == p[i].1@,
{
    let names = prop_names(p);
    assert(names[i] == p[i].0@);
    assert(names.contains(p[i].0@));
    let j = names.index_of(p[i].0@);
    assert(names[j] == names[i]);
}

/// Appending a pair with a new name adds it to the map.
pub proof fn lemma_prop_push(p: Seq<(String, Value)>, pair: (String, Value))
    requires
        props_wf(p),
        !prop_names(p).contains(pair.0@),
    ensures
        props_wf(p.push(pair)),
        prop_map(p.push(pair)) == prop_map(p).insert(pair.0@, pair.1@),
{
    let q = p.push(pair);
    let np = prop_names(p);
    let nq = prop_names(q);
    assert(nq =~= np.push(pair.0@));
    assert forall|a: int, b: int| 0 <= a < nq.len() && 0 <= b < nq.len() && a != b implies nq[a]
        != nq[b] by {
        if a < np.len() {
            assert(np[a] == nq[a]);
        }
        if b < np.len() {
            assert(np[b] == nq[b]);
        }
    }
    assert forall|k: Seq<char>| prop_map(q).contains_key(k) == prop_map(p).insert(
        pair.0@,
        pair.1@,
    ).contains_key(k) by {
        if nq.contains(k) {
            let j = nq.index_of(k);
            assert(nq[j] == k);
            if j < np.len() {
                assert(np[j] == k);
            }
        }
        if np.contains(k) {
            let j = np.index_of(k);
            assert(np[j] == k);
            assert(nq[j] == k);
        }
        if k == pair.0@ {
            assert(nq[p.len() as int] == k);
        }
    }
    assert forall|k: Seq<char>| prop_map(q).contains_key(k) implies prop_map(q)[k] == prop_map(
        p,
    ).insert(pair.0@, pair.1@)[k] by {
        let j = nq.index_of(k);
        assert(nq[j] == k);
        if j < np.len() {
            assert(np[j] == k);
            lemma_prop_at(p, j);
            lemma_prop_at(q, j);
        } else {
            lemma_prop_at(q, j);
        }
    }
    assert(prop_map(q) =~= prop_map(p).insert(pair.0@, pair.1@));
}

/// Index of the pair named `name`, if there is one.
pub fn find_prop(p: &Vec<(String, Value)>, name: &str) -> (r: Option<usize>)
    ensures
        match r {
            Some(i) => i < p.len() && p[i as int].0@ == name@,
            None => !prop_names(p@).contains(name@),
        },
{
    let mut i: usize = 0;
    while i < p.len()
        invariant
            0 <= i <= p.len(),
            forall|j: int| 0 <= j < i ==> p[j].0@ != name@,
        decreases p.len() - i,
    {
        if str_eq(p[i].0.as_str(), name) {
            return Some(i);
        }
        i = i + 1;
    }
    None
}

/// Copies a property list.
pub fn copy_props(p: &Vec<(String, Value)>) -> (r: Vec<(String, Value)>)
    ensures
        prop_pairs(r@) == prop_pairs(p@),
        prop_names(r@) == prop_names(p@),
        prop_map(r@) == prop_map(p@),
{
    let mut out: Vec<(String, Value)> = Vec::new();
    let mut i: usize = 0;
    while i < p.len()
        invariant
            0 <= i <= p.len(),
            out.len() == i,
            forall|j: int| 0 <= j < i ==> out[j].0@ == p[j].0@ && out[j].1@ == p[j].1@,
        decreases p.len() - i,
    {
        out.push((p[i].0.clone(), p[i].1.clone()));
        i = i + 1;
    }
    assert(prop_pairs(out@) =~= prop_pairs(p@));
    assert(prop_names(out@) =~= prop_names(p@));
    assert(prop_map(out@) =~= prop_map(p@));
    out
}

/// Whether two property lists hold the same pairs in the same order.
pub fn props_identical(a: &Vec<(String, Value)>, b: &Vec<(String, Value)>) -> (r: bool)
    ensures
        r == (prop_pairs(a@) == prop_pairs(b@)),
{
    if a.len() != b.len() {
        assert(prop_pairs(a@).len() != prop_pairs(b@).len());
        return false;
    }
    let mut i: usize = 0;
    while i < a.len()
        invariant
            0 <= i <= a.len(),
            a.len() == b.len(),
            forall|j: int| 0 <= j < i ==> a[j].0@ == b[j].0@ && a[j].1@ == b[j].1@,
        decreases a.len() - i,
    {
        if !str_eq(a[i].0.as_str(), b[i].0.as_str()) || !a[i].1.same(&b[i].1) {
            assert(prop_pairs(a@)[i as int] != prop_pairs(b@)[i as int]);
            return false;
        }
        i = i + 1;
    }
    assert(prop_pairs(a@) =~= prop_pairs(b@));
    true
}

/// Replacing the value of the pair at index `i` replaces the map's entry
/// for its name.
pub proof fn lemma_prop_set(p: Seq<(String, Value)>, i: int, pair: (String, Value))
    requires
        props_wf(p),
        0 <= i < p.len(),
        pair.0@ == p[i].0@,
    ensures
        props_wf(p.update(i, pair)),
        prop_names(p.update(i, pair)) == prop_names(p),
        prop_map(p.update(i, pair)) == prop_map(p).insert(pair.0@, pair.1@),
{
    let q = p.update(i, pair);
    let np = prop_names(p);
    let nq = prop_names(q);
    assert(nq =~= np);
    assert(np[i] == pair.0@);
    assert forall|k: Seq<char>| prop_map(q).contains_key(k) implies prop_map(q)[k] == prop_map(
        p,
    ).insert(pair.0@, pair.1@)[k] by {
        let j = nq.index_of(k);
        assert(nq[j] == k);
        lemma_prop_at(q, j);
        lemma_prop_at(p, j);
    }
    assert(prop_map(q) =~= prop_map(p).insert(pair.0@, pair.1@));
}

/// Taking out the pair at index `i` removes the map's entry for its name.
pub proof fn lemma_prop_remove(p: Seq<(String, Value)>, i: int)
    requires
        props_wf(p),
        0 <= i < p.len(),
    ensures
        props_wf(p.remove(i)),
        prop_map(p.remove(i)) == prop_map(p).remove(p[i].0@),
{
    let q = p.remove(i);
    let np = prop_names(p);
    let nq = prop_names(q);
    assert(nq =~= np.remove(i));
    assert(np[i] == p[i].0@);
    assert forall|a: int, b: int| 0 <= a < nq.len() && 0 <= b < nq.len() && a != b implies nq[a]
        != nq[b] by {
        let a2 = if a < i { a } else { a + 1 };
        let b2 = if b < i { b } else { b + 1 };
        assert(np[a2] == nq[a]);
        assert(np[b2] == nq[b]);
    }
    assert forall|k: Seq<char>| prop_map(q).contains_key(k) == prop_map(p).remove(
        p[i].0@,
    ).contains_key(k) by {
        if nq.contains(k) {
            let j = nq.index_of(k);
            assert(nq[j] == k);
            let j2 = if j < i { j } else { j + 1 };
            assert(np[j2] == k);
        }
        if np.contains(k) && k != p[i].0@ {
            let j = np.index_of(k);
            assert(np[j] == k);
            let j2 = if j < i { j } else { j - 1 };
            assert(nq[j2] == k);
        }
    }
    assert forall|k: Seq<char>| prop_map(q).contains_key(k) implies prop_map(q)[k] == prop_map(
        p,
    ).remove(p[i].0@)[k] by {
        let j = nq.index_of(k);
        assert(nq[j] == k);
        let j2 = if j < i { j } else { j + 1 };
        assert(np[j2] == k);
        lemma_prop_at(q, j);
        lemma_prop_at(p, j2);
    }
    assert(prop_map(q) =~= prop_map(p).remove(p[i].0@));
}

} // verus!
