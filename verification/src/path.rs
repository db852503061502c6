//! Lexical paths.
//!
//! A path is a string whose components are separated by `/`. All functions
//! here work on the text alone: two paths are the same path exactly when
//! they are the same string.

use vstd::prelude::*;

verus! {

/// The component separator.
pub open spec fn sep() -> char {
    '/'
}

/// Index of the last separator in `p`, or `-1` when `p` holds none.
pub open spec fn last_separator(p: Seq<char>) -> int
    decreases p.len(),
{
    if p.len() == 0 {
        -1
    } else if p.last() == sep() {
        p.len() - 1
    } else {
        last_separator(p.drop_last())
    }
}

/// Index of the first separator in `p`, or `p.len()` when `p` holds none.
pub open spec fn first_separator(p: Seq<char>) -> int
    decreases p.len(),
{
    if p.len() == 0 {
        0
    } else if p[0] == sep() {
        0
    } else {
        1 + first_separator(p.drop_first())
    }
}

/// The path one level up: everything before the last separator. The root
/// `/` and the empty path have no parent; the parent of `/name` is `/`; the
/// parent of a bare name is the empty path.
pub open spec fn parent_of(p: Seq<char>) -> Option<Seq<char>> {
    let i = last_separator(p);
    if p.len() == 0 {
        None
    } else if i < 0 {
        Some(Seq::empty())
    } else if i == 0 {
        if p.len() == 1 {
            None
        } else {
            Some(p.subrange(0, 1))
        }
    } else {
        Some(p.subrange(0, i))
    }
}

/// The last component: everything after the last separator.
pub open spec fn file_name_of(p: Seq<char>) -> Seq<char> {
    p.subrange(last_separator(p) + 1, p.len() as int)
}

/// `base` extended by the component `name`.
pub open spec fn join_of(base: Seq<char>, name: Seq<char>) -> Seq<char> {
    if base.len() == 0 {
        name
    } else if base.last() == sep() {
        base + name
    } else {
        base.push(sep()) + name
    }
}

/// Whether `s` ends with `t`.
pub open spec fn has_suffix(s: Seq<char>, t: Seq<char>) -> bool {
    s.len() >= t.len() && s.subrange(s.len() - t.len(), s.len() as int) == t
}

/// Whether `s` begins with `t`.
pub open spec fn has_prefix(s: Seq<char>, t: Seq<char>) -> bool {
    s.len() >= t.len() && s.subrange(0, t.len() as int) == t
}

/// `s` without its trailing `t`, when it ends with `t`.
pub open spec fn strip_suffix_of(s: Seq<char>, t: Seq<char>) -> Option<Seq<char>> {
    if has_suffix(s, t) {
        Some(s.subrange(0, s.len() - t.len()))
    } else {
        None
    }
}

/// The part of `target` below `start`: empty when the two are equal, the
/// text after the separator when `target` continues `start` with one, and
/// `None` when `target` does not lie at or below `start`.
pub open spec fn relative_of(start: Seq<char>, target: Seq<char>) -> Option<Seq<char>> {
    if !has_prefix(target, start) {
        None
    } else if target.len() == start.len() {
        Some(Seq::empty())
    } else if start.len() == 0 || start.last() == sep() {
        Some(target.subrange(start.len() as int, target.len() as int))
    } else if target[start.len() as int] == sep() {
        Some(target.subrange(start.len() as int + 1, target.len() as int))
    } else {
        None
    }
}

/// The non-empty components of `p`, in order.
pub open spec fn components_of(p: Seq<char>) -> Seq<Seq<char>>
    decreases p.len(),
{
    if p.len() == 0 {
        Seq::empty()
    } else {
        let i = first_separator(p);
        if i < 0 || i >= p.len() {
            seq![p]
        } else if i == 0 {
            components_of(p.subrange(1, p.len() as int))
        } else {
            seq![p.subrange(0, i)] + components_of(p.subrange(i + 1, p.len() as int))
        }
    }
}

/// The texts of a sequence of strings.
pub open spec fn texts(v: Seq<String>) -> Seq<Seq<char>> {
    Seq::new(v.len(), |i: int| v[i]@)
}

/// The view of an optional string.
pub open spec fn option_text(o: Option<String>) -> Option<Seq<char>> {
    match o {
        Some(s) => Some(s@),
        None => None,
    }
}

/// The last separator lies within the path, and no separator follows it.
pub proof fn lemma_last_separator_bounds(p: Seq<char>)
    ensures
        -1 <= last_separator(p) < p.len(),
        last_separator(p) >= 0 ==> p[last_separator(p)] == sep(),
        forall|j: int| last_separator(p) < j < p.len() ==> p[j] != sep(),
    decreases p.len(),
{
    if p.len() > 0 && p.last() != sep() {
        let q = p.drop_last();
        lemma_last_separator_bounds(q);
        assert forall|j: int| last_separator(p) < j < p.len() implies p[j] != sep() by {
            if j < q.len() {
                assert(q[j] == p[j]);
            }
        }
    }
}

/// The first separator lies within the path or at its end, and no
/// separator stands before it.
pub proof fn lemma_first_separator_bounds(p: Seq<char>)
    ensures
        0 <= first_separator(p) <= p.len(),
        first_separator(p) < p.len() ==> p[first_separator(p)] == sep(),
        forall|j: int| 0 <= j < first_separator(p) ==> p[j] != sep(),
    decreases p.len(),
{
    if p.len() > 0 && p[0] != sep() {
        lemma_first_separator_bounds(p.drop_first());
        let q = p.drop_first();
        assert forall|j: int| 0 <= j < first_separator(p) implies p[j] != sep() by {
            if j > 0 {
                assert(q[j - 1] == p[j]);
            }
        }
    }
}

/// A separator position after which no separator follows is the last one.
pub proof fn lemma_last_separator_is(p: Seq<char>, i: int)
    requires
        -1 <= i < p.len(),
        i >= 0 ==> p[i] == sep(),
        forall|j: int| i < j < p.len() ==> p[j] != sep(),
    ensures
        last_separator(p) == i,
{
    lemma_last_separator_bounds(p);
}

/// A separator position before which no separator stands is the first one.
pub proof fn lemma_first_separator_is(p: Seq<char>, i: int)
    requires
        0 <= i <= p.len(),
        i < p.len() ==> p[i] == sep(),
        forall|j: int| 0 <= j < i ==> p[j] != sep(),
    ensures
        first_separator(p) == i,
{
    lemma_first_separator_bounds(p);
}

/// A parent is strictly shorter than its child.
pub proof fn lemma_parent_shorter(p: Seq<char>)
    ensures
        parent_of(p) matches Some(q) ==> q.len() < p.len(),
{
    lemma_last_separator_bounds(p);
}

/// Index of the last separator of `path`, or `None` when it holds none.
fn find_last_separator(path: &str) -> (r: Option<usize>)
    ensures
        match r {
            Some(i) => i as int == last_separator(path@),
            None => last_separator(path@) == -1,
        },
{
    let n: usize = path.unicode_len();
    let mut i: usize = n;
    while i > 0
        invariant
            0 <= i <= n,
            n == path@.len(),
            forall|j: int| i <= j < n ==> path@[j] != sep(),
        decreases i,
    {
        if path.get_char(i - 1) == '/' {
            proof {
                lemma_last_separator_is(path@, i - 1);
            }
            return Some(i - 1);
        }
        i = i - 1;
    }
    proof {
        lemma_last_separator_is(path@, -1);
    }
    None
}

/// Returns the path one level above `path`, if there is one.
pub fn parent(path: &str) -> (r: Option<String>)
    ensures
        option_text(r) == parent_of(path@),
{
    let n: usize = path.unicode_len();
    if n == 0 {
        return None;
    }
    proof {
        lemma_last_separator_bounds(path@);
    }
    match find_last_separator(path) {
        None => Some(String::new()),
        Some(i) => {
            if i == 0 {
                if n == 1 {
                    None
                } else {
                    Some(path.substring_char(0, 1).to_owned())
                }
            } else {
                Some(path.substring_char(0, i).to_owned())
            }
        },
    }
}

/// Returns the last component of `path`.
pub fn file_name(path: &str) -> (r: &str)
    ensures
        r@ == file_name_of(path@),
{
    let n: usize = path.unicode_len();
    proof {
        lemma_last_separator_bounds(path@);
    }
    match find_last_separator(path) {
        None => path.substring_char(0, n),
        Some(i) => path.substring_char(i + 1, n),
    }
}

/// Returns `base` extended by the component `name`.
pub fn join(base: &str, name: &str) -> (r: String)
    ensures
        r@ == join_of(base@, name@),
{
    let n: usize = base.unicode_len();
    if n == 0 {
        return name.to_owned();
    }
    let mut out = base.to_owned();
    if base.get_char(n - 1) != '/' {
        out.append("/");
        proof {
            reveal_strlit("/");
            assert("/"@ =~= seq![sep()]);
            assert(base@ + seq![sep()] =~= base@.push(sep()));
        }
    }
    out.append(name);
    out
}

/// Whether `s` ends with `t`.
pub fn ends_with(s: &str, t: &str) -> (r: bool)
    ensures
        r == has_suffix(s@, t@),
{
    let n: usize = s.unicode_len();
    let m: usize = t.unicode_len();
    if n < m {
        return false;
    }
    let tail = s.substring_char(n - m, n);
    str_eq(tail, t)
}

/// Whether `s` begins with `t`.
pub fn starts_with(s: &str, t: &str) -> (r: bool)
    ensures
        r == has_prefix(s@, t@),
{
    let n: usize = s.unicode_len();
    let m: usize = t.unicode_len();
    if n < m {
        return false;
    }
    let head = s.substring_char(0, m);
    str_eq(head, t)
}

/// Whether two strings hold the same text.
pub fn str_eq(a: &str, b: &str) -> (r: bool)
    ensures
        r == (a@ == b@),
{
    let n: usize = a.unicode_len();
    let m: usize = b.unicode_len();
    if n != m {
        return false;
    }
    let mut i: usize = 0;
    while i < n
        invariant
            0 <= i <= n,
            n == a@.len(),
            n == b@.len(),
            forall|j: int| 0 <= j < i ==> a@[j] == b@[j],
        decreases n - i,
    {
        if a.get_char(i) != b.get_char(i) {
            return false;
        }
        i = i + 1;
    }
    assert(a@ =~= b@);
    true
}

/// If `input` ends with `trailer`, returns `input` without it.
pub fn match_trailing<'a>(input: &'a str, trailer: &str) -> (r: Option<&'a str>)
    ensures
        match r {
            Some(s) => strip_suffix_of(input@, trailer@) == Some(s@),
            None => strip_suffix_of(input@, trailer@).is_none(),
        },
{
    if ends_with(input, trailer) {
        let n: usize = input.unicode_len();
        let m: usize = trailer.unicode_len();
        Some(input.substring_char(0, n - m))
    } else {
        None
    }
}

/// Returns the part of `target` below `start`, if `target` lies at or below
/// `start`.
pub fn relative<'a>(start: &str, target: &'a str) -> (r: Option<&'a str>)
    ensures
        match r {
            Some(s) => relative_of(start@, target@) == Some(s@),
            None => relative_of(start@, target@).is_none(),
        },
{
    if !starts_with(target, start) {
        return None;
    }
    let n: usize = start.unicode_len();
    let m: usize = target.unicode_len();
    if m == n {
        let rest = target.substring_char(m, m);
        assert(rest@ =~= Seq::<char>::empty());
        return Some(rest);
    }
    if n == 0 {
        return Some(target.substring_char(n, m));
    }
    if start.get_char(n - 1) == '/' {
        Some(target.substring_char(n, m))
    } else if target.get_char(n) == '/' {
        Some(target.substring_char(n + 1, m))
    } else {
        None
    }
}

/// Returns the non-empty components of `p`, in order.
pub fn components(p: &str) -> (r: Vec<String>)
    ensures
        texts(r@) == components_of(p@),
{
    let n: usize = p.unicode_len();
    let mut out: Vec<String> = Vec::new();
    let mut pos: usize = 0;
    assert(p@.subrange(0, n as int) =~= p@);
    assert(texts(out@) + components_of(p@) =~= components_of(p@));
    while pos < n
        invariant
            0 <= pos <= n,
            n == p@.len(),
            texts(out@) + components_of(p@.subrange(pos as int, n as int)) == components_of(p@),
        decreases n - pos,
    {
        let ghost s = p@.subrange(pos as int, n as int);
        let mut end: usize = pos;
        while end < n && p.get_char(end) != '/'
            invariant
                pos <= end <= n,
                n == p@.len(),
                forall|j: int| pos <= j < end ==> p@[j] != sep(),
            decreases n - end,
        {
            end = end + 1;
        }
        proof {
            assert forall|j: int| 0 <= j < end - pos implies s[j] != sep() by {
                assert(s[j] == p@[pos + j]);
            }
            if end < n {
                assert(s[end - pos] == p@[end as int]);
            }
            lemma_first_separator_is(s, end - pos);
        }
        if end == pos {
            proof {
                assert(s.subrange(1, s.len() as int) =~= p@.subrange(pos + 1, n as int));
            }
            pos = pos + 1;
        } else {
            let name = p.substring_char(pos, end).to_owned();
            proof {
                assert(name@ =~= s.subrange(0, end - pos));
                let before = texts(out@);
                let after = texts(out@.push(name));
                assert(after =~= before.push(name@));
                if end < n {
                    let tail = s.subrange(end - pos + 1, s.len() as int);
                    assert(tail =~= p@.subrange(end + 1, n as int));
                    assert(components_of(s) == seq![name@] + components_of(tail));
                    assert(after + components_of(tail) =~= before + (seq![name@] + components_of(
                        tail,
                    )));
                } else {
                    assert(name@ =~= s);
                    assert(components_of(s) == seq![s]);
                    let tail = p@.subrange(n as int, n as int);
                    assert(tail.len() == 0);
                    assert(components_of(tail) =~= Seq::<Seq<char>>::empty());
                    assert(after + components_of(tail) =~= before + seq![s]);
                }
            }
            out.push(name);
            pos = if end < n { end + 1 } else { end };
        }
    }
    proof {
        let tail = p@.subrange(n as int, n as int);
        assert(tail.len() == 0);
        assert(components_of(tail) =~= Seq::<Seq<char>>::empty());
        assert(texts(out@) + components_of(tail) =~= texts(out@));
    }
    out
}

} // verus!
