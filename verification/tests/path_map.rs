use std::collections::HashSet;

use rojo::path_map::PathMap;

fn owned(pairs: &[(&str, i32)]) -> Vec<(String, i32)> {
    pairs.iter().map(|(p, v)| (p.to_string(), *v)).collect()
}

#[test]
fn smoke_test() {
    let mut map = PathMap::new();

    assert_eq!(map.get("/foo"), None);
    map.insert("/foo", 5);
    assert_eq!(map.get("/foo"), Some(&5));

    map.insert("/foo/bar", 6);
    assert_eq!(map.get("/foo"), Some(&5));
    assert_eq!(map.get("/foo/bar"), Some(&6));
    assert_eq!(map.children("/foo"), Some(vec!["/foo/bar".to_string()]));
}

#[test]
fn orphans() {
    let mut map = PathMap::new();

    map.insert("/foo/bar", 5);
    let first: HashSet<String> = map.orphan_paths().into_iter().collect();
    let expected: HashSet<String> = vec!["/foo/bar".to_string()].into_iter().collect();
    assert_eq!(first, expected);

    map.insert("/foo", 6);
    let second: HashSet<String> = map.orphan_paths().into_iter().collect();
    let expected: HashSet<String> = vec!["/foo".to_string()].into_iter().collect();
    assert_eq!(second, expected);
}

#[test]
fn remove_one() {
    let mut map = PathMap::new();

    map.insert("/foo", 6);

    assert_eq!(map.remove("/foo"), owned(&[("/foo", 6)]));

    assert_eq!(map.get("/foo"), None);
}

#[test]
fn remove_child() {
    let mut map = PathMap::new();

    map.insert("/foo", 6);
    map.insert("/foo/bar", 12);

    assert_eq!(map.remove("/foo"), owned(&[("/foo", 6), ("/foo/bar", 12)]));

    assert_eq!(map.get("/foo"), None);
    assert_eq!(map.get("/foo/bar"), None);
}

#[test]
fn remove_descendant() {
    let mut map = PathMap::new();

    map.insert("/foo", 6);
    map.insert("/foo/bar", 12);
    map.insert("/foo/bar/baz", 18);

    assert_eq!(
        map.remove("/foo"),
        owned(&[("/foo", 6), ("/foo/bar", 12), ("/foo/bar/baz", 18)])
    );

    assert_eq!(map.get("/foo"), None);
    assert_eq!(map.get("/foo/bar"), None);
    assert_eq!(map.get("/foo/bar/baz"), None);
}

#[test]
fn remove_not_orphan_descendants() {
    let mut map = PathMap::new();

    map.insert("/foo", 6);
    map.insert("/foo/bar/baz", 12);

    assert_eq!(map.remove("/foo"), owned(&[("/foo", 6)]));

    assert_eq!(map.get("/foo"), None);
    assert_eq!(map.get("/foo/bar/baz"), Some(&12));
}

#[test]
fn get_mut_writes_through() {
    let mut map = PathMap::new();
    map.insert("/foo", 1);
    if let Some(v) = map.get_mut("/foo") {
        *v = 2;
    }
    assert_eq!(map.get("/foo"), Some(&2));
    assert!(map.get_mut("/bar").is_none());
}

#[test]
fn contains_key_follows_insert_and_remove() {
    let mut map = PathMap::new();
    assert!(!map.contains_key("/a"));
    map.insert("/a", 1);
    assert!(map.contains_key("/a"));
    map.remove("/a");
    assert!(!map.contains_key("/a"));
}

#[test]
fn insert_replaces_value() {
    let mut map = PathMap::new();
    map.insert("/a", 1);
    map.insert("/a", 2);
    assert_eq!(map.get("/a"), Some(&2));
    assert_eq!(map.remove("/a"), owned(&[("/a", 2)]));
}

#[test]
fn adopted_orphans_are_removed_with_parent() {
    let mut map = PathMap::new();
    map.insert("/a/b", 2);
    map.insert("/a/c", 3);
    map.insert("/a", 1);
    let mut kids = map.children("/a").unwrap();
    kids.sort();
    assert_eq!(kids, vec!["/a/b".to_string(), "/a/c".to_string()]);
    let mut removed = map.remove("/a");
    assert_eq!(removed[0], ("/a".to_string(), 1));
    removed.sort();
    assert_eq!(removed, owned(&[("/a", 1), ("/a/b", 2), ("/a/c", 3)]));
    assert!(map.orphan_paths().is_empty());
}

#[test]
fn remove_unknown_path_returns_nothing() {
    let mut map: PathMap<i32> = PathMap::new();
    map.insert("/a", 1);
    assert_eq!(map.remove("/b"), Vec::new());
    assert_eq!(map.get("/a"), Some(&1));
}

#[test]
fn remove_child_strikes_it_from_parent() {
    let mut map = PathMap::new();
    map.insert("/a", 1);
    map.insert("/a/b", 2);
    assert_eq!(map.remove("/a/b"), owned(&[("/a/b", 2)]));
    assert_eq!(map.children("/a"), Some(Vec::new()));
    assert_eq!(map.remove("/a"), owned(&[("/a", 1)]));
}

#[test]
fn descend_stops_at_deepest_present_path() {
    let mut map = PathMap::new();
    map.insert("/root", 0);
    map.insert("/root/a", 1);
    map.insert("/root/a/b", 2);
    assert_eq!(map.descend("/root", "/root/a/b/c/d"), "/root/a/b");
    assert_eq!(map.descend("/root", "/root/a/b"), "/root/a/b");
    assert_eq!(map.descend("/root", "/root/x/y"), "/root");
    assert_eq!(map.descend("/root", "/root"), "/root");
}

#[test]
fn descend_does_not_skip_a_missing_level() {
    let mut map = PathMap::new();
    map.insert("/root", 0);
    map.insert("/root/a/b", 2);
    assert_eq!(map.descend("/root", "/root/a/b"), "/root");
}
