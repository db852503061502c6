use rojo::instance::{snapshot_from, Instance};
use rojo::metadata::{InstanceMetadata, InstigatingSource};
use rojo::patch::PatchUpdate;
use rojo::snapshot::InstanceSnapshot;
use rojo::tree::RojoTree;
use rojo::value::Value;

fn snapshot(name: &str, class: &str, children: Vec<InstanceSnapshot>) -> InstanceSnapshot {
    InstanceSnapshot {
        snapshot_id: None,
        metadata: InstanceMetadata::new(),
        name: name.to_string(),
        class_name: class.to_string(),
        properties: Vec::new(),
        children,
    }
}

fn with_paths(mut s: InstanceSnapshot, paths: &[&str]) -> InstanceSnapshot {
    s.metadata = InstanceMetadata::new()
        .instigating_source(InstigatingSource::Path(paths[0].to_string()))
        .relevant_paths(paths.iter().map(|p| p.to_string()).collect());
    s
}

fn new_tree() -> RojoTree {
    RojoTree::new("root".to_string(), "Folder".to_string(), Vec::new(), InstanceMetadata::new())
}

fn name_of(tree: &RojoTree, id: u128) -> String {
    tree.get_instance(id).unwrap().name.clone()
}

fn update(id: u128) -> PatchUpdate {
    PatchUpdate { id, changed_name: None, changed_class_name: None, changed_properties: Vec::new(), changed_metadata: None }
}

#[test]
fn new_tree_holds_the_root() {
    let tree = new_tree();
    assert_eq!(tree.get_root_id(), 0);
    let root: &Instance = tree.get_instance(0).unwrap();
    assert_eq!(root.name, "root");
    assert_eq!(root.class_name, "Folder");
    assert!(root.children.is_empty());
    assert_eq!(tree.get_instance(1), None);
    assert_eq!(tree.children(0), Some(Vec::new()));
    assert_eq!(tree.children(1), None);
    assert_eq!(tree.descendants(0), Vec::new());
}

#[test]
fn insert_numbers_instances_before_their_children() {
    let mut tree = new_tree();
    let s = snapshot(
        "a",
        "Folder",
        vec![snapshot("b", "Folder", vec![snapshot("c", "Part", Vec::new())]), snapshot("d", "Part", Vec::new())],
    );
    assert_eq!(tree.insert_instance(0, &s), Some(1));
    assert_eq!(name_of(&tree, 1), "a");
    assert_eq!(name_of(&tree, 2), "b");
    assert_eq!(name_of(&tree, 3), "c");
    assert_eq!(name_of(&tree, 4), "d");
    assert_eq!(tree.children(1), Some(vec![2, 4]));
    assert_eq!(tree.descendants(0), vec![1, 2, 3, 4]);
    assert_eq!(tree.descendants(2), vec![3]);
    assert_eq!(tree.descendants(99), Vec::new());
    assert_eq!(tree.insert_instance(4, &snapshot("e", "Part", Vec::new())), Some(5));
    assert_eq!(tree.children(4), Some(vec![5]));
}

#[test]
fn insert_appends_after_existing_children() {
    let mut tree = new_tree();
    tree.insert_instance(0, &snapshot("a", "Folder", Vec::new()));
    tree.insert_instance(0, &snapshot("b", "Folder", Vec::new()));
    assert_eq!(tree.children(0), Some(vec![1, 2]));
}

#[test]
fn insert_below_unknown_parent_changes_nothing() {
    let mut tree = new_tree();
    assert_eq!(tree.insert_instance(7, &snapshot("a", "Folder", Vec::new())), None);
    assert_eq!(tree.descendants(0), Vec::new());
    assert_eq!(tree.insert_instance(0, &snapshot("a", "Folder", Vec::new())), Some(1));
}

#[test]
fn ids_are_never_used_again() {
    let mut tree = new_tree();
    tree.insert_instance(0, &snapshot("a", "Folder", vec![snapshot("b", "Part", Vec::new())]));
    assert_eq!(tree.remove_instance(1), vec![1, 2]);
    assert_eq!(tree.insert_instance(0, &snapshot("c", "Folder", Vec::new())), Some(3));
    assert_eq!(tree.get_instance(1), None);
    assert_eq!(tree.get_instance(2), None);
}

#[test]
fn remove_takes_descendants_and_keeps_the_rest() {
    let mut tree = new_tree();
    tree.insert_instance(0, &snapshot("a", "Folder", vec![snapshot("a1", "Part", Vec::new())]));
    tree.insert_instance(0, &snapshot("b", "Folder", Vec::new()));
    assert_eq!(tree.remove_instance(1), vec![1, 2]);
    assert_eq!(tree.children(0), Some(vec![3]));
    assert_eq!(tree.remove_instance(1), Vec::new());
    assert_eq!(tree.remove_instance(42), Vec::new());
}

#[test]
fn the_root_is_not_removed() {
    let mut tree = new_tree();
    tree.insert_instance(0, &snapshot("a", "Folder", Vec::new()));
    assert_eq!(tree.remove_instance(0), Vec::new());
    assert_eq!(tree.children(0), Some(vec![1]));
}

#[test]
fn update_changes_what_it_names() {
    let mut tree = new_tree();
    let mut s = snapshot("a", "Folder", Vec::new());
    s.properties = vec![("Keep".to_string(), Value::Int(1)), ("Drop".to_string(), Value::Int(2))];
    tree.insert_instance(0, &s);
    let mut u = update(1);
    u.changed_name = Some("renamed".to_string());
    u.changed_properties = vec![
        ("Drop".to_string(), None),
        ("New".to_string(), Some(Value::Bool(true))),
        ("Keep".to_string(), Some(Value::Int(5))),
        ("Absent".to_string(), None),
    ];
    assert!(tree.update_instance(&u));
    let a = tree.get_instance(1).unwrap();
    assert_eq!(a.name, "renamed");
    assert_eq!(a.class_name, "Folder");
    assert_eq!(a.properties, vec![("Keep".to_string(), Value::Int(5)), ("New".to_string(), Value::Bool(true))]);
    let mut u = update(1);
    u.changed_class_name = Some("Model".to_string());
    assert!(tree.update_instance(&u));
    assert_eq!(tree.get_instance(1).unwrap().class_name, "Model");
    assert_eq!(tree.get_instance(1).unwrap().name, "renamed");
}

#[test]
fn update_of_unknown_instance_changes_nothing() {
    let mut tree = new_tree();
    let mut u = update(9);
    u.changed_name = Some("x".to_string());
    assert!(!tree.update_instance(&u));
    assert_eq!(name_of(&tree, 0), "root");
}

#[test]
fn path_index_follows_the_tree() {
    let mut tree = new_tree();
    tree.insert_instance(0, &with_paths(snapshot("dir", "Folder", Vec::new()), &["/p/dir", "/p/dir/init.lua"]));
    tree.insert_instance(1, &with_paths(snapshot("a", "ModuleScript", Vec::new()), &["/p/dir/a.lua", "/p/dir/a.meta.json"]));
    tree.insert_instance(0, &with_paths(snapshot("same", "Folder", Vec::new()), &["/p/dir"]));
    assert_eq!(tree.ids_at_path("/p/dir"), vec![1, 3]);
    assert_eq!(tree.ids_at_path("/p/dir/init.lua"), vec![1]);
    assert_eq!(tree.ids_at_path("/p/dir/a.meta.json"), vec![2]);
    assert_eq!(tree.ids_at_path("/p/nope"), Vec::new());
    for path in ["/p/dir", "/p/dir/init.lua", "/p/dir/a.lua", "/p/dir/a.meta.json"] {
        for id in tree.ids_at_path(path) {
            let instance = tree.get_instance(id).unwrap();
            assert!(instance.metadata.relevant_paths.contains(&path.to_string()));
        }
    }
    tree.remove_instance(1);
    assert_eq!(tree.ids_at_path("/p/dir"), vec![3]);
    assert_eq!(tree.ids_at_path("/p/dir/a.lua"), Vec::new());
    let mut u = update(3);
    u.changed_metadata = Some(
        InstanceMetadata::new()
            .instigating_source(InstigatingSource::Path("/p/other".to_string()))
            .relevant_paths(vec!["/p/other".to_string()]),
    );
    tree.update_instance(&u);
    assert_eq!(tree.ids_at_path("/p/dir"), Vec::new());
    assert_eq!(tree.ids_at_path("/p/other"), vec![3]);
}

#[test]
fn path_is_indexed_once_per_instance() {
    let mut tree = new_tree();
    tree.insert_instance(0, &with_paths(snapshot("a", "Folder", Vec::new()), &["/p/a", "/p/a", "/p/b", "/p/a"]));
    assert_eq!(tree.ids_at_path("/p/a"), vec![1]);
    assert_eq!(tree.ids_at_path("/p/b"), vec![1]);
}

#[test]
fn descend_walks_the_index() {
    let mut tree = new_tree();
    tree.insert_instance(0, &with_paths(snapshot("p", "Folder", Vec::new()), &["/p"]));
    tree.insert_instance(1, &with_paths(snapshot("dir", "Folder", Vec::new()), &["/p/dir"]));
    assert_eq!(tree.descend("/p", "/p/dir/new/file.lua"), "/p/dir");
    assert_eq!(tree.descend("/p", "/p/other.lua"), "/p");
}

#[test]
fn snapshot_of_an_instance_carries_its_ids() {
    let mut tree = new_tree();
    let mut s = snapshot("a", "Folder", vec![snapshot("b", "Part", Vec::new())]);
    s.properties = vec![("X".to_string(), Value::Int(1))];
    tree.insert_instance(0, &s);
    let taken = snapshot_from(tree.get_instance(1).unwrap());
    assert_eq!(taken.snapshot_id, Some(1));
    assert_eq!(taken.children[0].snapshot_id, Some(2));
    assert_eq!(taken.get_owned(), s);
    assert_eq!(taken.clone(), taken);
}
