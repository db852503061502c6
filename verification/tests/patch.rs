use rojo::instance::snapshot_from;
use rojo::metadata::InstanceMetadata;
use rojo::patch::{diff_properties, PatchAdd, PatchSet, PatchUpdate};
use rojo::reconcile::{apply_patch_set, compute_patch_set};
use rojo::snapshot::InstanceSnapshot;
use rojo::tree::RojoTree;
use rojo::value::Value;

fn snapshot(name: &str, class: &str, children: Vec<InstanceSnapshot>) -> InstanceSnapshot {
    InstanceSnapshot {
        snapshot_id: None,
        metadata: InstanceMetadata::new(),
        name: name.to_string(),
        class_name: class.to_string(),
        properties: Vec::new(),
        children,
    }
}

fn new_tree() -> RojoTree {
    RojoTree::new("root".to_string(), "Folder".to_string(), Vec::new(), InstanceMetadata::new())
}

fn shape(tree: &RojoTree, id: u128) -> InstanceSnapshot {
    snapshot_from(tree.get_instance(id).unwrap()).get_owned()
}

#[test]
fn property_delta_is_the_symmetric_difference() {
    let wanted = vec![
        ("Same".to_string(), Value::Int(1)),
        ("Changed".to_string(), Value::Int(2)),
        ("New".to_string(), Value::Bool(true)),
    ];
    let current = vec![
        ("Gone".to_string(), Value::Int(9)),
        ("Changed".to_string(), Value::Int(3)),
        ("Same".to_string(), Value::Int(1)),
    ];
    assert_eq!(
        diff_properties(&wanted, &current),
        vec![
            ("Changed".to_string(), Some(Value::Int(2))),
            ("New".to_string(), Some(Value::Bool(true))),
            ("Gone".to_string(), None),
        ]
    );
    assert_eq!(diff_properties(&wanted, &wanted), Vec::new());
}

#[test]
fn patch_of_own_snapshot_is_empty() {
    let mut tree = new_tree();
    let mut a = snapshot("a", "Folder", vec![snapshot("x", "Part", Vec::new()), snapshot("x", "Part", Vec::new())]);
    a.properties = vec![("P".to_string(), Value::Int(1))];
    tree.insert_instance(0, &a);
    tree.insert_instance(0, &snapshot("b", "Model", Vec::new()));
    for id in [0u128, 1, 2, 4] {
        let own = snapshot_from(tree.get_instance(id).unwrap());
        let patch = compute_patch_set(&own, &tree, id);
        assert!(patch.is_empty());
        assert_eq!(patch, PatchSet::new());
    }
}

#[test]
fn update_names_only_what_differs() {
    let mut tree = new_tree();
    let mut a = snapshot("a", "Folder", Vec::new());
    a.properties = vec![("P".to_string(), Value::Int(1))];
    tree.insert_instance(0, &a);
    let mut wanted = snapshot("a", "Model", Vec::new());
    wanted.properties = vec![("P".to_string(), Value::Int(2))];
    let patch = compute_patch_set(&wanted, &tree, 1);
    assert_eq!(
        patch,
        PatchSet {
            removed_instances: Vec::new(),
            added_instances: Vec::new(),
            updated_instances: vec![PatchUpdate {
                id: 1,
                changed_name: None,
                changed_class_name: Some("Model".to_string()),
                changed_properties: vec![("P".to_string(), Some(Value::Int(2)))],
                changed_metadata: None,
            }],
        }
    );
}

#[test]
fn children_are_matched_by_name_and_class_in_order() {
    let mut tree = new_tree();
    tree.insert_instance(0, &snapshot("x", "Part", Vec::new())); // 1
    tree.insert_instance(0, &snapshot("y", "Part", Vec::new())); // 2
    tree.insert_instance(0, &snapshot("x", "Part", Vec::new())); // 3
    tree.insert_instance(0, &snapshot("x", "Model", Vec::new())); // 4
    let mut first_x = snapshot("x", "Part", Vec::new());
    first_x.properties = vec![("N".to_string(), Value::Int(1))];
    let mut second_x = snapshot("x", "Part", Vec::new());
    second_x.properties = vec![("N".to_string(), Value::Int(2))];
    let wanted = snapshot(
        "root",
        "Folder",
        vec![first_x, snapshot("z", "Part", Vec::new()), second_x, snapshot("x", "Part", Vec::new())],
    );
    let patch = compute_patch_set(&wanted, &tree, 0);
    assert_eq!(patch.removed_instances, vec![2, 4]);
    let updated: Vec<(u128, Vec<(String, Option<Value>)>)> =
        patch.updated_instances.iter().map(|u| (u.id, u.changed_properties.clone())).collect();
    assert_eq!(
        updated,
        vec![
            (1, vec![("N".to_string(), Some(Value::Int(1)))]),
            (3, vec![("N".to_string(), Some(Value::Int(2)))]),
        ]
    );
    assert_eq!(
        patch.added_instances,
        vec![
            PatchAdd { parent_id: 0, provisional_id: 0, instance: snapshot("z", "Part", Vec::new()) },
            PatchAdd { parent_id: 0, provisional_id: 1, instance: snapshot("x", "Part", Vec::new()) },
        ]
    );
}

#[test]
fn matched_children_are_compared_in_depth() {
    let mut tree = new_tree();
    tree.insert_instance(0, &snapshot("a", "Folder", vec![snapshot("old", "Part", Vec::new())]));
    let wanted = snapshot("root", "Folder", vec![snapshot("a", "Folder", vec![snapshot("new", "Part", Vec::new())])]);
    let patch = compute_patch_set(&wanted, &tree, 0);
    assert_eq!(patch.removed_instances, vec![2]);
    assert_eq!(
        patch.added_instances,
        vec![PatchAdd { parent_id: 1, provisional_id: 0, instance: snapshot("new", "Part", Vec::new()) }]
    );
    assert!(patch.updated_instances.is_empty());
}

#[test]
fn unknown_children_of_ignoring_instance_are_not_removed() {
    let mut tree = new_tree();
    let mut keeper = snapshot("keeper", "Folder", vec![snapshot("known", "Part", Vec::new())]);
    keeper.metadata = InstanceMetadata::new().ignore_unknown_instances(true);
    tree.insert_instance(0, &keeper); // 1, 2
    tree.insert_instance(1, &snapshot("from client", "Part", Vec::new())); // 3
    let mut wanted_keeper = snapshot("keeper", "Folder", Vec::new());
    wanted_keeper.metadata = InstanceMetadata::new().ignore_unknown_instances(true);
    let wanted = snapshot("root", "Folder", vec![wanted_keeper]);
    let patch = compute_patch_set(&wanted, &tree, 0);
    assert!(patch.removed_instances.is_empty());
    apply_patch_set(&mut tree, patch);
    assert_eq!(tree.children(1), Some(vec![2, 3]));
}

#[test]
fn unknown_children_of_attending_instance_are_removed() {
    let mut tree = new_tree();
    tree.insert_instance(0, &snapshot("a", "Folder", vec![snapshot("gone", "Part", Vec::new())]));
    let wanted = snapshot("root", "Folder", vec![snapshot("a", "Folder", Vec::new())]);
    let patch = compute_patch_set(&wanted, &tree, 0);
    assert_eq!(patch.removed_instances, vec![2]);
}

#[test]
fn applying_the_patch_gives_the_snapshot() {
    let mut tree = new_tree();
    let mut wanted = snapshot(
        "game",
        "DataModel",
        vec![
            snapshot("a", "Folder", vec![snapshot("a1", "Part", Vec::new()), snapshot("a2", "Part", Vec::new())]),
            snapshot("b", "Model", Vec::new()),
        ],
    );
    wanted.properties = vec![("P".to_string(), Value::Int(1))];
    let patch = compute_patch_set(&wanted, &tree, 0);
    let applied = apply_patch_set(&mut tree, patch);
    assert_eq!(applied.added, vec![1, 4]);
    assert!(applied.removed.is_empty());
    assert_eq!(applied.updated.len(), 1);
    assert_eq!(shape(&tree, 0), wanted);
    let again = compute_patch_set(&wanted, &tree, 0);
    assert!(again.is_empty());
}

#[test]
fn applying_a_patch_to_a_grown_tree_converges() {
    let mut tree = new_tree();
    let first = snapshot(
        "root",
        "Folder",
        vec![snapshot("a", "Folder", vec![snapshot("x", "Part", Vec::new())]), snapshot("b", "Folder", Vec::new())],
    );
    let p = compute_patch_set(&first, &tree, 0);
    apply_patch_set(&mut tree, p);
    let mut b = snapshot("b", "Folder", vec![snapshot("y", "Part", Vec::new())]);
    b.properties = vec![("Q".to_string(), Value::Bool(true))];
    let second = snapshot("root", "Folder", vec![snapshot("a", "Folder", Vec::new()), b]);
    let p = compute_patch_set(&second, &tree, 0);
    let applied = apply_patch_set(&mut tree, p);
    assert_eq!(applied.removed, vec![2]);
    assert_eq!(applied.added, vec![4]);
    assert_eq!(shape(&tree, 0), second);
}

#[test]
fn apply_removes_then_updates_then_adds() {
    let mut tree = new_tree();
    tree.insert_instance(0, &snapshot("a", "Folder", Vec::new())); // 1
    let patch = PatchSet {
        removed_instances: vec![1],
        added_instances: vec![
            PatchAdd { parent_id: 1, provisional_id: 0, instance: snapshot("lost", "Part", Vec::new()) },
            PatchAdd { parent_id: 0, provisional_id: 1, instance: snapshot("kept", "Part", Vec::new()) },
        ],
        updated_instances: vec![PatchUpdate {
            id: 1,
            changed_name: Some("never".to_string()),
            changed_class_name: None,
            changed_properties: Vec::new(),
            changed_metadata: None,
        }],
    };
    let applied = apply_patch_set(&mut tree, patch);
    assert_eq!(applied.removed, vec![1]);
    assert_eq!(applied.added, vec![2]);
    assert_eq!(tree.get_instance(1), None);
    assert_eq!(tree.children(0), Some(vec![2]));
    assert_eq!(tree.get_instance(2).unwrap().name, "kept");
}

#[test]
fn added_parent_is_there_before_its_children() {
    let mut tree = new_tree();
    let patch = PatchSet {
        removed_instances: Vec::new(),
        added_instances: vec![
            PatchAdd { parent_id: 0, provisional_id: 0, instance: snapshot("parent", "Folder", Vec::new()) },
            PatchAdd { parent_id: 1, provisional_id: 1, instance: snapshot("child", "Part", Vec::new()) },
        ],
        updated_instances: Vec::new(),
    };
    let applied = apply_patch_set(&mut tree, patch);
    assert_eq!(applied.added, vec![1, 2]);
    assert_eq!(tree.children(1), Some(vec![2]));
}

#[test]
fn empty_patch_changes_nothing() {
    let mut tree = new_tree();
    tree.insert_instance(0, &snapshot("a", "Folder", Vec::new()));
    let before = shape(&tree, 0);
    let applied = apply_patch_set(&mut tree, PatchSet::new());
    assert!(applied.is_empty());
    assert_eq!(shape(&tree, 0), before);
}

#[test]
fn patch_for_an_instance_within_the_tree_gives_it_the_shape_of_the_snapshot() {
    let mut tree = new_tree();
    let first = snapshot(
        "root",
        "Folder",
        vec![
            snapshot("a", "Folder", vec![snapshot("x", "Part", Vec::new())]),
            snapshot("b", "Folder", vec![snapshot("y", "Part", Vec::new())]),
        ],
    );
    let p = compute_patch_set(&first, &tree, 0);
    apply_patch_set(&mut tree, p);
    // ids: a = 1, x = 2, b = 3, y = 4
    let mut y = snapshot("y", "Part", Vec::new());
    y.properties = vec![("Size".to_string(), Value::Int(3))];
    let wanted = snapshot("b", "Model", vec![y, snapshot("z", "Part", vec![snapshot("deep", "Part", Vec::new())])]);
    let p = compute_patch_set(&wanted, &tree, 3);
    let applied = apply_patch_set(&mut tree, p);
    assert_eq!(applied.added, vec![5]);
    assert_eq!(shape(&tree, 3), wanted);
    assert_eq!(shape(&tree, 1), snapshot("a", "Folder", vec![snapshot("x", "Part", Vec::new())]));
    assert_eq!(tree.descendants(3), vec![4, 5, 6]);
}

#[test]
fn snapshot_that_does_not_line_up_keeps_the_order_of_the_tree() {
    let mut tree = new_tree();
    tree.insert_instance(0, &snapshot("b", "Part", Vec::new()));
    let wanted = snapshot("root", "Folder", vec![snapshot("a", "Part", Vec::new()), snapshot("b", "Part", Vec::new())]);
    let p = compute_patch_set(&wanted, &tree, 0);
    apply_patch_set(&mut tree, p);
    let got = shape(&tree, 0);
    let names: Vec<String> = got.children.iter().map(|c| c.name.clone()).collect();
    assert_eq!(names, vec!["b".to_string(), "a".to_string()]);
    assert!(compute_patch_set(&wanted, &tree, 0).is_empty());
}
