use rojo::imfs::{Decoded, Imfs, ImfsFile, ImfsItem, ImfsSnapshot};
use rojo::meta_file::MetaFile;
use rojo::metadata::{InstanceContext, InstigatingSource};
use rojo::project::{Project, ProjectNode};
use rojo::snapshot::InstanceSnapshot;
use rojo::snapshot_error::SnapshotError;
use rojo::snapshot_middleware::{snapshot_imfs_path, snapshot_project_node, snapshot_project_tree, SnapshotLua};
use rojo::value::Value;

fn node(class: Option<&str>, path: Option<&str>) -> ProjectNode {
    ProjectNode {
        class_name: class.map(|c| c.to_string()),
        path: path.map(|p| p.to_string()),
        children: Vec::new(),
        properties: Vec::new(),
        ignore_unknown_instances: None,
    }
}

fn project(name: &str, tree: ProjectNode, location: &str) -> Project {
    Project {
        name: name.to_string(),
        serve_port: None,
        serve_place_ids: None,
        glob_ignore_paths: Vec::new(),
        tree,
        file_location: location.to_string(),
    }
}

fn decoded_file(decoded: Decoded) -> ImfsFile {
    ImfsFile { contents: Vec::new(), decoded }
}

fn names(s: &InstanceSnapshot) -> Vec<String> {
    s.children.iter().map(|c| c.name.clone()).collect()
}

fn snap(imfs: &Imfs, path: &str) -> Result<Option<InstanceSnapshot>, SnapshotError> {
    snapshot_imfs_path(&InstanceContext::default(), imfs, path, None)
}

#[test]
fn directory_becomes_folder_of_its_entries() {
    let mut imfs = Imfs::new();
    imfs.load_from_snapshot(
        "/src",
        ImfsSnapshot::dir(vec![
            ("b.lua".to_string(), ImfsSnapshot::file("b")),
            ("a.txt".to_string(), ImfsSnapshot::file("a")),
            ("skip.png".to_string(), ImfsSnapshot::file("")),
            ("sub".to_string(), ImfsSnapshot::dir(vec![("c.client.lua".to_string(), ImfsSnapshot::file("c"))])),
        ]),
    );
    let s = snap(&imfs, "/src").unwrap().unwrap();
    assert_eq!(s.name, "src");
    assert_eq!(s.class_name, "Folder");
    assert!(s.properties.is_empty());
    assert_eq!(names(&s), vec!["b".to_string(), "a".to_string(), "sub".to_string()]);
    assert_eq!(s.children[2].class_name, "Folder");
    assert_eq!(s.children[2].children[0].class_name, "LocalScript");
    assert_eq!(s.metadata.instigating_source, Some(InstigatingSource::Path("/src".to_string())));
    assert_eq!(
        s.metadata.relevant_paths,
        vec![
            "/src".to_string(),
            "/src/init.meta.json".to_string(),
            "/src/init.lua".to_string(),
            "/src/init.server.lua".to_string(),
            "/src/init.client.lua".to_string(),
            "/src/default.project.json".to_string(),
        ]
    );
    assert!(s.is_wf());
}

#[test]
fn loading_a_directory_loads_every_entry() {
    let mut imfs = Imfs::new();
    imfs.load_from_snapshot(
        "/src",
        ImfsSnapshot::dir(vec![("a".to_string(), ImfsSnapshot::dir(vec![("b.lua".to_string(), ImfsSnapshot::file("x"))]))]),
    );
    assert_eq!(imfs.get("/src"), Some(&ImfsItem::Directory));
    assert_eq!(imfs.get("/src/a"), Some(&ImfsItem::Directory));
    assert!(imfs.contains("/src/a/b.lua"));
    assert_eq!(imfs.children("/src"), Some(vec!["/src/a".to_string()]));
    assert_eq!(imfs.children("/nope"), None);
}

#[test]
fn removing_a_directory_removes_what_is_below() {
    let mut imfs = Imfs::new();
    imfs.load_from_snapshot(
        "/src",
        ImfsSnapshot::dir(vec![("a.lua".to_string(), ImfsSnapshot::file("x")), ("b.lua".to_string(), ImfsSnapshot::file("y"))]),
    );
    imfs.load_from_snapshot("/other.lua", ImfsSnapshot::file("z"));
    let mut removed = imfs.remove("/src");
    assert_eq!(removed[0], "/src");
    removed.sort();
    assert_eq!(removed, vec!["/src".to_string(), "/src/a.lua".to_string(), "/src/b.lua".to_string()]);
    assert!(!imfs.contains("/src"));
    assert!(!imfs.contains("/src/a.lua"));
    assert!(imfs.contains("/other.lua"));
    assert_eq!(imfs.remove("/nope"), Vec::<String>::new());
}

#[test]
fn init_script_takes_over_its_directory() {
    let mut imfs = Imfs::new();
    imfs.load_from_snapshot(
        "/src/hello",
        ImfsSnapshot::dir(vec![
            ("init.server.lua".to_string(), ImfsSnapshot::file("print(1)")),
            ("world.lua".to_string(), ImfsSnapshot::file("return 2")),
        ]),
    );
    let s = snap(&imfs, "/src/hello").unwrap().unwrap();
    assert_eq!(s.name, "hello");
    assert_eq!(s.class_name, "Script");
    assert_eq!(s.properties, vec![("Source".to_string(), Value::String("print(1)".to_string()))]);
    assert_eq!(names(&s), vec!["world".to_string()]);
    assert_eq!(s.children[0].class_name, "ModuleScript");
    assert_eq!(s.metadata.instigating_source, Some(InstigatingSource::Path("/src/hello".to_string())));
    let via_middleware = SnapshotLua::from_imfs(&InstanceContext::default(), &imfs, "/src/hello").unwrap().unwrap();
    assert_eq!(via_middleware, s);
}

#[test]
fn init_scripts_have_a_priority() {
    let mut imfs = Imfs::new();
    imfs.load_from_snapshot(
        "/d",
        ImfsSnapshot::dir(vec![
            ("init.client.lua".to_string(), ImfsSnapshot::file("c")),
            ("init.lua".to_string(), ImfsSnapshot::file("m")),
            ("init.server.lua".to_string(), ImfsSnapshot::file("s")),
        ]),
    );
    let s = snap(&imfs, "/d").unwrap().unwrap();
    assert_eq!(s.class_name, "ModuleScript");
    assert_eq!(s.properties, vec![("Source".to_string(), Value::String("m".to_string()))]);
    assert!(s.children.is_empty());
    imfs.remove("/d/init.lua");
    assert_eq!(snap(&imfs, "/d").unwrap().unwrap().class_name, "Script");
    imfs.remove("/d/init.server.lua");
    assert_eq!(snap(&imfs, "/d").unwrap().unwrap().class_name, "LocalScript");
    imfs.remove("/d/init.client.lua");
    assert_eq!(snap(&imfs, "/d").unwrap().unwrap().class_name, "Folder");
}

#[test]
fn init_script_that_is_not_utf8_is_an_error() {
    let mut imfs = Imfs::new();
    imfs.load_directory("/d");
    imfs.load_file("/d/init.lua", ImfsFile { contents: vec![0x80], decoded: Decoded::Plain });
    assert_eq!(snap(&imfs, "/d"), Err(SnapshotError::Utf8Error { path: "/d/init.lua".to_string() }));
}

#[test]
fn error_in_an_entry_is_the_error_of_the_directory() {
    let mut imfs = Imfs::new();
    imfs.load_directory("/d");
    imfs.load_from_snapshot("/d/a.lua", ImfsSnapshot::file("ok"));
    imfs.load_file("/d/b.lua", ImfsFile { contents: vec![0x80], decoded: Decoded::Plain });
    imfs.load_from_snapshot("/d/c.lua", ImfsSnapshot::file("ok"));
    assert_eq!(snap(&imfs, "/d"), Err(SnapshotError::Utf8Error { path: "/d/b.lua".to_string() }));
}

#[test]
fn meta_file_alone_gives_nothing() {
    let mut imfs = Imfs::new();
    imfs.load_directory("/src");
    let meta = MetaFile { class_name: Some("Configuration".to_string()), properties: Vec::new(), ignore_unknown_instances: None };
    imfs.load_file("/src/config.meta.json", decoded_file(Decoded::Meta(meta)));
    assert_eq!(snap(&imfs, "/src/config.meta.json"), Ok(None));
    assert!(snap(&imfs, "/src").unwrap().unwrap().children.is_empty());
}

#[test]
fn meta_file_overrides_the_class() {
    let mut imfs = Imfs::new();
    imfs.load_directory("/src");
    let meta = MetaFile {
        class_name: Some("Configuration".to_string()),
        properties: vec![("Archivable".to_string(), Value::Bool(false))],
        ignore_unknown_instances: Some(true),
    };
    imfs.load_file("/src/config.meta.json", decoded_file(Decoded::Meta(meta)));
    imfs.load_from_snapshot("/src/config.lua", ImfsSnapshot::file("return {}"));
    let s = snap(&imfs, "/src").unwrap().unwrap();
    assert_eq!(s.children.len(), 1);
    let config = &s.children[0];
    assert_eq!(config.name, "config");
    assert_eq!(config.class_name, "Configuration");
    assert_eq!(
        config.properties,
        vec![
            ("Source".to_string(), Value::String("return {}".to_string())),
            ("Archivable".to_string(), Value::Bool(false)),
        ]
    );
    assert!(config.metadata.ignore_unknown_instances);
    assert!(config.metadata.relevant_paths.contains(&"/src/config.meta.json".to_string()));
}

#[test]
fn meta_file_replaces_a_property() {
    let mut imfs = Imfs::new();
    let meta = MetaFile {
        class_name: None,
        properties: vec![("Value".to_string(), Value::String("over".to_string()))],
        ignore_unknown_instances: None,
    };
    imfs.load_file("/a.meta.json", decoded_file(Decoded::Meta(meta)));
    imfs.load_from_snapshot("/a.txt", ImfsSnapshot::file("base"));
    let s = snap(&imfs, "/a.txt").unwrap().unwrap();
    assert_eq!(s.class_name, "StringValue");
    assert_eq!(s.properties, vec![("Value".to_string(), Value::String("over".to_string()))]);
}

#[test]
fn init_meta_file_applies_to_the_directory() {
    let mut imfs = Imfs::new();
    imfs.load_directory("/d");
    let meta = MetaFile { class_name: Some("Model".to_string()), properties: Vec::new(), ignore_unknown_instances: None };
    imfs.load_file("/d/init.meta.json", decoded_file(Decoded::Meta(meta)));
    let s = snap(&imfs, "/d").unwrap().unwrap();
    assert_eq!(s.class_name, "Model");
    assert!(s.children.is_empty());
}

#[test]
fn malformed_meta_file_is_an_error() {
    let mut imfs = Imfs::new();
    imfs.load_file("/a.meta.json", decoded_file(Decoded::Malformed("line 1".to_string())));
    imfs.load_from_snapshot("/a.txt", ImfsSnapshot::file("base"));
    assert_eq!(
        snap(&imfs, "/a.txt"),
        Err(SnapshotError::MetaDecodeError { message: "line 1".to_string(), path: "/a.meta.json".to_string() })
    );
}

#[test]
fn bare_lua_module() {
    let mut imfs = Imfs::new();
    let p = project("t", node(None, Some("src")), "/p/default.project.json");
    imfs.load_directory("/p");
    imfs.load_file("/p/default.project.json", decoded_file(Decoded::Project(p)));
    imfs.load_directory("/p/src");
    imfs.load_from_snapshot("/p/src/hello.lua", ImfsSnapshot::file("return 1"));
    let s = snap(&imfs, "/p").unwrap().unwrap();
    assert_eq!(s.name, "t");
    assert_eq!(s.class_name, "Folder");
    assert_eq!(s.children.len(), 1);
    assert_eq!(s.children[0].name, "hello");
    assert_eq!(s.children[0].class_name, "ModuleScript");
    assert_eq!(s.children[0].properties, vec![("Source".to_string(), Value::String("return 1".to_string()))]);
    let by_file = snap(&imfs, "/p/default.project.json").unwrap().unwrap();
    assert_eq!(by_file, s);
}

#[test]
fn project_node_with_class_alone_is_a_folder_that_ignores_unknown() {
    let imfs = Imfs::new();
    let n = node(Some("Workspace"), None);
    let s = snapshot_project_node(&InstanceContext::default(), &imfs, &n, "Workspace", "/p").unwrap().unwrap();
    assert_eq!(s.name, "Workspace");
    assert_eq!(s.class_name, "Workspace");
    assert!(s.metadata.ignore_unknown_instances);
    assert_eq!(s.metadata.instigating_source, Some(InstigatingSource::ProjectNode("Workspace".to_string(), n)));
    assert!(s.metadata.relevant_paths.is_empty());
}

#[test]
fn project_node_without_path_or_class_is_unusable() {
    let imfs = Imfs::new();
    let r = snapshot_project_node(&InstanceContext::default(), &imfs, &node(None, None), "x", "/p");
    assert_eq!(r, Err(SnapshotError::ProjectNodeUnusable));
}

#[test]
fn project_node_with_class_needs_a_folder_at_its_path() {
    let mut imfs = Imfs::new();
    imfs.load_from_snapshot("/p/a.lua", ImfsSnapshot::file("x"));
    imfs.load_from_snapshot("/p/dir", ImfsSnapshot::dir(Vec::new()));
    let context = InstanceContext::default();
    let bad = snapshot_project_node(&context, &imfs, &node(Some("Model"), Some("a.lua")), "n", "/p");
    assert_eq!(bad, Err(SnapshotError::ProjectNodeInvalidTransmute { partition_path: "/p/a.lua".to_string() }));
    let good = snapshot_project_node(&context, &imfs, &node(Some("Model"), Some("dir")), "n", "/p").unwrap().unwrap();
    assert_eq!(good.class_name, "Model");
    assert_eq!(good.name, "n");
}

#[test]
fn project_node_with_missing_path_is_an_error() {
    let imfs = Imfs::new();
    let r = snapshot_project_node(&InstanceContext::default(), &imfs, &node(None, Some("src")), "n", "/p");
    assert_eq!(r, Err(SnapshotError::DidNotExist("/p/src".to_string())));
    let r = snapshot_project_node(&InstanceContext::default(), &imfs, &node(None, Some("/abs")), "n", "/p");
    assert_eq!(r, Err(SnapshotError::DidNotExist("/abs".to_string())));
}

#[test]
fn project_tree_adds_children_properties_and_flag() {
    let mut imfs = Imfs::new();
    imfs.load_from_snapshot("/p/src", ImfsSnapshot::dir(vec![("a.lua".to_string(), ImfsSnapshot::file("x"))]));
    let mut root = node(Some("DataModel"), None);
    let mut storage = node(Some("ReplicatedStorage"), Some("src"));
    storage.properties = vec![("Archivable".to_string(), Value::Bool(true))];
    storage.ignore_unknown_instances = Some(true);
    root.children.push(("ReplicatedStorage".to_string(), storage));
    root.children.push(("Empty".to_string(), node(Some("Folder"), None)));
    root.ignore_unknown_instances = Some(false);
    let p = project("game", root, "/p/default.project.json");
    let s = snapshot_project_tree(&InstanceContext::default(), &imfs, &p).unwrap().unwrap();
    assert_eq!(s.name, "game");
    assert_eq!(s.class_name, "DataModel");
    assert!(!s.metadata.ignore_unknown_instances);
    assert_eq!(names(&s), vec!["ReplicatedStorage".to_string(), "Empty".to_string()]);
    let storage = &s.children[0];
    assert_eq!(storage.class_name, "ReplicatedStorage");
    assert_eq!(storage.properties, vec![("Archivable".to_string(), Value::Bool(true))]);
    assert!(storage.metadata.ignore_unknown_instances);
    assert_eq!(names(storage), vec!["a".to_string()]);
    assert_eq!(storage.metadata.relevant_paths[0], "/p/src");
    assert!(s.is_wf());
}

#[test]
fn malformed_project_file_is_an_error() {
    let mut imfs = Imfs::new();
    imfs.load_file("/p/a.project.json", decoded_file(Decoded::Malformed("unknown field".to_string())));
    assert_eq!(
        snap(&imfs, "/p/a.project.json"),
        Err(SnapshotError::ProjectDecodeError {
            message: "unknown field".to_string(),
            path: "/p/a.project.json".to_string()
        })
    );
}

#[test]
fn project_that_names_its_own_directory_stops_at_the_nesting_limit() {
    let mut imfs = Imfs::new();
    let p = project("loop", node(None, Some("/p")), "/p/default.project.json");
    imfs.load_directory("/p");
    imfs.load_file("/p/default.project.json", decoded_file(Decoded::Project(p)));
    assert_eq!(
        snap(&imfs, "/p"),
        Err(SnapshotError::ProjectNestingTooDeep { path: "/p/default.project.json".to_string() })
    );
}

#[test]
fn nested_project_is_followed() {
    let mut imfs = Imfs::new();
    let inner = project("inner", node(Some("Folder"), None), "/p/lib/default.project.json");
    let outer = project("outer", node(None, Some("lib")), "/p/default.project.json");
    imfs.load_directory("/p");
    imfs.load_file("/p/default.project.json", decoded_file(Decoded::Project(outer)));
    imfs.load_directory("/p/lib");
    imfs.load_file("/p/lib/default.project.json", decoded_file(Decoded::Project(inner)));
    let s = snap(&imfs, "/p").unwrap().unwrap();
    assert_eq!(s.name, "outer");
    assert_eq!(s.class_name, "Folder");
    assert!(s.metadata.ignore_unknown_instances);
}
