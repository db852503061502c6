use rojo::change_processor::{commit_event, handle_event, path_to_snapshot, paths_of_event, VfsEvent};
use rojo::imfs::{Decoded, Imfs, ImfsFile, ImfsSnapshot};
use rojo::instance::snapshot_from;
use rojo::meta_file::MetaFile;
use rojo::project::{Project, ProjectNode};
use rojo::session::{construct_oneoff_tree, initial_tree, ServeSession, SessionError};
use rojo::metadata::InstanceContext;
use rojo::snapshot::InstanceSnapshot;
use rojo::snapshot_error::SnapshotError;
use rojo::value::Value;

fn project() -> Project {
    Project {
        name: "t".to_string(),
        serve_port: Some(8000),
        serve_place_ids: Some(vec![7]),
        glob_ignore_paths: Vec::new(),
        tree: ProjectNode {
            class_name: None,
            path: Some("src".to_string()),
            children: Vec::new(),
            properties: Vec::new(),
            ignore_unknown_instances: None,
        },
        file_location: "/p/default.project.json".to_string(),
    }
}

fn base_imfs() -> Imfs {
    let mut imfs = Imfs::new();
    imfs.load_directory("/p");
    imfs.load_file("/p/default.project.json", ImfsFile { contents: Vec::new(), decoded: Decoded::Project(project()) });
    imfs.load_directory("/p/src");
    imfs
}

fn start(imfs: Imfs) -> ServeSession {
    ServeSession::new(project(), imfs, "/p", "session".to_string()).unwrap()
}

fn root_shape(session: &ServeSession) -> InstanceSnapshot {
    snapshot_from(session.tree().get_instance(0).unwrap()).get_owned()
}

fn child<'a>(s: &'a InstanceSnapshot, name: &str) -> &'a InstanceSnapshot {
    s.children.iter().find(|c| c.name == name).unwrap()
}

/// Invalidates, loads what the disk holds now, and handles the event.
fn change(session: &mut ServeSession, event: VfsEvent, now: Vec<(&str, Option<ImfsSnapshot>)>) {
    commit_event(session.imfs_mut(), &event);
    for (path, entry) in now {
        if let Some(entry) = entry {
            session.imfs_mut().load_from_snapshot(path, entry);
        }
    }
    session.handle_event("/p", &event);
}

#[test]
fn event_paths() {
    assert_eq!(paths_of_event(&VfsEvent::Created("/a".to_string())), vec!["/a".to_string()]);
    assert_eq!(paths_of_event(&VfsEvent::Modified("/a".to_string())), vec!["/a".to_string()]);
    assert_eq!(paths_of_event(&VfsEvent::Removed("/a".to_string())), vec!["/a".to_string()]);
    assert_eq!(
        paths_of_event(&VfsEvent::Renamed("/a".to_string(), "/b".to_string())),
        vec!["/a".to_string(), "/b".to_string()]
    );
}

#[test]
fn commit_invalidates_the_paths_of_the_event() {
    let mut imfs = base_imfs();
    imfs.load_from_snapshot("/p/src/a.lua", ImfsSnapshot::file("x"));
    imfs.load_from_snapshot("/p/src/b.lua", ImfsSnapshot::file("y"));
    let removed = commit_event(&mut imfs, &VfsEvent::Renamed("/p/src/a.lua".to_string(), "/p/src/c.lua".to_string()));
    assert_eq!(removed, vec!["/p/src/a.lua".to_string()]);
    assert!(!imfs.contains("/p/src/a.lua"));
    assert!(imfs.contains("/p/src/b.lua"));
    let mut removed = commit_event(&mut imfs, &VfsEvent::Removed("/p/src".to_string()));
    removed.sort();
    assert_eq!(removed, vec!["/p/src".to_string(), "/p/src/b.lua".to_string()]);
    assert!(imfs.contains("/p"));
}

#[test]
fn session_starts_from_the_project() {
    let mut imfs = base_imfs();
    imfs.load_from_snapshot("/p/src/hello.lua", ImfsSnapshot::file("return 1"));
    let session = start(imfs);
    let root = root_shape(&session);
    assert_eq!(root.name, "t");
    assert_eq!(root.class_name, "Folder");
    assert_eq!(root.children.len(), 1);
    assert_eq!(root.children[0].name, "hello");
    assert_eq!(root.children[0].class_name, "ModuleScript");
    assert_eq!(root.children[0].properties, vec![("Source".to_string(), Value::String("return 1".to_string()))]);
    assert_eq!(session.message_queue().cursor(), 0);
    assert_eq!(session.session_id(), "session");
    assert_eq!(session.project_name(), "t");
    assert_eq!(session.project_port(), Some(8000));
    assert_eq!(session.serve_place_ids(), Some(&vec![7]));
    assert!(session.errors().is_empty());
}

#[test]
fn session_needs_an_instance() {
    let mut imfs = Imfs::new();
    imfs.load_from_snapshot("/p/a.png", ImfsSnapshot::file(""));
    let context = InstanceContext::default();
    assert_eq!(initial_tree(&context, &imfs, "/p/a.png").err(), Some(SessionError::NoInstance));
    assert_eq!(
        initial_tree(&context, &imfs, "/nope").err(),
        Some(SessionError::Snapshot(SnapshotError::DidNotExist("/nope".to_string())))
    );
}

#[test]
fn affected_path_is_the_deepest_known_one() {
    let mut imfs = base_imfs();
    imfs.load_from_snapshot("/p/src/dir", ImfsSnapshot::dir(vec![("a.lua".to_string(), ImfsSnapshot::file("x"))]));
    let session = start(imfs);
    let tree = session.tree();
    assert_eq!(path_to_snapshot(tree, "/p", "/p/src/dir/a.lua"), Some("/p/src/dir/a.lua".to_string()));
    assert_eq!(path_to_snapshot(tree, "/p", "/p/src/dir/new.lua"), Some("/p/src/dir".to_string()));
    assert_eq!(path_to_snapshot(tree, "/p", "/p/src/dir/init.lua"), Some("/p/src/dir".to_string()));
    assert_eq!(path_to_snapshot(tree, "/p", "/p/src/x/y/z.lua"), Some("/p/src".to_string()));
    assert_eq!(path_to_snapshot(tree, "/p", "/elsewhere/a.lua"), None);
}

#[test]
fn created_file_is_added_and_published() {
    let mut session = start(base_imfs());
    assert!(root_shape(&session).children.is_empty());
    change(
        &mut session,
        VfsEvent::Created("/p/src/hello.lua".to_string()),
        vec![("/p/src/hello.lua", Some(ImfsSnapshot::file("return 1")))],
    );
    let root = root_shape(&session);
    assert_eq!(root.children.len(), 1);
    assert_eq!(root.children[0].class_name, "ModuleScript");
    assert_eq!(session.message_queue().cursor(), 1);
    let (_, messages) = session.message_queue().get_messages_since(0);
    assert_eq!(messages[0].added.len(), 1);
    assert!(messages[0].removed.is_empty());
    assert!(session.errors().is_empty());
}

#[test]
fn change_without_effect_publishes_nothing() {
    let mut imfs = base_imfs();
    imfs.load_from_snapshot("/p/src/hello.lua", ImfsSnapshot::file("return 1"));
    let mut session = start(imfs);
    change(
        &mut session,
        VfsEvent::Modified("/p/src/hello.lua".to_string()),
        vec![("/p/src/hello.lua", Some(ImfsSnapshot::file("return 1")))],
    );
    assert_eq!(session.message_queue().cursor(), 0);
}

#[test]
fn modified_file_is_updated_in_one_patch() {
    let mut imfs = base_imfs();
    imfs.load_from_snapshot("/p/src/hello.lua", ImfsSnapshot::file("return 1"));
    let mut session = start(imfs);
    change(
        &mut session,
        VfsEvent::Modified("/p/src/hello.lua".to_string()),
        vec![("/p/src/hello.lua", Some(ImfsSnapshot::file("return 2")))],
    );
    assert_eq!(child(&root_shape(&session), "hello").properties, vec![("Source".to_string(), Value::String("return 2".to_string()))]);
    let (cursor, messages) = session.message_queue().get_messages_since(0);
    assert_eq!(cursor, 1);
    assert_eq!(messages[0].updated.len(), 1);
    assert_eq!(messages[0].updated[0].changed_properties, vec![("Source".to_string(), Some(Value::String("return 2".to_string())))]);
}

#[test]
fn removed_file_is_removed() {
    let mut imfs = base_imfs();
    imfs.load_from_snapshot("/p/src/hello.lua", ImfsSnapshot::file("return 1"));
    imfs.load_from_snapshot("/p/src/other.lua", ImfsSnapshot::file("return 2"));
    let mut session = start(imfs);
    change(&mut session, VfsEvent::Removed("/p/src/hello.lua".to_string()), vec![]);
    let root = root_shape(&session);
    assert_eq!(root.children.len(), 1);
    assert_eq!(root.children[0].name, "other");
    let (_, messages) = session.message_queue().get_messages_since(0);
    assert_eq!(messages.len(), 1);
    assert_eq!(messages[0].removed.len(), 1);
}

#[test]
fn init_promotion() {
    let mut session = start(base_imfs());
    change(
        &mut session,
        VfsEvent::Created("/p/src/hello".to_string()),
        vec![(
            "/p/src/hello",
            Some(ImfsSnapshot::dir(vec![("init.server.lua".to_string(), ImfsSnapshot::file("print(1)"))])),
        )],
    );
    let root = root_shape(&session);
    let hello = child(&root, "hello");
    assert_eq!(hello.class_name, "Script");
    assert_eq!(hello.properties, vec![("Source".to_string(), Value::String("print(1)".to_string()))]);
    assert!(hello.children.is_empty());
    change(
        &mut session,
        VfsEvent::Created("/p/src/hello/world.lua".to_string()),
        vec![("/p/src/hello/world.lua", Some(ImfsSnapshot::file("return 1")))],
    );
    let root = root_shape(&session);
    let hello = child(&root, "hello");
    assert_eq!(hello.class_name, "Script");
    assert_eq!(hello.children.len(), 1);
    assert_eq!(hello.children[0].name, "world");
    assert_eq!(hello.children[0].class_name, "ModuleScript");
}

#[test]
fn init_file_created_beside_folder_promotes_it_in_one_patch() {
    let mut imfs = base_imfs();
    imfs.load_from_snapshot("/p/src/dir", ImfsSnapshot::dir(vec![("a.lua".to_string(), ImfsSnapshot::file("x"))]));
    let mut session = start(imfs);
    assert_eq!(child(&root_shape(&session), "dir").class_name, "Folder");
    change(
        &mut session,
        VfsEvent::Created("/p/src/dir/init.lua".to_string()),
        vec![("/p/src/dir/init.lua", Some(ImfsSnapshot::file("return {}")))],
    );
    let root = root_shape(&session);
    let dir = child(&root, "dir");
    assert_eq!(dir.class_name, "ModuleScript");
    assert_eq!(dir.properties, vec![("Source".to_string(), Value::String("return {}".to_string()))]);
    assert_eq!(dir.children.len(), 1);
    let (cursor, messages) = session.message_queue().get_messages_since(0);
    assert_eq!(cursor, 1);
    assert_eq!(messages[0].updated.len(), 1);
    assert_eq!(messages[0].updated[0].changed_class_name, Some("ModuleScript".to_string()));
    assert_eq!(
        messages[0].updated[0].changed_properties,
        vec![("Source".to_string(), Some(Value::String("return {}".to_string())))]
    );
    assert!(messages[0].added.is_empty());
    assert!(messages[0].removed.is_empty());
}

#[test]
fn removing_the_init_file_demotes_to_folder() {
    let mut imfs = base_imfs();
    imfs.load_from_snapshot(
        "/p/src/dir",
        ImfsSnapshot::dir(vec![("init.server.lua".to_string(), ImfsSnapshot::file("print(1)"))]),
    );
    let mut session = start(imfs);
    assert_eq!(child(&root_shape(&session), "dir").class_name, "Script");
    change(&mut session, VfsEvent::Removed("/p/src/dir/init.server.lua".to_string()), vec![]);
    let root = root_shape(&session);
    let dir = child(&root, "dir");
    assert_eq!(dir.class_name, "Folder");
    assert!(dir.properties.is_empty());
    let (_, messages) = session.message_queue().get_messages_since(0);
    assert_eq!(messages.len(), 1);
    assert_eq!(messages[0].updated[0].changed_class_name, Some("Folder".to_string()));
    assert_eq!(messages[0].updated[0].changed_properties, vec![("Source".to_string(), None)]);
}

#[test]
fn meta_override() {
    let mut imfs = base_imfs();
    let meta = MetaFile { class_name: Some("Configuration".to_string()), properties: Vec::new(), ignore_unknown_instances: None };
    imfs.load_file("/p/src/config.meta.json", ImfsFile { contents: Vec::new(), decoded: Decoded::Meta(meta) });
    let mut session = start(imfs);
    assert!(root_shape(&session).children.is_empty());
    change(
        &mut session,
        VfsEvent::Created("/p/src/config.lua".to_string()),
        vec![("/p/src/config.lua", Some(ImfsSnapshot::file("return {}")))],
    );
    let root = root_shape(&session);
    assert_eq!(child(&root, "config").class_name, "Configuration");
}

#[test]
fn rename_as_remove_and_create_gives_the_same_tree() {
    let build = || {
        let mut imfs = base_imfs();
        imfs.load_from_snapshot("/p/src/old.lua", ImfsSnapshot::file("return 1"));
        start(imfs)
    };
    let mut renamed = build();
    change(
        &mut renamed,
        VfsEvent::Renamed("/p/src/old.lua".to_string(), "/p/src/new.lua".to_string()),
        vec![("/p/src/new.lua", Some(ImfsSnapshot::file("return 1")))],
    );
    let mut split = build();
    change(&mut split, VfsEvent::Removed("/p/src/old.lua".to_string()), vec![]);
    change(
        &mut split,
        VfsEvent::Created("/p/src/new.lua".to_string()),
        vec![("/p/src/new.lua", Some(ImfsSnapshot::file("return 1")))],
    );
    assert_eq!(root_shape(&renamed), root_shape(&split));
    assert_eq!(root_shape(&renamed).children.len(), 1);
    assert_eq!(root_shape(&renamed).children[0].name, "new");
}

#[test]
fn error_in_a_file_is_recorded_and_the_session_goes_on() {
    let mut imfs = base_imfs();
    imfs.load_from_snapshot("/p/src/hello.lua", ImfsSnapshot::file("return 1"));
    let mut session = start(imfs);
    commit_event(session.imfs_mut(), &VfsEvent::Modified("/p/src/hello.lua".to_string()));
    session.imfs_mut().load_file("/p/src/hello.lua", ImfsFile { contents: vec![0xff], decoded: Decoded::Plain });
    session.handle_event("/p", &VfsEvent::Modified("/p/src/hello.lua".to_string()));
    assert_eq!(session.errors(), &vec![SnapshotError::Utf8Error { path: "/p/src/hello.lua".to_string() }]);
    assert_eq!(session.message_queue().cursor(), 0);
    assert_eq!(child(&root_shape(&session), "hello").class_name, "ModuleScript");
    change(
        &mut session,
        VfsEvent::Modified("/p/src/hello.lua".to_string()),
        vec![("/p/src/hello.lua", Some(ImfsSnapshot::file("return 3")))],
    );
    assert_eq!(session.message_queue().cursor(), 1);
}

#[test]
fn event_outside_the_root_changes_nothing() {
    let mut session = start(base_imfs());
    let before = root_shape(&session);
    session.handle_event("/p", &VfsEvent::Created("/elsewhere/a.lua".to_string()));
    assert_eq!(root_shape(&session), before);
    assert_eq!(session.message_queue().cursor(), 0);
}

#[test]
fn handle_event_on_parts() {
    let mut imfs = base_imfs();
    imfs.load_from_snapshot("/p/src/a.lua", ImfsSnapshot::file("x"));
    let mut session = start(imfs);
    let mut errors = Vec::new();
    commit_event(&mut session.imfs, &VfsEvent::Removed("/p/src/a.lua".to_string()));
    handle_event(
        &mut session.tree,
        &session.imfs,
        &mut session.message_queue,
        &mut errors,
        "/p",
        "/p",
        &VfsEvent::Removed("/p/src/a.lua".to_string()),
    );
    assert!(errors.is_empty());
    assert!(root_shape(&session).children.is_empty());
}

#[test]
fn oneoff_tree_is_built_from_the_project() {
    let mut imfs = base_imfs();
    imfs.load_from_snapshot("/p/src/hello.lua", ImfsSnapshot::file("return 1"));
    let tree = construct_oneoff_tree(&project(), &imfs).unwrap();
    let root = snapshot_from(tree.get_instance(tree.get_root_id()).unwrap()).get_owned();
    assert_eq!(root.name, "t");
    assert_eq!(root.children.len(), 1);
    assert_eq!(root.children[0].name, "hello");
    let empty = Imfs::new();
    assert_eq!(
        construct_oneoff_tree(&project(), &empty).err(),
        Some(SessionError::Snapshot(SnapshotError::DidNotExist("/p/src".to_string())))
    );
}

#[test]
fn named_handlers_handle_their_events() {
    let mut session = start(base_imfs());
    session.imfs_mut().load_from_snapshot("/p/src/a.lua", ImfsSnapshot::file("x"));
    session.path_created("/p", "/p/src/a.lua");
    assert_eq!(root_shape(&session).children.len(), 1);
    assert_eq!(session.message_queue().cursor(), 1);

    session.imfs_mut().load_from_snapshot("/p/src/a.lua", ImfsSnapshot::file("y"));
    session.path_updated("/p", "/p/src/a.lua");
    assert_eq!(child(&root_shape(&session), "a").properties, vec![("Source".to_string(), Value::String("y".to_string()))]);
    assert_eq!(session.message_queue().cursor(), 2);

    session.imfs_mut().remove("/p/src/a.lua");
    session.imfs_mut().load_from_snapshot("/p/src/b.lua", ImfsSnapshot::file("y"));
    session.path_renamed("/p", "/p/src/a.lua", "/p/src/b.lua");
    assert_eq!(root_shape(&session).children.len(), 1);
    assert_eq!(root_shape(&session).children[0].name, "b");

    session.imfs_mut().remove("/p/src/b.lua");
    session.path_removed("/p", "/p/src/b.lua");
    assert!(root_shape(&session).children.is_empty());
    assert!(session.get_tree().get_instance(0).is_some());
}

#[test]
fn update_of_a_directory_or_of_nothing_is_ignored() {
    let mut imfs = base_imfs();
    imfs.load_from_snapshot("/p/src/dir", ImfsSnapshot::dir(Vec::new()));
    let mut session = start(imfs);
    session.imfs_mut().load_from_snapshot("/p/src/dir/a.lua", ImfsSnapshot::file("x"));
    session.path_updated("/p", "/p/src/dir");
    session.path_updated("/p", "/p/src/nothing.lua");
    assert_eq!(session.message_queue().cursor(), 0);
    assert!(child(&root_shape(&session), "dir").children.is_empty());
}

#[test]
fn metadata_of_an_instance_is_returned() {
    let mut imfs = base_imfs();
    imfs.load_from_snapshot("/p/src/a.lua", ImfsSnapshot::file("x"));
    let session = start(imfs);
    let root = session.get_instance_metadata(0).unwrap();
    assert_eq!(root.relevant_paths[0], "/p/src");
    let a = session.get_instance_metadata(1).unwrap();
    assert_eq!(a.relevant_paths, vec!["/p/src/a.lua".to_string(), "/p/src/a.meta.json".to_string()]);
    assert!(session.get_instance_metadata(9).is_none());
}
