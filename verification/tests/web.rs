use rojo::instance::Instance;
use rojo::message_queue::MessageQueue;
use rojo::metadata::InstanceMetadata;
use rojo::patch::AppliedPatchSet;
use rojo::snapshot::InstanceSnapshot;
use rojo::tree::RojoTree;
use rojo::web::{parse_id_list, route, Response, Route, Server, PROTOCOL_VERSION};

fn snapshot(name: &str, children: Vec<InstanceSnapshot>) -> InstanceSnapshot {
    InstanceSnapshot {
        snapshot_id: None,
        metadata: InstanceMetadata::new(),
        name: name.to_string(),
        class_name: "Folder".to_string(),
        properties: Vec::new(),
        children,
    }
}

fn small_tree() -> RojoTree {
    let mut tree = RojoTree::new("root".to_string(), "Folder".to_string(), Vec::new(), InstanceMetadata::new());
    // ids: a = 1, a1 = 2, b = 3
    tree.insert_instance(0, &snapshot("a", vec![snapshot("a1", Vec::new())]));
    tree.insert_instance(0, &snapshot("b", Vec::new()));
    tree
}

fn ids(instances: &[&Instance]) -> Vec<u128> {
    instances.iter().map(|i| i.id).collect()
}

fn server() -> Server {
    Server::new("session".to_string(), "1.0.0".to_string(), Some(vec![5]))
}

fn applied(removed: Vec<u128>) -> AppliedPatchSet {
    AppliedPatchSet { removed, added: Vec::new(), updated: Vec::new() }
}

#[test]
fn routes() {
    assert_eq!(route("GET", "/"), Route::Home);
    assert_eq!(route("GET", "/api/rojo"), Route::Info);
    assert_eq!(route("POST", "/api/write"), Route::Write);
    assert_eq!(route("GET", "/api/read/1,2a"), Route::Read(vec![1, 0x2a]));
    assert_eq!(route("GET", "/api/subscribe/17"), Route::Subscribe(17));
}

#[test]
fn malformed_requests() {
    assert_eq!(route("GET", "/api/read/"), Route::BadRequest("Malformed ID list".to_string()));
    assert_eq!(route("GET", "/api/read/1,,2"), Route::BadRequest("Malformed ID list".to_string()));
    assert_eq!(route("GET", "/api/read/xyz"), Route::BadRequest("Malformed ID list".to_string()));
    assert_eq!(route("GET", "/api/subscribe/"), Route::BadRequest("Malformed message cursor".to_string()));
    assert_eq!(route("GET", "/api/subscribe/-1"), Route::BadRequest("Malformed message cursor".to_string()));
    assert_eq!(
        route("GET", "/api/subscribe/4294967296"),
        Route::BadRequest("Malformed message cursor".to_string())
    );
}

#[test]
fn unknown_routes() {
    assert_eq!(route("GET", "/nope"), Route::NotFound("Route not found: /nope".to_string()));
    assert_eq!(route("POST", "/api/rojo"), Route::NotFound("Route not found: /api/rojo".to_string()));
    assert_eq!(route("GET", "/api/write"), Route::NotFound("Route not found: /api/write".to_string()));
    assert_eq!(route("PUT", "/"), Route::NotFound("Route not found: /".to_string()));
}

#[test]
fn id_lists() {
    assert_eq!(parse_id_list("0"), Some(vec![0]));
    assert_eq!(parse_id_list("a,b,c"), Some(vec![10, 11, 12]));
    assert_eq!(parse_id_list(""), None);
    assert_eq!(parse_id_list("a,"), None);
    assert_eq!(parse_id_list(",a"), None);
}

#[test]
fn info_names_the_root() {
    let tree = small_tree();
    let info = server().info(&tree);
    assert_eq!(info.session_id, "session");
    assert_eq!(info.server_version, "1.0.0");
    assert_eq!(info.protocol_version, PROTOCOL_VERSION);
    assert_eq!(info.root_instance_id, 0);
    assert_eq!(info.expected_place_ids, Some(vec![5]));
}

#[test]
fn read_gives_instances_with_descendants() {
    let tree = small_tree();
    let read = server().read(&tree, 9, &vec![1]);
    assert_eq!(read.message_cursor, 9);
    assert_eq!(ids(&read.instances), vec![1, 2]);
    let read = server().read(&tree, 0, &vec![0]);
    assert_eq!(ids(&read.instances), vec![0, 1, 2, 3]);
}

#[test]
fn read_leaves_out_unknown_ids_and_repeats() {
    let tree = small_tree();
    let read = server().read(&tree, 0, &vec![77, 2, 1, 2, 3]);
    assert_eq!(ids(&read.instances), vec![2, 1, 3]);
    let read = server().read(&tree, 0, &vec![77]);
    assert!(read.instances.is_empty());
}

#[test]
fn subscribe_answers_or_waits() {
    let mut queue: MessageQueue<AppliedPatchSet> = MessageQueue::new();
    assert_eq!(server().subscribe(&queue, 0), None);
    queue.push(applied(vec![4]));
    let answer = server().subscribe(&queue, 0).unwrap();
    assert_eq!(answer.message_cursor, 1);
    assert_eq!(answer.messages, vec![&applied(vec![4])]);
    assert_eq!(server().subscribe(&queue, 1), None);
    let fresh = server().subscribe(&queue, 42).unwrap();
    assert_eq!(fresh.message_cursor, 1);
    assert!(fresh.messages.is_empty());
}

#[test]
fn requests_are_answered_by_route() {
    let tree = small_tree();
    let mut queue: MessageQueue<AppliedPatchSet> = MessageQueue::new();
    queue.push(applied(vec![4]));
    let s = server();
    assert_eq!(s.handle_request("GET", "/", &tree, &queue), Response::Text("Rojo is up and running!".to_string()));
    match s.handle_request("GET", "/api/rojo", &tree, &queue) {
        Response::Info(info) => assert_eq!(info.root_instance_id, 0),
        other => panic!("unexpected answer {:?}", other),
    }
    match s.handle_request("GET", "/api/read/3", &tree, &queue) {
        Response::Read(read) => {
            assert_eq!(read.message_cursor, 1);
            assert_eq!(ids(&read.instances), vec![3]);
        }
        other => panic!("unexpected answer {:?}", other),
    }
    assert_eq!(s.handle_request("GET", "/api/subscribe/1", &tree, &queue), Response::Wait(1));
    match s.handle_request("GET", "/api/subscribe/0", &tree, &queue) {
        Response::Subscribe(answer) => assert_eq!(answer.message_cursor, 1),
        other => panic!("unexpected answer {:?}", other),
    }
    assert_eq!(s.handle_request("POST", "/api/write", &tree, &queue), Response::Write);
    assert_eq!(
        s.handle_request("GET", "/api/read/zz", &tree, &queue),
        Response::BadRequest("Malformed ID list".to_string())
    );
    assert_eq!(
        s.handle_request("GET", "/x", &tree, &queue),
        Response::NotFound("Route not found: /x".to_string())
    );
}
