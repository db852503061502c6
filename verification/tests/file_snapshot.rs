use rojo::imfs::{Decoded, Imfs, ImfsFile, ImfsSnapshot};
use rojo::json_model::{JsonModel, JsonModelCore, JsonModelInstance};
use rojo::metadata::{InstanceContext, InstanceMetadata, InstigatingSource};
use rojo::snapshot::InstanceSnapshot;
use rojo::snapshot_error::SnapshotError;
use rojo::snapshot_middleware::{snapshot_imfs_path, snapshot_json_model, SnapshotLua, SnapshotRbxmx};
use rojo::value::Value;

fn decoded_file(contents: &str, decoded: Decoded) -> ImfsFile {
    ImfsFile { contents: contents.as_bytes().to_vec(), decoded }
}

fn plain(name: &str, class: &str) -> InstanceSnapshot {
    InstanceSnapshot {
        snapshot_id: None,
        metadata: InstanceMetadata::new(),
        name: name.to_string(),
        class_name: class.to_string(),
        properties: Vec::new(),
        children: Vec::new(),
    }
}

#[test]
fn lua_module_from_imfs() {
    let mut imfs = Imfs::new();
    let file = ImfsSnapshot::file("Hello there!");

    imfs.load_from_snapshot("/foo.lua", file);

    let instance_snapshot =
        SnapshotLua::from_imfs(&InstanceContext::default(), &imfs, "/foo.lua").unwrap().unwrap();

    assert_eq!(instance_snapshot.name, "foo");
    assert_eq!(instance_snapshot.class_name, "ModuleScript");
    assert_eq!(
        instance_snapshot.properties,
        vec![("Source".to_owned(), Value::String("Hello there!".to_owned()))]
    );
}

#[test]
fn lua_server_from_imfs() {
    let mut imfs = Imfs::new();
    let file = ImfsSnapshot::file("Hello there!");

    imfs.load_from_snapshot("/foo.server.lua", file);

    let instance_snapshot =
        SnapshotLua::from_imfs(&InstanceContext::default(), &imfs, "/foo.server.lua").unwrap().unwrap();

    assert_eq!(instance_snapshot.name, "foo");
    assert_eq!(instance_snapshot.class_name, "Script");
    assert_eq!(
        instance_snapshot.properties,
        vec![("Source".to_owned(), Value::String("Hello there!".to_owned()))]
    );
}

#[test]
fn lua_client_from_imfs() {
    let mut imfs = Imfs::new();
    let file = ImfsSnapshot::file("Hello there!");

    imfs.load_from_snapshot("/foo.client.lua", file);

    let instance_snapshot =
        SnapshotLua::from_imfs(&InstanceContext::default(), &imfs, "/foo.client.lua").unwrap().unwrap();

    assert_eq!(instance_snapshot.name, "foo");
    assert_eq!(instance_snapshot.class_name, "LocalScript");
    assert_eq!(
        instance_snapshot.properties,
        vec![("Source".to_owned(), Value::String("Hello there!".to_owned()))]
    );
}

#[test]
fn json_model_model_from_vfs() {
    let model = JsonModel {
        name: Some("children".to_string()),
        core: JsonModelCore {
            class_name: "IntValue".to_string(),
            properties: vec![("Value".to_string(), Value::Int(5))],
            children: vec![JsonModelInstance {
                name: "The Child".to_string(),
                core: JsonModelCore {
                    class_name: "StringValue".to_string(),
                    properties: Vec::new(),
                    children: Vec::new(),
                },
            }],
        },
    };
    let mut imfs = Imfs::new();
    imfs.load_file("/foo.model.json", decoded_file("{}", Decoded::JsonModel(model)));

    let instance_snapshot =
        snapshot_json_model(&InstanceContext::default(), &imfs, "/foo.model.json", "foo").unwrap().unwrap();

    let expected = InstanceSnapshot {
        snapshot_id: None,
        metadata: InstanceMetadata::new()
            .instigating_source(InstigatingSource::Path("/foo.model.json".to_string()))
            .relevant_paths(vec!["/foo.model.json".to_string(), "/foo.meta.json".to_string()])
            .context(&InstanceContext::default()),
        name: "foo".to_string(),
        class_name: "IntValue".to_string(),
        properties: vec![("Value".to_string(), Value::Int(5))],
        children: vec![plain("The Child", "StringValue")],
    };
    assert_eq!(instance_snapshot, expected);
}

#[test]
fn rbxmx_model_from_vfs() {
    let mut imfs = Imfs::new();
    let decoded = Decoded::Model(vec![plain("THIS NAME IS IGNORED", "Folder")]);
    imfs.load_file("/foo.rbxmx", decoded_file("<roblox version=\"4\"></roblox>", decoded));

    let instance_snapshot =
        SnapshotRbxmx::from_imfs(&InstanceContext::default(), &imfs, "/foo.rbxmx").unwrap().unwrap();

    assert_eq!(instance_snapshot.name, "foo");
    assert_eq!(instance_snapshot.class_name, "Folder");
    assert_eq!(instance_snapshot.properties, Vec::new());
    assert_eq!(instance_snapshot.children, Vec::new());
}

#[test]
fn lua_metadata_names_the_file_and_its_meta_file() {
    let mut imfs = Imfs::new();
    imfs.load_from_snapshot("/dir/foo.server.lua", ImfsSnapshot::file("x"));
    let s = snapshot_imfs_path(&InstanceContext::default(), &imfs, "/dir/foo.server.lua", None)
        .unwrap()
        .unwrap();
    assert_eq!(s.metadata.instigating_source, Some(InstigatingSource::Path("/dir/foo.server.lua".to_string())));
    assert_eq!(
        s.metadata.relevant_paths,
        vec!["/dir/foo.server.lua".to_string(), "/dir/foo.meta.json".to_string()]
    );
    assert!(!s.metadata.ignore_unknown_instances);
    assert!(s.is_wf());
}

#[test]
fn supplied_name_wins_over_file_name() {
    let mut imfs = Imfs::new();
    imfs.load_from_snapshot("/foo.lua", ImfsSnapshot::file("x"));
    let s = snapshot_imfs_path(&InstanceContext::default(), &imfs, "/foo.lua", Some("Given")).unwrap().unwrap();
    assert_eq!(s.name, "Given");
}

#[test]
fn script_that_is_not_utf8_is_an_error() {
    let mut imfs = Imfs::new();
    imfs.load_file("/foo.lua", ImfsFile { contents: vec![0xff, 0xfe], decoded: Decoded::Plain });
    let r = snapshot_imfs_path(&InstanceContext::default(), &imfs, "/foo.lua", None);
    assert_eq!(r, Err(SnapshotError::Utf8Error { path: "/foo.lua".to_string() }));
}

#[test]
fn script_contents_are_decoded_not_copied() {
    let mut imfs = Imfs::new();
    imfs.load_file("/foo.lua", ImfsFile { contents: vec![0xc3, 0xa9], decoded: Decoded::Plain });
    let s = snapshot_imfs_path(&InstanceContext::default(), &imfs, "/foo.lua", None).unwrap().unwrap();
    assert_eq!(s.properties, vec![("Source".to_string(), Value::String("\u{e9}".to_string()))]);
}

#[test]
fn text_file_becomes_string_value() {
    let mut imfs = Imfs::new();
    imfs.load_from_snapshot("/note.txt", ImfsSnapshot::file("hi"));
    let s = snapshot_imfs_path(&InstanceContext::default(), &imfs, "/note.txt", None).unwrap().unwrap();
    assert_eq!(s.name, "note");
    assert_eq!(s.class_name, "StringValue");
    assert_eq!(s.properties, vec![("Value".to_string(), Value::String("hi".to_string()))]);
}

#[test]
fn table_becomes_localization_table() {
    let mut imfs = Imfs::new();
    imfs.load_from_snapshot(
        "/words.csv",
        ImfsSnapshot::file("Key,Context,Example,Source,en,fr\nk,c,e,s,hello,salut\nk2,,,s2,bye,\n"),
    );
    let s = snapshot_imfs_path(&InstanceContext::default(), &imfs, "/words.csv", None).unwrap().unwrap();
    assert_eq!(s.name, "words");
    assert_eq!(s.class_name, "LocalizationTable");
    let expected = concat_json(&[
        r#"[{"key":"k","context":"c","example":"e","source":"s","values":{"en":"hello","fr":"salut"}},"#,
        r#"{"key":"k2","context":"","example":"","source":"s2","values":{"en":"bye","fr":""}}]"#,
    ]);
    assert_eq!(s.properties, vec![("Contents".to_string(), Value::String(expected))]);
}

fn concat_json(parts: &[&str]) -> String {
    parts.iter().map(|p| p.to_string()).collect()
}

#[test]
fn table_text_is_escaped_for_json() {
    let mut imfs = Imfs::new();
    imfs.load_from_snapshot(
        "/words.csv",
        ImfsSnapshot::file("Source,Key,Context,Example\n\"he said \"\"hi\"\"\",a\\b,,\n"),
    );
    let s = snapshot_imfs_path(&InstanceContext::default(), &imfs, "/words.csv", None).unwrap().unwrap();
    let expected = r#"[{"key":"a\\b","context":"","example":"","source":"he said \"hi\"","values":{}}]"#;
    assert_eq!(s.properties, vec![("Contents".to_string(), Value::String(expected.to_string()))]);
}

#[test]
fn table_with_header_alone_has_no_entries() {
    let mut imfs = Imfs::new();
    imfs.load_from_snapshot("/a.csv", ImfsSnapshot::file("Anything,At,All\n"));
    imfs.load_from_snapshot("/b.csv", ImfsSnapshot::file(""));
    let context = InstanceContext::default();
    let a = snapshot_imfs_path(&context, &imfs, "/a.csv", None).unwrap().unwrap();
    let b = snapshot_imfs_path(&context, &imfs, "/b.csv", None).unwrap().unwrap();
    assert_eq!(a.properties, vec![("Contents".to_string(), Value::String("[]".to_string()))]);
    assert_eq!(b.properties, vec![("Contents".to_string(), Value::String("[]".to_string()))]);
}

#[test]
fn malformed_table_is_an_error() {
    let mut imfs = Imfs::new();
    imfs.load_from_snapshot("/words.csv", ImfsSnapshot::file("Key,Context,Example,Source\nonly,two\n"));
    match snapshot_imfs_path(&InstanceContext::default(), &imfs, "/words.csv", None) {
        Err(SnapshotError::TableDecodeError { message, path }) => {
            assert_eq!(path, "/words.csv");
            assert!(!message.is_empty());
        }
        other => panic!("unexpected outcome {:?}", other),
    }
    let mut imfs = Imfs::new();
    imfs.load_from_snapshot("/words.csv", ImfsSnapshot::file("Key,en\nk,hello\n"));
    assert_eq!(
        snapshot_imfs_path(&InstanceContext::default(), &imfs, "/words.csv", None),
        Err(SnapshotError::TableDecodeError {
            message: "the table lacks one of the columns Key, Context, Example and Source".to_string(),
            path: "/words.csv".to_string()
        })
    );
}

#[test]
fn model_file_without_instance_gives_nothing() {
    let mut imfs = Imfs::new();
    imfs.load_file("/foo.rbxm", decoded_file("", Decoded::Model(Vec::new())));
    assert_eq!(snapshot_imfs_path(&InstanceContext::default(), &imfs, "/foo.rbxm", None), Ok(None));
}

#[test]
fn model_file_with_two_instances_is_an_error() {
    let mut imfs = Imfs::new();
    imfs.load_file("/foo.rbxm", decoded_file("", Decoded::Model(vec![plain("a", "Folder"), plain("b", "Folder")])));
    assert_eq!(
        snapshot_imfs_path(&InstanceContext::default(), &imfs, "/foo.rbxm", None),
        Err(SnapshotError::MultipleModelRoots { path: "/foo.rbxm".to_string() })
    );
}

#[test]
fn malformed_models_are_errors() {
    let mut imfs = Imfs::new();
    imfs.load_file("/a.rbxm", decoded_file("", Decoded::Malformed("bad chunk".to_string())));
    imfs.load_file("/a.rbxmx", decoded_file("", Decoded::Malformed("bad tag".to_string())));
    imfs.load_file("/a.model.json", decoded_file("", Decoded::Malformed("eof".to_string())));
    let context = InstanceContext::default();
    assert_eq!(
        snapshot_imfs_path(&context, &imfs, "/a.rbxm", None),
        Err(SnapshotError::BinaryModelDecodeError { message: "bad chunk".to_string(), path: "/a.rbxm".to_string() })
    );
    assert_eq!(
        snapshot_imfs_path(&context, &imfs, "/a.rbxmx", None),
        Err(SnapshotError::XmlModelDecodeError { message: "bad tag".to_string(), path: "/a.rbxmx".to_string() })
    );
    assert_eq!(
        snapshot_imfs_path(&context, &imfs, "/a.model.json", None),
        Err(SnapshotError::JsonModelDecodeError { message: "eof".to_string(), path: "/a.model.json".to_string() })
    );
}

#[test]
fn model_with_repeated_property_is_an_error() {
    let mut bad = plain("a", "Folder");
    bad.properties = vec![("X".to_string(), Value::Int(1)), ("X".to_string(), Value::Int(2))];
    let mut imfs = Imfs::new();
    imfs.load_file("/a.rbxmx", decoded_file("", Decoded::Model(vec![bad])));
    assert_eq!(
        snapshot_imfs_path(&InstanceContext::default(), &imfs, "/a.rbxmx", None),
        Err(SnapshotError::XmlModelDecodeError {
            message: "a property name occurs twice".to_string(),
            path: "/a.rbxmx".to_string()
        })
    );
}

#[test]
fn unknown_files_give_nothing() {
    let mut imfs = Imfs::new();
    imfs.load_from_snapshot("/a.png", ImfsSnapshot::file("x"));
    imfs.load_from_snapshot("/b.json", ImfsSnapshot::file("{}"));
    imfs.load_from_snapshot("/init.lua", ImfsSnapshot::file("x"));
    let context = InstanceContext::default();
    assert_eq!(snapshot_imfs_path(&context, &imfs, "/a.png", None), Ok(None));
    assert_eq!(snapshot_imfs_path(&context, &imfs, "/b.json", None), Ok(None));
    assert_eq!(snapshot_imfs_path(&context, &imfs, "/init.lua", None), Ok(None));
}

#[test]
fn missing_path_is_an_error() {
    let imfs = Imfs::new();
    assert_eq!(
        snapshot_imfs_path(&InstanceContext::default(), &imfs, "/nope", None),
        Err(SnapshotError::DidNotExist("/nope".to_string()))
    );
    assert_eq!(
        SnapshotLua::from_imfs(&InstanceContext::default(), &imfs, "/nope"),
        Err(SnapshotError::DidNotExist("/nope".to_string()))
    );
}

#[test]
fn script_middleware_passes_on_other_entries() {
    let mut imfs = Imfs::new();
    imfs.load_from_snapshot("/a.txt", ImfsSnapshot::file("x"));
    imfs.load_from_snapshot("/init.lua", ImfsSnapshot::file("x"));
    imfs.load_from_snapshot("/plain", ImfsSnapshot::dir(Vec::new()));
    let context = InstanceContext::default();
    assert_eq!(SnapshotLua::from_imfs(&context, &imfs, "/a.txt"), Ok(None));
    assert_eq!(SnapshotLua::from_imfs(&context, &imfs, "/init.lua"), Ok(None));
    assert_eq!(SnapshotLua::from_imfs(&context, &imfs, "/plain"), Ok(None));
    assert_eq!(SnapshotRbxmx::from_imfs(&context, &imfs, "/plain"), Ok(None));
    assert_eq!(SnapshotRbxmx::from_imfs(&context, &imfs, "/a.txt"), Ok(None));
}
