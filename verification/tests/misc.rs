use rojo::init::{created_message, InitError, InitOptions, ProjectKind};
use rojo::localization::{encode_entry, encode_table, entries_from_rows, find_column, make_entry, read_table, LocalizationEntryCsv, LocalizationEntryJson};
use rojo::project::{Project, ProjectNode, DEFAULT_PORT};
use rojo::snapshot_error::SnapshotError;
use rojo::value::{copy_props, find_prop, props_identical, Value};

#[test]
fn init_defaults_to_place() {
    let options = InitOptions { fuzzy_project_path: "/p".to_string(), kind: None };
    assert_eq!(options.project_kind(), Ok(ProjectKind::Place));
}

#[test]
fn init_accepts_place_and_model() {
    let place = InitOptions { fuzzy_project_path: "/p".to_string(), kind: Some("place".to_string()) };
    let model = InitOptions { fuzzy_project_path: "/p".to_string(), kind: Some("model".to_string()) };
    assert_eq!(place.project_kind(), Ok(ProjectKind::Place));
    assert_eq!(model.project_kind(), Ok(ProjectKind::Model));
}

#[test]
fn init_refuses_other_kinds() {
    let options = InitOptions { fuzzy_project_path: "/p".to_string(), kind: Some("plugin".to_string()) };
    let error = options.project_kind().unwrap_err();
    assert_eq!(error, InitError::InvalidKind("plugin".to_string()));
    assert_eq!(error.message(), "Invalid project kind 'plugin', valid kinds are 'place' and 'model'");
}

#[test]
fn init_messages() {
    assert_eq!(InitError::ProjectError("disk full".to_string()).message(), "Project init error: disk full");
    assert_eq!(
        created_message(ProjectKind::Model, "/p/default.project.json"),
        "Created new model project file at /p/default.project.json"
    );
    assert_eq!(ProjectKind::Place.name(), "place");
}

#[test]
fn localization_row_keeps_its_fields() {
    let row = LocalizationEntryCsv {
        key: "k".to_string(),
        context: "c".to_string(),
        example: "e".to_string(),
        source: "s".to_string(),
        values: vec![("en".to_string(), "hello".to_string())],
    };
    let json: LocalizationEntryJson = row.to_json();
    assert_eq!(json.key, "k");
    assert_eq!(json.context, "c");
    assert_eq!(json.example, "e");
    assert_eq!(json.source, "s");
    assert_eq!(json.values, vec![("en".to_string(), "hello".to_string())]);
}

#[test]
fn project_port_defaults() {
    let mut project = Project {
        name: "t".to_string(),
        serve_port: None,
        serve_place_ids: None,
        glob_ignore_paths: Vec::new(),
        tree: ProjectNode {
            class_name: Some("Folder".to_string()),
            path: None,
            children: Vec::new(),
            properties: Vec::new(),
            ignore_unknown_instances: None,
        },
        file_location: "/p/default.project.json".to_string(),
    };
    assert_eq!(project.port(), 34872);
    assert_eq!(DEFAULT_PORT, 34872);
    project.serve_port = Some(8000);
    assert_eq!(project.port(), 8000);
}

#[test]
fn snapshot_error_messages() {
    assert_eq!(SnapshotError::DidNotExist("/a".to_string()).message(), "Path did not exist: /a");
    assert_eq!(SnapshotError::Utf8Error { path: "/a.lua".to_string() }.message(), "Invalid UTF-8 in path /a.lua");
    assert_eq!(
        SnapshotError::JsonModelDecodeError { message: "eof".to_string(), path: "/a.model.json".to_string() }
            .message(),
        "Malformed .model.json model: eof in path /a.model.json"
    );
    assert_eq!(
        SnapshotError::XmlModelDecodeError { message: "bad".to_string(), path: "/a.rbxmx".to_string() }.message(),
        "Malformed rbxmx model: bad in path /a.rbxmx"
    );
    assert_eq!(
        SnapshotError::BinaryModelDecodeError { message: "bad".to_string(), path: "/a.rbxm".to_string() }
            .message(),
        "Malformed rbxm model: bad in path /a.rbxm"
    );
    assert_eq!(
        SnapshotError::TableDecodeError { message: "bad".to_string(), path: "/a.csv".to_string() }.message(),
        "Malformed localization table: bad in path /a.csv"
    );
    assert_eq!(
        SnapshotError::MetaDecodeError { message: "bad".to_string(), path: "/a.meta.json".to_string() }.message(),
        "Malformed meta file: bad in path /a.meta.json"
    );
    assert_eq!(
        SnapshotError::ProjectDecodeError { message: "bad".to_string(), path: "/a.project.json".to_string() }
            .message(),
        "Malformed project file: bad in path /a.project.json"
    );
    assert_eq!(
        SnapshotError::MultipleModelRoots { path: "/a.rbxm".to_string() }.message(),
        "Model files with more than one top-level instance are not supported: /a.rbxm"
    );
    assert_eq!(
        SnapshotError::ProjectNestingTooDeep { path: "/a".to_string() }.message(),
        "Project files are nested too deeply at /a"
    );
    assert_eq!(
        SnapshotError::ProjectNodeUnusable.message(),
        "Rojo project nodes must specify either $path or $className."
    );
    assert_eq!(
        SnapshotError::ProjectNodeInvalidTransmute { partition_path: "/p/src".to_string() }.message(),
        "Rojo project nodes that specify both $path and $className require that the\ninstance produced by the files pointed to by $path has a ClassName of\nFolder.\n\nPartition target ($path): /p/src\n"
    );
}

#[test]
fn values_compare_by_content() {
    assert!(Value::String("a".to_string()).same(&Value::String("a".to_string())));
    assert!(!Value::String("a".to_string()).same(&Value::String("b".to_string())));
    assert!(!Value::Int(1).same(&Value::Bool(true)));
    assert!(Value::Binary(vec![1, 2]).same(&Value::Binary(vec![1, 2])));
    assert!(!Value::Binary(vec![1, 2]).same(&Value::Binary(vec![1])));
    assert_eq!(Value::Int(-3).clone(), Value::Int(-3));
}

#[test]
fn property_lists_copy_and_search() {
    let props = vec![("A".to_string(), Value::Int(1)), ("B".to_string(), Value::Bool(false))];
    assert_eq!(copy_props(&props), props);
    assert_eq!(find_prop(&props, "B"), Some(1));
    assert_eq!(find_prop(&props, "C"), None);
    assert!(props_identical(&props, &copy_props(&props)));
    let other = vec![("B".to_string(), Value::Bool(false)), ("A".to_string(), Value::Int(1))];
    assert!(!props_identical(&props, &other));
}

fn strings(cells: &[&str]) -> Vec<String> {
    cells.iter().map(|c| c.to_string()).collect()
}

#[test]
fn rows_become_entries_by_column_name() {
    let header = strings(&["en", "Source", "Key", "Example", "fr", "Context"]);
    let row = strings(&["hello", "s", "k", "e", "salut", "c"]);
    assert_eq!(find_column(&header, "Key"), Some(2));
    assert_eq!(find_column(&header, "Nope"), None);
    let entry = make_entry(&header, &row);
    assert_eq!(
        entry,
        LocalizationEntryCsv {
            key: "k".to_string(),
            context: "c".to_string(),
            example: "e".to_string(),
            source: "s".to_string(),
            values: vec![("en".to_string(), "hello".to_string()), ("fr".to_string(), "salut".to_string())],
        }
    );
    let rows = vec![header.clone(), row.clone(), row];
    assert_eq!(entries_from_rows(&rows).unwrap().len(), 2);
    assert_eq!(entries_from_rows(&vec![header]), Some(Vec::new()));
    assert_eq!(entries_from_rows(&Vec::new()), Some(Vec::new()));
    assert_eq!(entries_from_rows(&vec![strings(&["Key"]), strings(&["k"])]), None);
}

#[test]
fn first_column_of_a_name_is_taken() {
    let header = strings(&["Key", "Context", "Example", "Source", "Key"]);
    let row = strings(&["first", "", "", "", "second"]);
    assert_eq!(make_entry(&header, &row).key, "first");
    assert!(make_entry(&header, &row).values.is_empty());
}

#[test]
fn entries_are_written_as_json() {
    let entry = LocalizationEntryJson {
        key: "k".to_string(),
        context: "line\nbreak".to_string(),
        example: "".to_string(),
        source: "\"q\"".to_string(),
        values: vec![("en".to_string(), "a".to_string())],
    };
    let one = r#"{"key":"k","context":"line\nbreak","example":"","source":"\"q\"","values":{"en":"a"}}"#;
    assert_eq!(encode_entry(&entry), one);
    assert_eq!(encode_table(&Vec::new()), "[]");
    let two = LocalizationEntryJson {
        key: "z".to_string(),
        context: "".to_string(),
        example: "".to_string(),
        source: "".to_string(),
        values: Vec::new(),
    };
    let both = format!("[{},{}]", one, r#"{"key":"z","context":"","example":"","source":"","values":{}}"#);
    assert_eq!(encode_table(&vec![entry, two]), both);
}

#[test]
fn table_is_read_from_bytes() {
    let bytes = b"Key,Context,Example,Source\nk,c,e,s\n".to_vec();
    assert_eq!(
        read_table(&bytes),
        Ok(r#"[{"key":"k","context":"c","example":"e","source":"s","values":{}}]"#.to_string())
    );
    assert!(read_table(&b"a,b\nc\n".to_vec()).is_err());
}
