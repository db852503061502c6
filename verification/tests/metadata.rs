use rojo::metadata::{IgnoreGlob, InstanceContext, InstanceMetadata, InstigatingSource, MetadataPerInstance};
use rojo::project::ProjectNode;

fn node_with_class(class: &str) -> ProjectNode {
    ProjectNode {
        class_name: Some(class.to_string()),
        path: None,
        children: Vec::new(),
        properties: Vec::new(),
        ignore_unknown_instances: None,
    }
}

#[test]
fn new_metadata_is_empty() {
    let m = InstanceMetadata::new();
    assert!(!m.ignore_unknown_instances);
    assert_eq!(m.instigating_source, None);
    assert!(m.relevant_paths.is_empty());
    assert_eq!(m.context, InstanceContext::default());
    assert_eq!(InstanceMetadata::default(), m);
}

#[test]
fn builders_set_one_field_each() {
    let context = InstanceContext { path_ignore_glob: vec![IgnoreGlob { pattern: "*.tmp".to_string() }] };
    let m = InstanceMetadata::new()
        .ignore_unknown_instances(true)
        .instigating_source(InstigatingSource::from_path("/a/b.lua".to_string()))
        .relevant_paths(vec!["/a/b.lua".to_string(), "/a/b.meta.json".to_string()])
        .context(&context);
    assert!(m.ignore_unknown_instances);
    assert_eq!(m.instigating_source, Some(InstigatingSource::Path("/a/b.lua".to_string())));
    assert_eq!(m.relevant_paths, vec!["/a/b.lua".to_string(), "/a/b.meta.json".to_string()]);
    assert_eq!(m.context, context);
    assert!(m.is_consistent());
}

#[test]
fn builder_keeps_the_other_fields() {
    let m = InstanceMetadata::new().ignore_unknown_instances(true).relevant_paths(vec!["/x".to_string()]);
    let n = m.clone().ignore_unknown_instances(false);
    assert!(!n.ignore_unknown_instances);
    assert_eq!(n.relevant_paths, vec!["/x".to_string()]);
    assert!(m.same(&m.clone()));
    assert!(!m.same(&n));
}

#[test]
fn path_source_outside_relevant_paths_is_inconsistent() {
    let m = InstanceMetadata::new().instigating_source(InstigatingSource::Path("/a".to_string()));
    assert!(!m.is_consistent());
    let m = m.relevant_paths(vec!["/b".to_string(), "/a".to_string()]);
    assert!(m.is_consistent());
}

#[test]
fn project_node_source_is_always_consistent() {
    let m = InstanceMetadata::new()
        .instigating_source(InstigatingSource::ProjectNode("n".to_string(), node_with_class("Folder")));
    assert!(m.is_consistent());
}

#[test]
fn sources_compare_by_content() {
    let a = InstigatingSource::ProjectNode("n".to_string(), node_with_class("Folder"));
    let b = InstigatingSource::ProjectNode("n".to_string(), node_with_class("Folder"));
    let c = InstigatingSource::ProjectNode("n".to_string(), node_with_class("Model"));
    assert!(a.same(&b));
    assert!(!a.same(&c));
    assert!(!a.same(&InstigatingSource::Path("n".to_string())));
    assert_eq!(a.clone(), a);
}

#[test]
fn earlier_metadata_with_path_becomes_path_source() {
    let old = MetadataPerInstance {
        ignore_unknown_instances: true,
        source_path: Some("/a/b.lua".to_string()),
        project_definition: None,
    };
    let m = old.into_metadata(&InstanceContext::default());
    assert!(m.ignore_unknown_instances);
    assert_eq!(m.instigating_source, Some(InstigatingSource::Path("/a/b.lua".to_string())));
    assert_eq!(m.relevant_paths, vec!["/a/b.lua".to_string()]);
    assert!(m.is_consistent());
}

#[test]
fn earlier_metadata_with_project_definition_prefers_it() {
    let old = MetadataPerInstance {
        ignore_unknown_instances: false,
        source_path: Some("/a".to_string()),
        project_definition: Some(("root".to_string(), node_with_class("Folder"))),
    };
    let m = old.into_metadata(&InstanceContext::default());
    assert_eq!(
        m.instigating_source,
        Some(InstigatingSource::ProjectNode("root".to_string(), node_with_class("Folder")))
    );
    assert_eq!(m.relevant_paths, vec!["/a".to_string()]);
}

#[test]
fn earlier_metadata_without_anything_has_no_source() {
    let old = MetadataPerInstance { ignore_unknown_instances: false, source_path: None, project_definition: None };
    let m = old.into_metadata(&InstanceContext::default());
    assert_eq!(m.instigating_source, None);
    assert!(m.relevant_paths.is_empty());
}

#[test]
fn project_nodes_compare_and_copy_deeply() {
    let mut a = node_with_class("Folder");
    a.children.push(("kid".to_string(), node_with_class("Part")));
    let b = a.clone();
    assert!(a.same(&b));
    let mut c = a.clone();
    c.children[0].1.class_name = Some("Model".to_string());
    assert!(!a.same(&c));
}
