//! The snapshot pipeline: what a path of the in-memory filesystem becomes.
//!
//! A project file becomes the tree that it describes. A file becomes what
//! the end of its name says. A directory becomes a folder that holds what
//! its entries become, or a script where it holds an `init` script. A meta
//! file beside an entry, or `init.meta.json` in a directory, is applied
//! over what the entry becomes.

use vstd::prelude::*;
use crate::file_snapshot::{classify_lua, csv_snapshot, decode_text, json_model_snapshot, leaf, lua_class, lua_snapshot, make_leaf, make_one_property, make_source_metadata, meta_path, meta_path_of, model_snapshot, name_or, name_view, not_decoded, one_property, outcome_of, outcome_wf, pick_name, snapshot_binary_model_file, snapshot_csv_file, snapshot_json_model_file, snapshot_lua_file, snapshot_txt_file, snapshot_xml_model_file, source_metadata, text_of, txt_snapshot, Outcome};
use crate::imfs::{Decoded, Imfs, ImfsFile, ImfsItem};
use crate::meta_file::{lemma_overlaid_pairs, overlaid, overlaid_pairs, overlay_props, with_meta, MetaFile};
use crate::metadata::{InstanceContext, InstanceMetadata, InstanceMetadataView, InstigatingSource, InstigatingSourceView};
use crate::path::{ends_with, file_name, file_name_of, has_suffix, join, join_of, lemma_parent_shorter, match_trailing, parent, parent_of, str_eq, strip_suffix_of, texts};
use crate::project::{Project, ProjectNode, ProjectNodeView};
use crate::snapshot::{snapshot_views, snapshot_wf, InstanceSnapshot, SnapshotView};
use crate::snapshot_error::{ErrorView, SnapshotError};
use crate::value::{prop_map, prop_names, props_wf, Value, ValueView};

verus! {

/// The in-memory filesystem as the pipeline reads it: the entries, the
/// listing of each, and a bound on the length of the entries' paths.
pub struct FsView {
    pub items: Map<Seq<char>, ImfsItem>,
    pub listing: Map<Seq<char>, Seq<Seq<char>>>,
    pub longest: int,
}

/// How many project files deep the pipeline follows.
pub const MAX_PROJECT_NESTING: usize = 16;

/// Whether `name` is the name of a script that stands for its directory.
pub open spec fn is_init_name(name: Seq<char>) -> bool {
    name == "init.lua"@ || name == "init.server.lua"@ || name == "init.client.lua"@
}

/// The file at `path`, if a file has been loaded there.
pub open spec fn file_at(fs: FsView, path: Seq<char>) -> Option<ImfsFile> {
    if fs.items.contains_key(path) {
        match fs.items[path] {
            ImfsItem::File(f) => Some(f),
            ImfsItem::Directory => None,
        }
    } else {
        None
    }
}

/// The name of the instance that the file named `file_name` gives, as far
/// as the end of the file's name decides it.
pub open spec fn instance_stem(file_name: Seq<char>) -> Option<Seq<char>> {
    if is_init_name(file_name) {
        None
    } else if has_suffix(file_name, ".lua"@) {
        match lua_class(file_name) {
            Some((_, stem)) => Some(stem),
            None => None,
        }
    } else if has_suffix(file_name, ".csv"@) {
        strip_suffix_of(file_name, ".csv"@)
    } else if has_suffix(file_name, ".txt"@) {
        strip_suffix_of(file_name, ".txt"@)
    } else if has_suffix(file_name, ".model.json"@) {
        strip_suffix_of(file_name, ".model.json"@)
    } else if has_suffix(file_name, ".rbxmx"@) {
        strip_suffix_of(file_name, ".rbxmx"@)
    } else if has_suffix(file_name, ".rbxm"@) {
        strip_suffix_of(file_name, ".rbxm"@)
    } else {
        None
    }
}

/// What the file at `path` becomes by itself, by the end of its name.
pub open spec fn plain_file_snapshot(
    path: Seq<char>,
    file: ImfsFile,
    name: Option<Seq<char>>,
    context: Seq<Seq<char>>,
) -> Outcome {
    let file_name = file_name_of(path);
    if is_init_name(file_name) {
        Ok(None)
    } else if has_suffix(file_name, ".lua"@) {
        lua_snapshot(path, file.contents@, name, context)
    } else if has_suffix(file_name, ".csv"@) {
        csv_snapshot(path, file.contents@, name, context)
    } else if has_suffix(file_name, ".txt"@) {
        txt_snapshot(path, file.contents@, name, context)
    } else if has_suffix(file_name, ".model.json"@) {
        json_model_snapshot(path, file.decoded, name, context)
    } else if has_suffix(file_name, ".rbxmx"@) {
        model_snapshot(false, path, file.decoded, name, context)
    } else if has_suffix(file_name, ".rbxm"@) {
        model_snapshot(true, path, file.decoded, name, context)
    } else {
        Ok(None)
    }
}

/// The meta file at `path`, if a file has been loaded there.
pub open spec fn meta_at(fs: FsView, path: Seq<char>) -> Result<Option<MetaFile>, ErrorView> {
    match file_at(fs, path) {
        None => Ok(None),
        Some(f) => match f.decoded {
            Decoded::Meta(m) => Ok(Some(m)),
            Decoded::Malformed(message) => Err(
                ErrorView::MetaDecodeError { message: message@, path },
            ),
            _ => Err(ErrorView::MetaDecodeError { message: not_decoded(), path }),
        },
    }
}

/// `base` with the meta file at `path` applied, where there is one and
/// `base` is a snapshot.
pub open spec fn overlay_meta(fs: FsView, path: Seq<char>, base: Outcome) -> Outcome {
    match base {
        Ok(Some(s)) => match meta_at(fs, path) {
            Ok(Some(m)) => Ok(Some(with_meta(s, m))),
            Ok(None) => base,
            Err(e) => Err(e),
        },
        _ => base,
    }
}

/// What the file at `path` becomes, with the meta file beside it applied.
pub open spec fn file_snapshot(
    fs: FsView,
    path: Seq<char>,
    file: ImfsFile,
    name: Option<Seq<char>>,
    context: Seq<Seq<char>>,
) -> Outcome {
    match instance_stem(file_name_of(path)) {
        Some(stem) => overlay_meta(
            fs,
            meta_path_of(path, stem),
            plain_file_snapshot(path, file, name, context),
        ),
        None => plain_file_snapshot(path, file, name, context),
    }
}

/// The metadata of the instance that the directory at `path` becomes.
pub open spec fn dir_metadata(path: Seq<char>, context: Seq<Seq<char>>) -> InstanceMetadataView {
    source_metadata(
        path,
        seq![
            join_of(path, "init.meta.json"@),
            join_of(path, "init.lua"@),
            join_of(path, "init.server.lua"@),
            join_of(path, "init.client.lua"@),
            join_of(path, "default.project.json"@),
        ],
        context,
    )
}

/// The script that the file at `init_path` makes of the directory at
/// `path`.
pub open spec fn init_script(
    path: Seq<char>,
    init_path: Seq<char>,
    file: ImfsFile,
    class: Seq<char>,
    name: Seq<char>,
    context: Seq<Seq<char>>,
) -> Result<SnapshotView, ErrorView> {
    match text_of(file.contents@) {
        None => Err(ErrorView::Utf8Error { path: init_path }),
        Some(text) => Ok(
            leaf(
                name,
                class,
                one_property("Source"@, ValueView::String(text)),
                dir_metadata(path, context),
            ),
        ),
    }
}

/// What the directory at `path` becomes before its entries and its meta
/// file are seen: the script of `init.lua`, else of `init.server.lua`,
/// else of `init.client.lua`, else a folder.
pub open spec fn dir_base(
    fs: FsView,
    path: Seq<char>,
    name: Seq<char>,
    context: Seq<Seq<char>>,
) -> Result<SnapshotView, ErrorView> {
    let module = join_of(path, "init.lua"@);
    let server = join_of(path, "init.server.lua"@);
    let client = join_of(path, "init.client.lua"@);
    if file_at(fs, module).is_some() {
        init_script(path, module, file_at(fs, module)->0, "ModuleScript"@, name, context)
    } else if file_at(fs, server).is_some() {
        init_script(path, server, file_at(fs, server)->0, "Script"@, name, context)
    } else if file_at(fs, client).is_some() {
        init_script(path, client, file_at(fs, client)->0, "LocalScript"@, name, context)
    } else {
        Ok(leaf(name, "Folder"@, Map::empty(), dir_metadata(path, context)))
    }
}

/// Whether the entry at `child` is left out of its directory's children:
/// `init` scripts, meta files and the directory's own project file are.
pub open spec fn is_reserved(child: Seq<char>) -> bool {
    let name = file_name_of(child);
    is_init_name(name) || has_suffix(name, ".meta.json"@) || name == "default.project.json"@
}

/// The project in the file at `path`.
pub open spec fn project_in(file: ImfsFile, path: Seq<char>) -> Result<Project, ErrorView> {
    match file.decoded {
        Decoded::Project(p) => Ok(p),
        Decoded::Malformed(message) => Err(
            ErrorView::ProjectDecodeError { message: message@, path },
        ),
        _ => Err(ErrorView::ProjectDecodeError { message: not_decoded(), path }),
    }
}

/// The directory that the paths of the project file at `path` start from.
pub open spec fn folder_of(path: Seq<char>) -> Seq<char> {
    match parent_of(path) {
        Some(q) => q,
        None => Seq::empty(),
    }
}

/// The path that a project node names: as it is where it starts at the
/// root, else below the project's directory.
pub open spec fn resolved(folder: Seq<char>, path: Seq<char>) -> Seq<char> {
    if path.len() > 0 && path[0] == '/' {
        path
    } else {
        join_of(folder, path)
    }
}

/// The metadata of an instance that a project node describes without a
/// path.
pub open spec fn synthesized_metadata(context: Seq<Seq<char>>) -> InstanceMetadataView {
    InstanceMetadataView {
        ignore_unknown_instances: true,
        instigating_source: None,
        relevant_paths: Seq::empty(),
        context,
    }
}

/// What the children of the directory at `path` become, over the first
/// `upto` entries of its listing.
pub open spec fn dir_children(
    fs: FsView,
    path: Seq<char>,
    context: Seq<Seq<char>>,
    fuel: nat,
    upto: int,
) -> Result<Seq<SnapshotView>, ErrorView>
    decreases fuel, 0nat, fs.longest - path.len(), 1nat, upto,
{
    if fs.listing.contains_key(path) && 0 < upto <= fs.listing[path].len() {
        match dir_children(fs, path, context, fuel, upto - 1) {
            Err(e) => Err(e),
            Ok(before) => {
                let child = fs.listing[path][upto - 1];
                if is_reserved(child) || !fs.items.contains_key(child) || !(path.len()
                    < child.len() <= fs.longest) {
                    Ok(before)
                } else {
                    match path_snapshot(fs, child, None, context, fuel) {
                        Err(e) => Err(e),
                        Ok(None) => Ok(before),
                        Ok(Some(s)) => Ok(before.push(s)),
                    }
                }
            },
        }
    } else {
        Ok(Seq::empty())
    }
}

/// What the directory at `path` becomes.
pub open spec fn dir_snapshot(
    fs: FsView,
    path: Seq<char>,
    name: Option<Seq<char>>,
    context: Seq<Seq<char>>,
    fuel: nat,
) -> Outcome
    decreases fuel, 0nat, fs.longest - path.len(), 2nat, 0int,
{
    let project_path = join_of(path, "default.project.json"@);
    if file_at(fs, project_path).is_some() {
        match project_in(file_at(fs, project_path)->0, project_path) {
            Err(e) => Err(e),
            Ok(p) => if fuel == 0 {
                Err(ErrorView::ProjectNestingTooDeep { path: project_path })
            } else {
                node_snapshot(
                    fs,
                    p.tree@,
                    name_or(name, p.name@),
                    folder_of(project_path),
                    context,
                    (fuel - 1) as nat,
                )
            },
        }
    } else {
        match dir_base(fs, path, name_or(name, file_name_of(path)), context) {
            Err(e) => Err(e),
            Ok(base) => match dir_children(
                fs,
                path,
                context,
                fuel,
                if fs.listing.contains_key(path) {
                    fs.listing[path].len() as int
                } else {
                    0
                },
            ) {
                Err(e) => Err(e),
                Ok(children) => overlay_meta(
                    fs,
                    join_of(path, "init.meta.json"@),
                    Ok(Some(SnapshotView { children, ..base })),
                ),
            },
        }
    }
}

/// What the entry at `path` becomes: an error where nothing has been
/// loaded there.
pub open spec fn path_snapshot(
    fs: FsView,
    path: Seq<char>,
    name: Option<Seq<char>>,
    context: Seq<Seq<char>>,
    fuel: nat,
) -> Outcome
    decreases fuel, 0nat, fs.longest - path.len(), 3nat, 0int,
{
    if !fs.items.contains_key(path) {
        Err(ErrorView::DidNotExist(path))
    } else {
        match fs.items[path] {
            ImfsItem::Directory => dir_snapshot(fs, path, name, context, fuel),
            ImfsItem::File(file) => if has_suffix(file_name_of(path), ".project.json"@) {
                match project_in(file, path) {
                    Err(e) => Err(e),
                    Ok(p) => if fuel == 0 {
                        Err(ErrorView::ProjectNestingTooDeep { path })
                    } else {
                        node_snapshot(
                            fs,
                            p.tree@,
                            name_or(name, p.name@),
                            folder_of(path),
                            context,
                            (fuel - 1) as nat,
                        )
                    },
                }
            } else {
                file_snapshot(fs, path, file, name, context)
            },
        }
    }
}

/// What the children of a project node become, over its first `upto`
/// children.
pub open spec fn node_children(
    fs: FsView,
    node: ProjectNodeView,
    folder: Seq<char>,
    context: Seq<Seq<char>>,
    fuel: nat,
    upto: int,
) -> Result<Seq<SnapshotView>, ErrorView>
    decreases fuel, 1nat, 0int, 0nat, 0int, node, upto,
{
    if 0 < upto <= node.children.len() {
        match node_children(fs, node, folder, context, fuel, upto - 1) {
            Err(e) => Err(e),
            Ok(before) => match node_snapshot(
                fs,
                node.children[upto - 1].1,
                node.children[upto - 1].0,
                folder,
                context,
                fuel,
            ) {
                Err(e) => Err(e),
                Ok(None) => Ok(before),
                Ok(Some(s)) => Ok(before.push(s)),
            },
        }
    } else {
        Ok(Seq::empty())
    }
}

/// What a project node becomes before its class, children and properties
/// are seen: what its path becomes; a folder that ignores unknown
/// instances where it names a class alone; an error where it names neither.
pub open spec fn node_base(
    fs: FsView,
    node: ProjectNodeView,
    name: Seq<char>,
    folder: Seq<char>,
    context: Seq<Seq<char>>,
    fuel: nat,
) -> Outcome
    decreases fuel, 1nat, 0int, 0nat, 0int, node, 0int,
{
    match node.path {
        Some(p) => path_snapshot(fs, resolved(folder, p), Some(name), context, fuel),
        None => match node.class_name {
            Some(_) => Ok(
                Some(leaf(name, "Folder"@, Map::empty(), synthesized_metadata(context))),
            ),
            None => Err(ErrorView::ProjectNodeUnusable),
        },
    }
}

/// What a project node becomes under the name `name`.
///
/// A node with a path becomes what the path becomes; a node with a class
/// alone becomes a folder that ignores unknown instances; a node with
/// neither is an error. Where the node names a class, what its path became
/// must be a folder, and gets that class. Then the node's children are
/// added, its properties are set, and the node is recorded as the source.
pub open spec fn node_snapshot(
    fs: FsView,
    node: ProjectNodeView,
    name: Seq<char>,
    folder: Seq<char>,
    context: Seq<Seq<char>>,
    fuel: nat,
) -> Outcome
    decreases fuel, 1nat, 0int, 0nat, 0int, node, node.children.len() + 1,
{
    match node_base(fs, node, name, folder, context, fuel) {
        Err(e) => Err(e),
        Ok(None) => Ok(None),
        Ok(Some(s)) => if node.class_name.is_some() && s.class_name != "Folder"@ {
            Err(
                ErrorView::ProjectNodeInvalidTransmute {
                    partition_path: match node.path {
                        Some(p) => resolved(folder, p),
                        None => Seq::empty(),
                    },
                },
            )
        } else {
            match node_children(fs, node, folder, context, fuel, node.children.len() as int) {
                Err(e) => Err(e),
                Ok(children) => Ok(
                    Some(
                        SnapshotView {
                            class_name: match node.class_name {
                                Some(c) => c,
                                None => s.class_name,
                            },
                            children: s.children + children,
                            properties: overlaid_pairs(
                                s.properties,
                                node.properties,
                                node.properties.len() as int,
                            ),
                            metadata: InstanceMetadataView {
                                ignore_unknown_instances: match node.ignore_unknown_instances {
                                    Some(b) => b,
                                    None => s.metadata.ignore_unknown_instances,
                                },
                                instigating_source: Some(
                                    InstigatingSourceView::ProjectNode(name, node),
                                ),
                                ..s.metadata
                            },
                            ..s
                        },
                    ),
                ),
            }
        },
    }
}

/// Whether `name` is the name of a script that stands for its directory.
pub fn check_init_name(name: &str) -> (r: bool)
    ensures
        r == is_init_name(name@),
{
    str_eq(name, "init.lua") || str_eq(name, "init.server.lua") || str_eq(name, "init.client.lua")
}

/// Returns the file at `path`, if a file has been loaded there.
pub fn get_file<'a>(imfs: &'a Imfs, path: &str) -> (r: Option<&'a ImfsFile>)
    requires
        imfs.wf(),
    ensures
        match r {
            Some(f) => file_at(imfs.fs_view(), path@) == Some(*f),
            None => file_at(imfs.fs_view(), path@).is_none(),
        },
{
    match imfs.get(path) {
        Some(ImfsItem::File(f)) => Some(f),
        _ => None,
    }
}

/// Returns the name of the instance that the file named `file_name` gives,
/// as far as the end of the file's name decides it.
pub fn find_instance_stem<'a>(file_name: &'a str) -> (r: Option<&'a str>)
    ensures
        match r {
            Some(stem) => instance_stem(file_name@) == Some(stem@),
            None => instance_stem(file_name@).is_none(),
        },
{
    if check_init_name(file_name) {
        None
    } else if ends_with(file_name, ".lua") {
        match classify_lua(file_name) {
            Some((_, stem)) => Some(stem),
            None => None,
        }
    } else if ends_with(file_name, ".csv") {
        match_trailing(file_name, ".csv")
    } else if ends_with(file_name, ".txt") {
        match_trailing(file_name, ".txt")
    } else if ends_with(file_name, ".model.json") {
        match_trailing(file_name, ".model.json")
    } else if ends_with(file_name, ".rbxmx") {
        match_trailing(file_name, ".rbxmx")
    } else if ends_with(file_name, ".rbxm") {
        match_trailing(file_name, ".rbxm")
    } else {
        None
    }
}

/// Applies the meta file at `path`, where there is one, to what an entry
/// became.
pub fn apply_meta_at(
    imfs: &Imfs,
    path: &str,
    base: Result<Option<InstanceSnapshot>, SnapshotError>,
) -> (r: Result<Option<InstanceSnapshot>, SnapshotError>)
    requires
        imfs.wf(),
        outcome_wf(base),
    ensures
        outcome_of(r) == overlay_meta(imfs.fs_view(), path@, outcome_of(base)),
        outcome_wf(r),
{
    match base {
        Ok(Some(mut snapshot)) => {
            match get_file(imfs, path) {
                None => Ok(Some(snapshot)),
                Some(f) => match &f.decoded {
                    Decoded::Meta(m) => {
                        m.apply(&mut snapshot);
                        Ok(Some(snapshot))
                    },
                    Decoded::Malformed(message) => Err(
                        SnapshotError::MetaDecodeError {
                            message: message.clone(),
                            path: path.to_owned(),
                        },
                    ),
                    _ => Err(
                        SnapshotError::MetaDecodeError {
                            message: "the contents were not decoded".to_owned(),
                            path: path.to_owned(),
                        },
                    ),
                },
            }
        },
        other => other,
    }
}

/// Snapshots the file at `path` by itself, by the end of its name.
pub fn snapshot_plain_file(
    context: &InstanceContext,
    path: &str,
    file: &ImfsFile,
    name: Option<&str>,
) -> (r: Result<Option<InstanceSnapshot>, SnapshotError>)
    ensures
        outcome_of(r) == plain_file_snapshot(path@, *file, name_view(name), context@),
        outcome_wf(r),
{
    let file_name = file_name(path);
    if check_init_name(file_name) {
        Ok(None)
    } else if ends_with(file_name, ".lua") {
        snapshot_lua_file(path, file, name, context)
    } else if ends_with(file_name, ".csv") {
        snapshot_csv_file(path, file, name, context)
    } else if ends_with(file_name, ".txt") {
        snapshot_txt_file(path, file, name, context)
    } else if ends_with(file_name, ".model.json") {
        snapshot_json_model_file(path, file, name, context)
    } else if ends_with(file_name, ".rbxmx") {
        snapshot_xml_model_file(path, file, name, context)
    } else if ends_with(file_name, ".rbxm") {
        snapshot_binary_model_file(path, file, name, context)
    } else {
        Ok(None)
    }
}

/// Snapshots the file at `path`, and applies the meta file beside it.
pub fn snapshot_imfs_file(
    context: &InstanceContext,
    imfs: &Imfs,
    path: &str,
    file: &ImfsFile,
    name: Option<&str>,
) -> (r: Result<Option<InstanceSnapshot>, SnapshotError>)
    requires
        imfs.wf(),
    ensures
        outcome_of(r) == file_snapshot(imfs.fs_view(), path@, *file, name_view(name), context@),
        outcome_wf(r),
{
    let plain = snapshot_plain_file(context, path, file, name);
    match find_instance_stem(file_name(path)) {
        Some(stem) => {
            let beside = meta_path(path, stem);
            apply_meta_at(imfs, beside.as_str(), plain)
        },
        None => plain,
    }
}

/// Makes the metadata of the instance that the directory at `path` becomes.
pub fn make_dir_metadata(path: &str, context: &InstanceContext) -> (r: InstanceMetadata)
    ensures
        r@ == dir_metadata(path@, context@),
        r@.consistent(),
{
    let mut extra: Vec<String> = Vec::new();
    extra.push(join(path, "init.meta.json"));
    extra.push(join(path, "init.lua"));
    extra.push(join(path, "init.server.lua"));
    extra.push(join(path, "init.client.lua"));
    extra.push(join(path, "default.project.json"));
    proof {
        assert(texts(extra@) =~= seq![
            join_of(path@, "init.meta.json"@),
            join_of(path@, "init.lua"@),
            join_of(path@, "init.server.lua"@),
            join_of(path@, "init.client.lua"@),
            join_of(path@, "default.project.json"@),
        ]);
    }
    make_source_metadata(path, extra, context)
}

/// Makes the script that the file at `init_path` makes of the directory at
/// `path`.
fn make_init_script(
    path: &str,
    init_path: &str,
    file: &ImfsFile,
    class: &str,
    name: &str,
    context: &InstanceContext,
) -> (r: Result<InstanceSnapshot, SnapshotError>)
    ensures
        match r {
            Ok(s) => init_script(path@, init_path@, *file, class@, name@, context@) == Ok::<
                SnapshotView,
                ErrorView,
            >(s@) && snapshot_wf(s),
            Err(e) => init_script(path@, init_path@, *file, class@, name@, context@) == Err::<
                SnapshotView,
                ErrorView,
            >(e@),
        },
{
    match decode_text(&file.contents) {
        None => Err(SnapshotError::Utf8Error { path: init_path.to_owned() }),
        Some(text) => Ok(
            make_leaf(
                name.to_owned(),
                class,
                make_one_property("Source", Value::String(text)),
                make_dir_metadata(path, context),
            ),
        ),
    }
}

/// Makes what the directory at `path` becomes before its entries and its
/// meta file are seen.
pub fn make_dir_base(imfs: &Imfs, path: &str, name: &str, context: &InstanceContext) -> (r: Result<
    InstanceSnapshot,
    SnapshotError,
>)
    requires
        imfs.wf(),
    ensures
        match r {
            Ok(s) => dir_base(imfs.fs_view(), path@, name@, context@) == Ok::<
                SnapshotView,
                ErrorView,
            >(s@) && snapshot_wf(s),
            Err(e) => dir_base(imfs.fs_view(), path@, name@, context@) == Err::<
                SnapshotView,
                ErrorView,
            >(e@),
        },
{
    let module = join(path, "init.lua");
    let server = join(path, "init.server.lua");
    let client = join(path, "init.client.lua");
    match get_file(imfs, module.as_str()) {
        Some(f) => {
            return make_init_script(path, module.as_str(), f, "ModuleScript", name, context);
        },
        None => {},
    }
    match get_file(imfs, server.as_str()) {
        Some(f) => {
            return make_init_script(path, server.as_str(), f, "Script", name, context);
        },
        None => {},
    }
    match get_file(imfs, client.as_str()) {
        Some(f) => {
            return make_init_script(path, client.as_str(), f, "LocalScript", name, context);
        },
        None => {},
    }
    let properties: Vec<(String, Value)> = Vec::new();
    proof {
        assert(prop_names(properties@) =~= Seq::<Seq<char>>::empty());
        assert(prop_map(properties@) =~= Map::<Seq<char>, ValueView>::empty());
    }
    Ok(make_leaf(name.to_owned(), "Folder", properties, make_dir_metadata(path, context)))
}

/// Whether the entry at `child` is left out of its directory's children.
pub fn check_reserved(child: &str) -> (r: bool)
    ensures
        r == is_reserved(child@),
{
    let name = file_name(child);
    check_init_name(name) || ends_with(name, ".meta.json") || str_eq(name, "default.project.json")
}

/// Returns the project in the file at `path`.
pub fn get_project<'a>(file: &'a ImfsFile, path: &str) -> (r: Result<&'a Project, SnapshotError>)
    ensures
        match r {
            Ok(p) => project_in(*file, path@) == Ok::<Project, ErrorView>(*p),
            Err(e) => project_in(*file, path@) == Err::<Project, ErrorView>(e@),
        },
{
    match &file.decoded {
        Decoded::Project(p) => Ok(p),
        Decoded::Malformed(message) => Err(
            SnapshotError::ProjectDecodeError { message: message.clone(), path: path.to_owned() },
        ),
        _ => Err(
            SnapshotError::ProjectDecodeError {
                message: "the contents were not decoded".to_owned(),
                path: path.to_owned(),
            },
        ),
    }
}

/// Returns the directory that the paths of the project file at `path`
/// start from.
pub fn project_folder(path: &str) -> (r: String)
    ensures
        r@ == folder_of(path@),
{
    match parent(path) {
        Some(q) => q,
        None => String::new(),
    }
}

/// Returns the path that a project node names.
pub fn resolve(folder: &str, path: &str) -> (r: String)
    ensures
        r@ == resolved(folder@, path@),
{
    if path.unicode_len() > 0 && path.get_char(0) == '/' {
        path.to_owned()
    } else {
        join(folder, path)
    }
}

/// Puts `children` in place of the children of `snapshot`.
fn set_children(snapshot: &mut InstanceSnapshot, children: Vec<InstanceSnapshot>)
    requires
        snapshot_wf(*old(snapshot)),
        forall|i: int| 0 <= i < children@.len() ==> snapshot_wf(#[trigger] children@[i]),
    ensures
        snapshot_wf(*final(snapshot)),
        final(snapshot)@ == (SnapshotView { children: snapshot_views(children@), ..old(snapshot)@ }),
{
    snapshot.children = children;
    assert(snapshot@.children =~= snapshot_views(children@));
}

/// Adds `more` after the children of `snapshot`.
fn add_children(snapshot: &mut InstanceSnapshot, more: Vec<InstanceSnapshot>)
    requires
        snapshot_wf(*old(snapshot)),
        forall|i: int| 0 <= i < more@.len() ==> snapshot_wf(#[trigger] more@[i]),
    ensures
        snapshot_wf(*final(snapshot)),
        final(snapshot)@ == (SnapshotView {
            children: old(snapshot)@.children + snapshot_views(more@),
            ..old(snapshot)@
        }),
{
    let mut more = more;
    let ghost before = snapshot.children@;
    let ghost added = more@;
    snapshot.children.append(&mut more);
    proof {
        assert(snapshot.children@ =~= before + added);
        assert(old(snapshot)@.children =~= snapshot_views(before));
        assert(snapshot@.children =~= snapshot_views(before) + snapshot_views(added));
        assert forall|i: int| 0 <= i < snapshot.children@.len() implies snapshot_wf(
            #[trigger] snapshot.children@[i],
        ) by {
            if i < before.len() {
                assert(snapshot.children@[i] == before[i]);
            } else {
                assert(snapshot.children@[i] == added[i - before.len()]);
            }
        }
    }
}

/// Snapshots the directory at `path`, which has been loaded.
pub fn snapshot_imfs_directory(
    context: &InstanceContext,
    imfs: &Imfs,
    path: &str,
    name: Option<&str>,
    fuel: usize,
) -> (r: Result<Option<InstanceSnapshot>, SnapshotError>)
    requires
        imfs.wf(),
        imfs.items().contains_key(path@),
    ensures
        outcome_of(r) == dir_snapshot(
            imfs.fs_view(),
            path@,
            name_view(name),
            context@,
            fuel as nat,
        ),
        outcome_wf(r),
    decreases fuel, 0nat, imfs.longest() - path@.len(), 2nat, 0int,
{
    let ghost fs = imfs.fs_view();
    let project_path = join(path, "default.project.json");
    match get_file(imfs, project_path.as_str()) {
        Some(f) => {
            let project = match get_project(f, project_path.as_str()) {
                Ok(p) => p,
                Err(e) => {
                    return Err(e);
                },
            };
            if fuel == 0 {
                return Err(SnapshotError::ProjectNestingTooDeep { path: project_path });
            }
            let node_name = pick_name(name, project.name.as_str());
            let folder = project_folder(project_path.as_str());
            return snapshot_node(
                context,
                imfs,
                &project.tree,
                node_name.as_str(),
                folder.as_str(),
                fuel - 1,
            );
        },
        None => {},
    }
    let dir_name = pick_name(name, file_name(path));
    let mut snapshot = match make_dir_base(imfs, path, dir_name.as_str(), context) {
        Ok(s) => s,
        Err(e) => {
            return Err(e);
        },
    };
    let listing = match imfs.children(path) {
        Some(listing) => listing,
        None => Vec::new(),
    };
    proof {
        imfs.lemma_listing(path@);
        imfs.lemma_longest(path@);
        assert(fs.listing.contains_key(path@));
    }
    let mut children: Vec<InstanceSnapshot> = Vec::new();
    let mut k: usize = 0;
    assert(snapshot_views(children@) =~= Seq::<SnapshotView>::empty());
    while k < listing.len()
        invariant
            0 <= k <= listing.len(),
            imfs.wf(),
            fs == imfs.fs_view(),
            file_at(fs, join_of(path@, "default.project.json"@)).is_none(),
            dir_base(fs, path@, name_or(name_view(name), file_name_of(path@)), context@) == Ok::<
                SnapshotView,
                ErrorView,
            >(snapshot@),
            fs.listing.contains_key(path@),
            imfs.items().contains_key(path@),
            texts(listing@) == fs.listing[path@],
            dir_children(fs, path@, context@, fuel as nat, k as int) == Ok::<
                Seq<SnapshotView>,
                ErrorView,
            >(snapshot_views(children@)),
            forall|i: int| 0 <= i < children@.len() ==> snapshot_wf(#[trigger] children@[i]),
        decreases listing.len() - k,
    {
        let child = listing[k].as_str();
        let ghost before = snapshot_views(children@);
        proof {
            assert(fs.listing[path@][k as int] == child@);
            imfs.lemma_listing(path@);
            assert(parent_of(child@) == Some(path@));
            lemma_parent_shorter(child@);
        }
        if !check_reserved(child) && imfs.contains(child) {
            proof {
                imfs.lemma_longest(child@);
            }
            match snapshot_path(context, imfs, child, None, fuel) {
                Err(e) => {
                    proof {
                        assert(dir_children(fs, path@, context@, fuel as nat, k + 1) == Err::<
                            Seq<SnapshotView>,
                            ErrorView,
                        >(e@));
                        lemma_children_error_stays(
                            fs,
                            path@,
                            context@,
                            fuel as nat,
                            k + 1,
                            listing.len() as int,
                        );
                    }
                    return Err(e);
                },
                Ok(None) => {},
                Ok(Some(s)) => {
                    children.push(s);
                    assert(snapshot_views(children@) =~= before.push(s@));
                },
            }
        }
        k = k + 1;
    }
    set_children(&mut snapshot, children);
    let beside = join(path, "init.meta.json");
    apply_meta_at(imfs, beside.as_str(), Ok(Some(snapshot)))
}

/// Once an entry of a listing gave an error, the children of the directory
/// give that error.
pub proof fn lemma_children_error_stays(
    fs: FsView,
    path: Seq<char>,
    context: Seq<Seq<char>>,
    fuel: nat,
    at: int,
    upto: int,
)
    requires
        fs.listing.contains_key(path),
        0 < at <= upto <= fs.listing[path].len(),
        dir_children(fs, path, context, fuel, at).is_err(),
    ensures
        dir_children(fs, path, context, fuel, upto) == dir_children(fs, path, context, fuel, at),
    decreases upto - at,
{
    if at < upto {
        lemma_children_error_stays(fs, path, context, fuel, at, upto - 1);
    }
}

/// Once a child of a project node gave an error, the children of the node
/// give that error.
pub proof fn lemma_node_error_stays(
    fs: FsView,
    node: ProjectNodeView,
    folder: Seq<char>,
    context: Seq<Seq<char>>,
    fuel: nat,
    at: int,
    upto: int,
)
    requires
        0 < at <= upto <= node.children.len(),
        node_children(fs, node, folder, context, fuel, at).is_err(),
    ensures
        node_children(fs, node, folder, context, fuel, upto) == node_children(
            fs,
            node,
            folder,
            context,
            fuel,
            at,
        ),
    decreases upto - at,
{
    if at < upto {
        lemma_node_error_stays(fs, node, folder, context, fuel, at, upto - 1);
    }
}

/// Snapshots the entry at `path`, following project files `fuel` deep.
pub fn snapshot_path(
    context: &InstanceContext,
    imfs: &Imfs,
    path: &str,
    name: Option<&str>,
    fuel: usize,
) -> (r: Result<Option<InstanceSnapshot>, SnapshotError>)
    requires
        imfs.wf(),
    ensures
        outcome_of(r) == path_snapshot(
            imfs.fs_view(),
            path@,
            name_view(name),
            context@,
            fuel as nat,
        ),
        outcome_wf(r),
    decreases fuel, 0nat, imfs.longest() - path@.len(), 3nat, 0int,
{
    match imfs.get(path) {
        None => Err(SnapshotError::DidNotExist(path.to_owned())),
        Some(ImfsItem::Directory) => snapshot_imfs_directory(context, imfs, path, name, fuel),
        Some(ImfsItem::File(file)) => {
            if ends_with(file_name(path), ".project.json") {
                let project = match get_project(file, path) {
                    Ok(p) => p,
                    Err(e) => {
                        return Err(e);
                    },
                };
                if fuel == 0 {
                    return Err(SnapshotError::ProjectNestingTooDeep { path: path.to_owned() });
                }
                let node_name = pick_name(name, project.name.as_str());
                let folder = project_folder(path);
                snapshot_node(
                    context,
                    imfs,
                    &project.tree,
                    node_name.as_str(),
                    folder.as_str(),
                    fuel - 1,
                )
            } else {
                snapshot_imfs_file(context, imfs, path, file, name)
            }
        },
    }
}

/// Snapshots a project node under the name `name`, following project files
/// `fuel` deep. The node's paths start from `folder`.
pub fn snapshot_node(
    context: &InstanceContext,
    imfs: &Imfs,
    node: &ProjectNode,
    name: &str,
    folder: &str,
    fuel: usize,
) -> (r: Result<Option<InstanceSnapshot>, SnapshotError>)
    requires
        imfs.wf(),
    ensures
        outcome_of(r) == node_snapshot(
            imfs.fs_view(),
            node@,
            name@,
            folder@,
            context@,
            fuel as nat,
        ),
        outcome_wf(r),
    decreases fuel, 1nat, 0int, 0nat, 0int, node, node.children@.len() + 1,
{
    let ghost fs = imfs.fs_view();
    let ghost view = node@;
    proof {
        assert(view.children.len() == node.children@.len());
    }
    let base = match &node.path {
        Some(p) => {
            let target = resolve(folder, p.as_str());
            snapshot_path(context, imfs, target.as_str(), Some(name), fuel)
        },
        None => match &node.class_name {
            Some(_) => {
                let properties: Vec<(String, Value)> = Vec::new();
                proof {
                    assert(prop_names(properties@) =~= Seq::<Seq<char>>::empty());
                    assert(prop_map(properties@) =~= Map::<Seq<char>, ValueView>::empty());
                }
                let metadata = InstanceMetadata {
                    ignore_unknown_instances: true,
                    instigating_source: None,
                    relevant_paths: Vec::new(),
                    context: context.clone(),
                };
                assert(metadata@.relevant_paths =~= Seq::<Seq<char>>::empty());
                Ok(Some(make_leaf(name.to_owned(), "Folder", properties, metadata)))
            },
            None => Err(SnapshotError::ProjectNodeUnusable),
        },
    };
    let ghost base_copy: Outcome = outcome_of(base);
    assert(base_copy == node_base(fs, view, name@, folder@, context@, fuel as nat));
    let mut snapshot = match base {
        Err(e) => {
            return Err(e);
        },
        Ok(None) => {
            return Ok(None);
        },
        Ok(Some(s)) => s,
    };
    let ghost s0 = snapshot@;
    match &node.class_name {
        Some(c) => {
            if !str_eq(snapshot.class_name.as_str(), "Folder") {
                let partition_path = match &node.path {
                    Some(p) => resolve(folder, p.as_str()),
                    None => String::new(),
                };
                return Err(SnapshotError::ProjectNodeInvalidTransmute { partition_path });
            }
            snapshot.class_name = c.clone();
        },
        None => {},
    }
    let mut children: Vec<InstanceSnapshot> = Vec::new();
    let mut k: usize = 0;
    assert(snapshot_views(children@) =~= Seq::<SnapshotView>::empty());
    while k < node.children.len()
        invariant
            0 <= k <= node.children.len(),
            imfs.wf(),
            fs == imfs.fs_view(),
            view == node@,
            view.children.len() == node.children@.len(),
            base_copy == Ok::<Option<SnapshotView>, ErrorView>(Some(s0)),
            !(node.class_name.is_some() && s0.class_name != "Folder"@),
            base_copy == node_base(fs, view, name@, folder@, context@, fuel as nat),
            node_children(fs, view, folder@, context@, fuel as nat, k as int) == Ok::<
                Seq<SnapshotView>,
                ErrorView,
            >(snapshot_views(children@)),
            forall|i: int| 0 <= i < children@.len() ==> snapshot_wf(#[trigger] children@[i]),
        decreases node.children.len() - k,
    {
        let ghost before = snapshot_views(children@);
        proof {
            assert(view.children[k as int] == (
                node.children@[k as int].0@,
                node.children@[k as int].1@,
            ));
        }
        match snapshot_node(
            context,
            imfs,
            &node.children[k].1,
            node.children[k].0.as_str(),
            folder,
            fuel,
        ) {
            Err(e) => {
                proof {
                    assert(node_children(fs, view, folder@, context@, fuel as nat, k + 1) == Err::<
                        Seq<SnapshotView>,
                        ErrorView,
                    >(e@));
                    lemma_node_error_stays(
                        fs,
                        view,
                        folder@,
                        context@,
                        fuel as nat,
                        k + 1,
                        view.children.len() as int,
                    );
                }
                return Err(e);
            },
            Ok(None) => {},
            Ok(Some(s)) => {
                children.push(s);
                assert(snapshot_views(children@) =~= before.push(s@));
            },
        }
        k = k + 1;
    }
    let ghost s1 = snapshot@;
    assert(s1.children =~= s0.children);
    add_children(&mut snapshot, children);
    overlay_props(&mut snapshot.properties, &node.properties);
    proof {
        lemma_overlaid_pairs(s0.properties, node.properties@, node.properties@.len() as int);
    }
    match node.ignore_unknown_instances {
        Some(b) => {
            snapshot.metadata.ignore_unknown_instances = b;
        },
        None => {},
    }
    snapshot.metadata.instigating_source = Some(
        InstigatingSource::ProjectNode(name.to_owned(), node.clone()),
    );
    proof {
        assert(snapshot@.children =~= s0.children + snapshot_views(children@));
    }
    Ok(Some(snapshot))
}

/// Snapshots the entry at `path`. The instance is named `instance_name`
/// where the caller supplies a name.
pub fn snapshot_imfs_path(
    context: &InstanceContext,
    imfs: &Imfs,
    path: &str,
    instance_name: Option<&str>,
) -> (r: Result<Option<InstanceSnapshot>, SnapshotError>)
    requires
        imfs.wf(),
    ensures
        outcome_of(r) == path_snapshot(
            imfs.fs_view(),
            path@,
            name_view(instance_name),
            context@,
            MAX_PROJECT_NESTING as nat,
        ),
        outcome_wf(r),
{
    snapshot_path(context, imfs, path, instance_name, MAX_PROJECT_NESTING)
}

/// Snapshots a project node under the name `instance_name`. The node's
/// paths start from `folder`.
pub fn snapshot_project_node(
    context: &InstanceContext,
    imfs: &Imfs,
    node: &ProjectNode,
    instance_name: &str,
    folder: &str,
) -> (r: Result<Option<InstanceSnapshot>, SnapshotError>)
    requires
        imfs.wf(),
    ensures
        outcome_of(r) == node_snapshot(
            imfs.fs_view(),
            node@,
            instance_name@,
            folder@,
            context@,
            MAX_PROJECT_NESTING as nat,
        ),
        outcome_wf(r),
{
    snapshot_node(context, imfs, node, instance_name, folder, MAX_PROJECT_NESTING)
}

/// Snapshots the tree of a project under the project's name. The paths of
/// its nodes start from the directory of the project file.
pub fn snapshot_project_tree(context: &InstanceContext, imfs: &Imfs, project: &Project) -> (r:
    Result<Option<InstanceSnapshot>, SnapshotError>)
    requires
        imfs.wf(),
    ensures
        outcome_of(r) == node_snapshot(
            imfs.fs_view(),
            project.tree@,
            project.name@,
            folder_of(project.file_location@),
            context@,
            MAX_PROJECT_NESTING as nat,
        ),
        outcome_wf(r),
{
    let folder = project_folder(project.file_location.as_str());
    snapshot_node(
        context,
        imfs,
        &project.tree,
        project.name.as_str(),
        folder.as_str(),
        MAX_PROJECT_NESTING,
    )
}

/// Whether the directory at `path` holds an `init` script.
pub open spec fn has_init_script(fs: FsView, path: Seq<char>) -> bool {
    file_at(fs, join_of(path, "init.lua"@)).is_some() || file_at(
        fs,
        join_of(path, "init.server.lua"@),
    ).is_some() || file_at(fs, join_of(path, "init.client.lua"@)).is_some()
}

/// What the script middleware makes of the entry at `path`: a script of a
/// script file that is no `init` script, the directory's script of a
/// directory that holds an `init` script, nothing of anything else.
pub open spec fn lua_middleware(fs: FsView, path: Seq<char>, context: Seq<Seq<char>>) -> Outcome {
    if !fs.items.contains_key(path) {
        Err(ErrorView::DidNotExist(path))
    } else {
        match fs.items[path] {
            ImfsItem::File(file) => if is_init_name(file_name_of(path)) {
                Ok(None)
            } else {
                lua_snapshot(path, file.contents@, None, context)
            },
            ImfsItem::Directory => if has_init_script(fs, path) {
                dir_snapshot(fs, path, None, context, MAX_PROJECT_NESTING as nat)
            } else {
                Ok(None)
            },
        }
    }
}

/// The middleware for scripts.
pub struct SnapshotLua;

impl SnapshotLua {
    /// Snapshots the entry at `path`, where it is a script or a directory
    /// that holds an `init` script.
    pub fn from_imfs(context: &InstanceContext, imfs: &Imfs, path: &str) -> (r: Result<
        Option<InstanceSnapshot>,
        SnapshotError,
    >)
        requires
            imfs.wf(),
        ensures
            outcome_of(r) == lua_middleware(imfs.fs_view(), path@, context@),
            outcome_wf(r),
    {
        match imfs.get(path) {
            None => Err(SnapshotError::DidNotExist(path.to_owned())),
            Some(ImfsItem::File(file)) => {
                if check_init_name(file_name(path)) {
                    Ok(None)
                } else {
                    snapshot_lua_file(path, file, None, context)
                }
            },
            Some(ImfsItem::Directory) => {
                let module = join(path, "init.lua");
                let server = join(path, "init.server.lua");
                let client = join(path, "init.client.lua");
                if get_file(imfs, module.as_str()).is_some() || get_file(
                    imfs,
                    server.as_str(),
                ).is_some() || get_file(imfs, client.as_str()).is_some() {
                    snapshot_imfs_directory(context, imfs, path, None, MAX_PROJECT_NESTING)
                } else {
                    Ok(None)
                }
            },
        }
    }
}

/// What the middleware for XML models makes of the entry at `path`.
pub open spec fn rbxmx_middleware(fs: FsView, path: Seq<char>, context: Seq<Seq<char>>) -> Outcome {
    if !fs.items.contains_key(path) {
        Err(ErrorView::DidNotExist(path))
    } else {
        match fs.items[path] {
            ImfsItem::File(file) => model_snapshot(false, path, file.decoded, None, context),
            ImfsItem::Directory => Ok(None),
        }
    }
}

/// The middleware for XML models.
pub struct SnapshotRbxmx;

impl SnapshotRbxmx {
    /// Snapshots the entry at `path`, where it is an XML model file.
    pub fn from_imfs(context: &InstanceContext, imfs: &Imfs, path: &str) -> (r: Result<
        Option<InstanceSnapshot>,
        SnapshotError,
    >)
        requires
            imfs.wf(),
        ensures
            outcome_of(r) == rbxmx_middleware(imfs.fs_view(), path@, context@),
            outcome_wf(r),
    {
        match imfs.get(path) {
            None => Err(SnapshotError::DidNotExist(path.to_owned())),
            Some(ImfsItem::File(file)) => snapshot_xml_model_file(path, file, None, context),
            Some(ImfsItem::Directory) => Ok(None),
        }
    }
}

/// What the middleware for JSON models makes of the entry at `path` under
/// the name `name`.
pub open spec fn json_model_middleware(
    fs: FsView,
    path: Seq<char>,
    name: Seq<char>,
    context: Seq<Seq<char>>,
) -> Outcome {
    if !fs.items.contains_key(path) {
        Err(ErrorView::DidNotExist(path))
    } else {
        match fs.items[path] {
            ImfsItem::File(file) => json_model_snapshot(path, file.decoded, Some(name), context),
            ImfsItem::Directory => Ok(None),
        }
    }
}

/// Snapshots the JSON model at `path` under the name `instance_name`.
pub fn snapshot_json_model(
    context: &InstanceContext,
    imfs: &Imfs,
    path: &str,
    instance_name: &str,
) -> (r: Result<Option<InstanceSnapshot>, SnapshotError>)
    requires
        imfs.wf(),
    ensures
        outcome_of(r) == json_model_middleware(imfs.fs_view(), path@, instance_name@, context@),
        outcome_wf(r),
{
    match imfs.get(path) {
        None => Err(SnapshotError::DidNotExist(path.to_owned())),
        Some(ImfsItem::File(file)) => snapshot_json_model_file(
            path,
            file,
            Some(instance_name),
            context,
        ),
        Some(ImfsItem::Directory) => Ok(None),
    }
}

} // verus!
