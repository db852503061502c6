//! Snapshots of single files: scripts, text, localization tables, JSON
//! models and model files.
//!
//! What a file becomes is decided by the end of its name. The name of the
//! instance is the file's name without that end, unless the caller supplies
//! one.

use vstd::prelude::*;
use vstd::utf8::{decode_utf8, valid_utf8};
use crate::imfs::{Decoded, ImfsFile};
use crate::json_model::{core_snapshot, core_wf, JsonModel};
use crate::localization::{read_table, table_contents};
use crate::metadata::{InstanceContext, InstanceMetadata, InstanceMetadataView, InstigatingSource, InstigatingSourceView};
use crate::path::{ends_with, file_name, file_name_of, has_suffix, join, join_of, match_trailing, option_text, parent, parent_of, str_eq, strip_suffix_of, texts};
use crate::snapshot::{snapshot_wf, InstanceSnapshot, SnapshotView};
use crate::snapshot_error::{ErrorView, SnapshotError};
use crate::value::{lemma_prop_push, prop_map, prop_names, props_wf, Value, ValueView};

verus! {

/// What snapshotting gives: a snapshot, nothing, or an error.
pub type Outcome = Result<Option<SnapshotView>, ErrorView>;

/// The view of what snapshotting gave.
pub open spec fn outcome_of(r: Result<Option<InstanceSnapshot>, SnapshotError>) -> Outcome {
    match r {
        Ok(Some(s)) => Ok(Some(s@)),
        Ok(None) => Ok(None),
        Err(e) => Err(e@),
    }
}

/// Whether what snapshotting gave is well-formed, where it is a snapshot.
pub open spec fn outcome_wf(r: Result<Option<InstanceSnapshot>, SnapshotError>) -> bool {
    match r {
        Ok(Some(s)) => snapshot_wf(s),
        _ => true,
    }
}

/// The text that bytes stand for, where they are UTF-8.
pub open spec fn text_of(bytes: Seq<u8>) -> Option<Seq<char>> {
    if valid_utf8(bytes) {
        Some(decode_utf8(bytes))
    } else {
        None
    }
}

/// Decodes bytes as UTF-8 with `std::str::from_utf8`: the text where the
/// bytes are valid UTF-8, nothing where they are not.
#[verifier::external_body]
pub(crate) fn decode_text(bytes: &Vec<u8>) -> (r: Option<String>)
    ensures
        option_text(r) == text_of(bytes@),
{
    match std::str::from_utf8(bytes.as_slice()) {
        Ok(s) => Some(s.to_owned()),
        Err(_) => None,
    }
}

/// The path with the name `name` in the directory of `path`.
pub open spec fn sibling_of(path: Seq<char>, name: Seq<char>) -> Seq<char> {
    match parent_of(path) {
        Some(q) => join_of(q, name),
        None => name,
    }
}

/// Returns the path with the name `name` in the directory of `path`.
pub fn sibling(path: &str, name: &str) -> (r: String)
    ensures
        r@ == sibling_of(path@, name@),
{
    match parent(path) {
        Some(q) => join(q.as_str(), name),
        None => name.to_owned(),
    }
}

/// The path of the meta file for the instance named `stem` that the file
/// at `path` gives.
pub open spec fn meta_path_of(path: Seq<char>, stem: Seq<char>) -> Seq<char> {
    sibling_of(path, stem + ".meta.json"@)
}

/// Returns the path of the meta file for the instance named `stem` that the
/// file at `path` gives.
pub fn meta_path(path: &str, stem: &str) -> (r: String)
    ensures
        r@ == meta_path_of(path@, stem@),
{
    let mut name = stem.to_owned();
    vstd::string::StringExecFns::append(&mut name, ".meta.json");
    sibling(path, name.as_str())
}

/// The metadata of an instance that comes from `path`: `path` is its
/// source, and it is relevant together with the paths `extra`.
pub open spec fn source_metadata(
    path: Seq<char>,
    extra: Seq<Seq<char>>,
    context: Seq<Seq<char>>,
) -> InstanceMetadataView {
    InstanceMetadataView {
        ignore_unknown_instances: false,
        instigating_source: Some(InstigatingSourceView::Path(path)),
        relevant_paths: seq![path] + extra,
        context,
    }
}

/// Makes the metadata of an instance that comes from `path`.
pub fn make_source_metadata(path: &str, extra: Vec<String>, context: &InstanceContext) -> (r:
    InstanceMetadata)
    ensures
        r@ == source_metadata(path@, texts(extra@), context@),
        r@.consistent(),
{
    let mut paths: Vec<String> = Vec::new();
    paths.push(path.to_owned());
    let mut extra = extra;
    let ghost rest = extra@;
    paths.append(&mut extra);
    proof {
        assert(texts(paths@) =~= seq![path@] + texts(rest));
        assert(texts(paths@)[0] == path@);
    }
    InstanceMetadata {
        ignore_unknown_instances: false,
        instigating_source: Some(InstigatingSource::Path(path.to_owned())),
        relevant_paths: paths,
        context: context.clone(),
    }
}

/// The properties that hold the one pair `name`, `value`.
pub open spec fn one_property(name: Seq<char>, value: ValueView) -> Map<Seq<char>, ValueView> {
    Map::empty().insert(name, value)
}

/// Makes the property list that holds the one pair `name`, `value`.
pub fn make_one_property(name: &str, value: Value) -> (r: Vec<(String, Value)>)
    ensures
        props_wf(r@),
        prop_map(r@) == one_property(name@, value@),
{
    let mut out: Vec<(String, Value)> = Vec::new();
    let pair = (name.to_owned(), value);
    proof {
        assert(prop_names(out@) =~= Seq::<Seq<char>>::empty());
        assert(prop_map(out@) =~= Map::<Seq<char>, ValueView>::empty());
        lemma_prop_push(out@, pair);
    }
    out.push(pair);
    out
}

/// The snapshot of an instance without children.
pub open spec fn leaf(
    name: Seq<char>,
    class_name: Seq<char>,
    properties: Map<Seq<char>, ValueView>,
    metadata: InstanceMetadataView,
) -> SnapshotView {
    SnapshotView {
        snapshot_id: None,
        metadata,
        name,
        class_name,
        properties,
        children: Seq::empty(),
    }
}

/// Makes the snapshot of an instance without children.
pub fn make_leaf(
    name: String,
    class_name: &str,
    properties: Vec<(String, Value)>,
    metadata: InstanceMetadata,
) -> (r: InstanceSnapshot)
    requires
        props_wf(properties@),
        metadata@.consistent(),
    ensures
        r@ == leaf(name@, class_name@, prop_map(properties@), metadata@),
        snapshot_wf(r),
{
    let r = InstanceSnapshot {
        snapshot_id: None,
        metadata,
        name,
        class_name: class_name.to_owned(),
        properties,
        children: Vec::new(),
    };
    assert(r@.children =~= Seq::<SnapshotView>::empty());
    r
}

/// The name given by the caller, or else `stem`.
pub open spec fn name_or(name: Option<Seq<char>>, stem: Seq<char>) -> Seq<char> {
    match name {
        Some(n) => n,
        None => stem,
    }
}

/// Returns the name given by the caller, or else `stem`.
pub fn pick_name(name: Option<&str>, stem: &str) -> (r: String)
    ensures
        r@ == name_or(
            match name {
                Some(n) => Some(n@),
                None => None,
            },
            stem@,
        ),
{
    match name {
        Some(n) => n.to_owned(),
        None => stem.to_owned(),
    }
}

/// The view of an optional name.
pub open spec fn name_view(name: Option<&str>) -> Option<Seq<char>> {
    match name {
        Some(n) => Some(n@),
        None => None,
    }
}

/// The class of the script in a file named `file_name`, and the file's
/// name without its end: `Script` for `.server.lua`, `LocalScript` for
/// `.client.lua`, `ModuleScript` for any other `.lua`.
pub open spec fn lua_class(file_name: Seq<char>) -> Option<(Seq<char>, Seq<char>)> {
    if has_suffix(file_name, ".server.lua"@) {
        Some(("Script"@, strip_suffix_of(file_name, ".server.lua"@)->0))
    } else if has_suffix(file_name, ".client.lua"@) {
        Some(("LocalScript"@, strip_suffix_of(file_name, ".client.lua"@)->0))
    } else if has_suffix(file_name, ".lua"@) {
        Some(("ModuleScript"@, strip_suffix_of(file_name, ".lua"@)->0))
    } else {
        None
    }
}

/// Returns the class of the script in a file named `file_name`, and the
/// file's name without its end.
pub fn classify_lua<'a>(file_name: &'a str) -> (r: Option<(&'static str, &'a str)>)
    ensures
        match r {
            Some((class, stem)) => lua_class(file_name@) == Some((class@, stem@)),
            None => lua_class(file_name@).is_none(),
        },
{
    match match_trailing(file_name, ".server.lua") {
        Some(stem) => {
            return Some(("Script", stem));
        },
        None => {},
    }
    match match_trailing(file_name, ".client.lua") {
        Some(stem) => {
            return Some(("LocalScript", stem));
        },
        None => {},
    }
    match match_trailing(file_name, ".lua") {
        Some(stem) => Some(("ModuleScript", stem)),
        None => None,
    }
}

/// The snapshot of the script file at `path`: its class by the end of its
/// name, its contents as the property `Source`.
pub open spec fn lua_snapshot(
    path: Seq<char>,
    contents: Seq<u8>,
    name: Option<Seq<char>>,
    context: Seq<Seq<char>>,
) -> Outcome {
    match lua_class(file_name_of(path)) {
        None => Ok(None),
        Some((class, stem)) => match text_of(contents) {
            None => Err(ErrorView::Utf8Error { path }),
            Some(text) => Ok(
                Some(
                    leaf(
                        name_or(name, stem),
                        class,
                        one_property("Source"@, ValueView::String(text)),
                        source_metadata(path, seq![meta_path_of(path, stem)], context),
                    ),
                ),
            ),
        },
    }
}

/// Makes the list that holds the one string `s`.
fn one_string(s: String) -> (r: Vec<String>)
    ensures
        texts(r@) == seq![s@],
{
    let mut out: Vec<String> = Vec::new();
    out.push(s);
    assert(texts(out@) =~= seq![s@]);
    out
}

/// Snapshots the script file at `path`.
pub fn snapshot_lua_file(
    path: &str,
    file: &ImfsFile,
    name: Option<&str>,
    context: &InstanceContext,
) -> (r: Result<Option<InstanceSnapshot>, SnapshotError>)
    ensures
        outcome_of(r) == lua_snapshot(path@, file.contents@, name_view(name), context@),
        outcome_wf(r),
{
    let (class, stem) = match classify_lua(file_name(path)) {
        Some(found) => found,
        None => {
            return Ok(None);
        },
    };
    let text = match decode_text(&file.contents) {
        Some(text) => text,
        None => {
            return Err(SnapshotError::Utf8Error { path: path.to_owned() });
        },
    };
    let metadata = make_source_metadata(path, one_string(meta_path(path, stem)), context);
    Ok(
        Some(
            make_leaf(
                pick_name(name, stem),
                class,
                make_one_property("Source", Value::String(text)),
                metadata,
            ),
        ),
    )
}

/// The snapshot of the text file at `path`: a `StringValue` with the
/// contents as the property `Value`.
pub open spec fn txt_snapshot(
    path: Seq<char>,
    contents: Seq<u8>,
    name: Option<Seq<char>>,
    context: Seq<Seq<char>>,
) -> Outcome {
    match strip_suffix_of(file_name_of(path), ".txt"@) {
        None => Ok(None),
        Some(stem) => match text_of(contents) {
            None => Err(ErrorView::Utf8Error { path }),
            Some(text) => Ok(
                Some(
                    leaf(
                        name_or(name, stem),
                        "StringValue"@,
                        one_property("Value"@, ValueView::String(text)),
                        source_metadata(path, seq![meta_path_of(path, stem)], context),
                    ),
                ),
            ),
        },
    }
}

/// Snapshots the text file at `path`.
pub fn snapshot_txt_file(
    path: &str,
    file: &ImfsFile,
    name: Option<&str>,
    context: &InstanceContext,
) -> (r: Result<Option<InstanceSnapshot>, SnapshotError>)
    ensures
        outcome_of(r) == txt_snapshot(path@, file.contents@, name_view(name), context@),
        outcome_wf(r),
{
    let stem = match match_trailing(file_name(path), ".txt") {
        Some(stem) => stem,
        None => {
            return Ok(None);
        },
    };
    let text = match decode_text(&file.contents) {
        Some(text) => text,
        None => {
            return Err(SnapshotError::Utf8Error { path: path.to_owned() });
        },
    };
    let metadata = make_source_metadata(path, one_string(meta_path(path, stem)), context);
    Ok(
        Some(
            make_leaf(
                pick_name(name, stem),
                "StringValue",
                make_one_property("Value", Value::String(text)),
                metadata,
            ),
        ),
    )
}

/// The message for contents that no decoder was run on.
pub open spec fn not_decoded() -> Seq<char> {
    "the contents were not decoded"@
}

/// The snapshot of the localization table at `path`: a
/// `LocalizationTable` with the entries of the table, as a JSON list, as
/// the property `Contents`.
pub open spec fn csv_snapshot(
    path: Seq<char>,
    contents: Seq<u8>,
    name: Option<Seq<char>>,
    context: Seq<Seq<char>>,
) -> Outcome {
    match strip_suffix_of(file_name_of(path), ".csv"@) {
        None => Ok(None),
        Some(stem) => match table_contents(contents) {
            Ok(json) => Ok(
                Some(
                    leaf(
                        name_or(name, stem),
                        "LocalizationTable"@,
                        one_property("Contents"@, ValueView::String(json)),
                        source_metadata(path, seq![meta_path_of(path, stem)], context),
                    ),
                ),
            ),
            Err(message) => Err(ErrorView::TableDecodeError { message, path }),
        },
    }
}

/// Snapshots the localization table at `path`.
pub fn snapshot_csv_file(
    path: &str,
    file: &ImfsFile,
    name: Option<&str>,
    context: &InstanceContext,
) -> (r: Result<Option<InstanceSnapshot>, SnapshotError>)
    ensures
        outcome_of(r) == csv_snapshot(path@, file.contents@, name_view(name), context@),
        outcome_wf(r),
{
    let stem = match match_trailing(file_name(path), ".csv") {
        Some(stem) => stem,
        None => {
            return Ok(None);
        },
    };
    match read_table(&file.contents) {
        Ok(json) => {
            let metadata = make_source_metadata(path, one_string(meta_path(path, stem)), context);
            Ok(
                Some(
                    make_leaf(
                        pick_name(name, stem),
                        "LocalizationTable",
                        make_one_property("Contents", Value::String(json)),
                        metadata,
                    ),
                ),
            )
        },
        Err(message) => Err(SnapshotError::TableDecodeError { message, path: path.to_owned() }),
    }
}

/// The message for a model in which a property name occurs twice.
pub open spec fn repeated_property() -> Seq<char> {
    "a property name occurs twice"@
}

/// The snapshot of the JSON model at `path`: the model under the name of
/// the file, with `path` as its source.
pub open spec fn json_model_snapshot(
    path: Seq<char>,
    decoded: Decoded,
    name: Option<Seq<char>>,
    context: Seq<Seq<char>>,
) -> Outcome {
    match strip_suffix_of(file_name_of(path), ".model.json"@) {
        None => Ok(None),
        Some(stem) => match decoded {
            Decoded::JsonModel(model) => if core_wf(model.core) {
                Ok(
                    Some(
                        SnapshotView {
                            metadata: source_metadata(
                                path,
                                seq![meta_path_of(path, stem)],
                                context,
                            ),
                            ..core_snapshot(model.core, name_or(name, stem))
                        },
                    ),
                )
            } else {
                Err(ErrorView::JsonModelDecodeError { message: repeated_property(), path })
            },
            Decoded::Malformed(message) => Err(
                ErrorView::JsonModelDecodeError { message: message@, path },
            ),
            _ => Err(ErrorView::JsonModelDecodeError { message: not_decoded(), path }),
        },
    }
}

/// Snapshots the JSON model at `path`.
pub fn snapshot_json_model_file(
    path: &str,
    file: &ImfsFile,
    name: Option<&str>,
    context: &InstanceContext,
) -> (r: Result<Option<InstanceSnapshot>, SnapshotError>)
    ensures
        outcome_of(r) == json_model_snapshot(path@, file.decoded, name_view(name), context@),
        outcome_wf(r),
{
    let stem = match match_trailing(file_name(path), ".model.json") {
        Some(stem) => stem,
        None => {
            return Ok(None);
        },
    };
    match &file.decoded {
        Decoded::JsonModel(model) => {
            if !model.core.is_wf() {
                return Err(
                    SnapshotError::JsonModelDecodeError {
                        message: "a property name occurs twice".to_owned(),
                        path: path.to_owned(),
                    },
                );
            }
            let mut snapshot = model.core.into_snapshot(pick_name(name, stem));
            snapshot.metadata = make_source_metadata(
                path,
                one_string(meta_path(path, stem)),
                context,
            );
            proof {
                assert(snapshot@.children =~= core_snapshot(
                    model.core,
                    name_or(name_view(name), stem@),
                ).children);
            }
            Ok(Some(snapshot))
        },
        Decoded::Malformed(message) => Err(
            SnapshotError::JsonModelDecodeError {
                message: message.clone(),
                path: path.to_owned(),
            },
        ),
        _ => Err(
            SnapshotError::JsonModelDecodeError {
                message: "the contents were not decoded".to_owned(),
                path: path.to_owned(),
            },
        ),
    }
}

/// Whether every snapshot of a list is well-formed.
pub open spec fn all_wf(list: Seq<InstanceSnapshot>) -> bool {
    forall|i: int| 0 <= i < list.len() ==> snapshot_wf(#[trigger] list[i])
}

/// Whether every snapshot of a list is well-formed.
pub fn check_all_wf(list: &Vec<InstanceSnapshot>) -> (r: bool)
    ensures
        r == all_wf(list@),
{
    let mut i: usize = 0;
    while i < list.len()
        invariant
            0 <= i <= list.len(),
            forall|j: int| 0 <= j < i ==> snapshot_wf(#[trigger] list@[j]),
        decreases list.len() - i,
    {
        if !list[i].is_wf() {
            return false;
        }
        i = i + 1;
    }
    true
}

/// The error for a model file of the kind `binary` or not.
pub open spec fn model_error(binary: bool, message: Seq<char>, path: Seq<char>) -> ErrorView {
    if binary {
        ErrorView::BinaryModelDecodeError { message, path }
    } else {
        ErrorView::XmlModelDecodeError { message, path }
    }
}

/// Makes the error for a model file of the kind `binary` or not.
fn make_model_error(binary: bool, message: String, path: &str) -> (r: SnapshotError)
    ensures
        r@ == model_error(binary, message@, path@),
{
    if binary {
        SnapshotError::BinaryModelDecodeError { message, path: path.to_owned() }
    } else {
        SnapshotError::XmlModelDecodeError { message, path: path.to_owned() }
    }
}

/// The end of the name of a model file of the kind `binary` or not.
pub open spec fn model_suffix(binary: bool) -> Seq<char> {
    if binary {
        ".rbxm"@
    } else {
        ".rbxmx"@
    }
}

/// The snapshot of the model file at `path`: nothing where the file holds
/// no instance; its one top-level instance, under the name of the file,
/// where it holds one; an error where it holds more.
pub open spec fn model_snapshot(
    binary: bool,
    path: Seq<char>,
    decoded: Decoded,
    name: Option<Seq<char>>,
    context: Seq<Seq<char>>,
) -> Outcome {
    match strip_suffix_of(file_name_of(path), model_suffix(binary)) {
        None => Ok(None),
        Some(stem) => match decoded {
            Decoded::Model(list) => if !all_wf(list@) {
                Err(model_error(binary, repeated_property(), path))
            } else if list@.len() == 0 {
                Ok(None)
            } else if list@.len() == 1 {
                Ok(
                    Some(
                        SnapshotView {
                            name: name_or(name, stem),
                            metadata: source_metadata(
                                path,
                                seq![meta_path_of(path, stem)],
                                context,
                            ),
                            ..list@[0]@
                        },
                    ),
                )
            } else {
                Err(ErrorView::MultipleModelRoots { path })
            },
            Decoded::Malformed(message) => Err(model_error(binary, message@, path)),
            _ => Err(model_error(binary, not_decoded(), path)),
        },
    }
}

/// Snapshots the model file at `path`, binary or XML.
pub fn snapshot_model_file(
    binary: bool,
    path: &str,
    file: &ImfsFile,
    name: Option<&str>,
    context: &InstanceContext,
) -> (r: Result<Option<InstanceSnapshot>, SnapshotError>)
    ensures
        outcome_of(r) == model_snapshot(binary, path@, file.decoded, name_view(name), context@),
        outcome_wf(r),
{
    let suffix = if binary {
        ".rbxm"
    } else {
        ".rbxmx"
    };
    let stem = match match_trailing(file_name(path), suffix) {
        Some(stem) => stem,
        None => {
            return Ok(None);
        },
    };
    match &file.decoded {
        Decoded::Model(list) => {
            if !check_all_wf(list) {
                return Err(
                    make_model_error(binary, "a property name occurs twice".to_owned(), path),
                );
            }
            if list.len() == 0 {
                Ok(None)
            } else if list.len() == 1 {
                let mut snapshot = list[0].clone();
                snapshot.name = pick_name(name, stem);
                snapshot.metadata = make_source_metadata(
                    path,
                    one_string(meta_path(path, stem)),
                    context,
                );
                proof {
                    assert(snapshot@.children =~= list@[0]@.children);
                }
                Ok(Some(snapshot))
            } else {
                Err(SnapshotError::MultipleModelRoots { path: path.to_owned() })
            }
        },
        Decoded::Malformed(message) => Err(make_model_error(binary, message.clone(), path)),
        _ => Err(make_model_error(binary, "the contents were not decoded".to_owned(), path)),
    }
}

/// Snapshots the XML model file at `path`.
pub fn snapshot_xml_model_file(
    path: &str,
    file: &ImfsFile,
    name: Option<&str>,
    context: &InstanceContext,
) -> (r: Result<Option<InstanceSnapshot>, SnapshotError>)
    ensures
        outcome_of(r) == model_snapshot(false, path@, file.decoded, name_view(name), context@),
        outcome_wf(r),
{
    snapshot_model_file(false, path, file, name, context)
}

/// Snapshots the binary model file at `path`.
pub fn snapshot_binary_model_file(
    path: &str,
    file: &ImfsFile,
    name: Option<&str>,
    context: &InstanceContext,
) -> (r: Result<Option<InstanceSnapshot>, SnapshotError>)
    ensures
        outcome_of(r) == model_snapshot(true, path@, file.decoded, name_view(name), context@),
        outcome_wf(r),
{
    snapshot_model_file(true, path, file, name, context)
}

} // verus!
