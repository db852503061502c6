//! The errors of snapshotting.

use vstd::prelude::*;
use vstd::string::StringExecFns;

verus! {

/// Why no snapshot could be made.
#[derive(Debug, PartialEq, Eq)]
pub enum SnapshotError {
    /// Nothing has been loaded at the path.
    DidNotExist(String),
    /// The contents of the file are not UTF-8.
    Utf8Error { path: String },
    /// The decoder rejected a JSON model.
    JsonModelDecodeError { message: String, path: String },
    /// The decoder rejected an XML model.
    XmlModelDecodeError { message: String, path: String },
    /// The decoder rejected a binary model.
    BinaryModelDecodeError { message: String, path: String },
    /// The decoder rejected a localization table.
    TableDecodeError { message: String, path: String },
    /// The decoder rejected a meta file.
    MetaDecodeError { message: String, path: String },
    /// The decoder rejected a project file.
    ProjectDecodeError { message: String, path: String },
    /// A model file holds more than one top-level instance.
    MultipleModelRoots { path: String },
    /// Project files refer to one another more deeply than is followed.
    ProjectNestingTooDeep { path: String },
    /// A project node names neither a path nor a class.
    ProjectNodeUnusable,
    /// A project node names a class, and its path gives an instance that is
    /// no folder.
    ProjectNodeInvalidTransmute { partition_path: String },
}

/// What a [`SnapshotError`] holds.
pub enum ErrorView {
    DidNotExist(Seq<char>),
    Utf8Error { path: Seq<char> },
    JsonModelDecodeError { message: Seq<char>, path: Seq<char> },
    XmlModelDecodeError { message: Seq<char>, path: Seq<char> },
    BinaryModelDecodeError { message: Seq<char>, path: Seq<char> },
    TableDecodeError { message: Seq<char>, path: Seq<char> },
    MetaDecodeError { message: Seq<char>, path: Seq<char> },
    ProjectDecodeError { message: Seq<char>, path: Seq<char> },
    MultipleModelRoots { path: Seq<char> },
    ProjectNestingTooDeep { path: Seq<char> },
    ProjectNodeUnusable,
    ProjectNodeInvalidTransmute { partition_path: Seq<char> },
}

impl View for SnapshotError {
    type V = ErrorView;

    open spec fn view(&self) -> ErrorView {
        match self {
            SnapshotError::DidNotExist(p) => ErrorView::DidNotExist(p@),
            SnapshotError::Utf8Error { path } => ErrorView::Utf8Error { path: path@ },
            SnapshotError::JsonModelDecodeError { message, path } => ErrorView::JsonModelDecodeError {
                message: message@,
                path: path@,
            },
            SnapshotError::XmlModelDecodeError { message, path } => ErrorView::XmlModelDecodeError {
                message: message@,
                path: path@,
            },
            SnapshotError::BinaryModelDecodeError { message, path } => ErrorView::BinaryModelDecodeError {
                message: message@,
                path: path@,
            },
            SnapshotError::TableDecodeError { message, path } => ErrorView::TableDecodeError {
                message: message@,
                path: path@,
            },
            SnapshotError::MetaDecodeError { message, path } => ErrorView::MetaDecodeError {
                message: message@,
                path: path@,
            },
            SnapshotError::ProjectDecodeError { message, path } => ErrorView::ProjectDecodeError {
                message: message@,
                path: path@,
            },
            SnapshotError::MultipleModelRoots { path } => ErrorView::MultipleModelRoots {
                path: path@,
            },
            SnapshotError::ProjectNestingTooDeep { path } => ErrorView::ProjectNestingTooDeep {
                path: path@,
            },
            SnapshotError::ProjectNodeUnusable => ErrorView::ProjectNodeUnusable,
            SnapshotError::ProjectNodeInvalidTransmute {
                partition_path,
            } => ErrorView::ProjectNodeInvalidTransmute { partition_path: partition_path@ },
        }
    }
}

/// The message of an error, as it is shown to the operator.
pub open spec fn message_of(e: ErrorView) -> Seq<char> {
    match e {
        ErrorView::DidNotExist(p) => "Path did not exist: "@ + p,
        ErrorView::Utf8Error { path } => "Invalid UTF-8 in path "@ + path,
        ErrorView::JsonModelDecodeError { message, path } => "Malformed .model.json model: "@
            + message + " in path "@ + path,
        ErrorView::XmlModelDecodeError { message, path } => "Malformed rbxmx model: "@ + message
            + " in path "@ + path,
        ErrorView::BinaryModelDecodeError { message, path } => "Malformed rbxm model: "@ + message
            + " in path "@ + path,
        ErrorView::TableDecodeError { message, path } => "Malformed localization table: "@
            + message + " in path "@ + path,
        ErrorView::MetaDecodeError { message, path } => "Malformed meta file: "@ + message
            + " in path "@ + path,
        ErrorView::ProjectDecodeError { message, path } => "Malformed project file: "@ + message
            + " in path "@ + path,
        ErrorView::MultipleModelRoots { path } => "Model files with more than one top-level instance are not supported: "@
            + path,
        ErrorView::ProjectNestingTooDeep { path } => "Project files are nested too deeply at "@
            + path,
        ErrorView::ProjectNodeUnusable => "Rojo project nodes must specify either $path or $className."@,
        ErrorView::ProjectNodeInvalidTransmute { partition_path } => "Rojo project nodes that specify both $path and $className require that the\ninstance produced by the files pointed to by $path has a ClassName of\nFolder.\n\nPartition target ($path): "@
            + partition_path + "\n"@,
    }
}

/// `head`, then `message`, then ` in path `, then `path`.
fn decode_message(head: &str, message: &str, path: &str) -> (r: String)
    ensures
        r@ == head@ + message@ + " in path "@ + path@,
{
    let mut out = String::from_str(head);
    out.append(message);
    out.append(" in path ");
    out.append(path);
    out
}

/// `head`, then `tail`.
fn two_parts(head: &str, tail: &str) -> (r: String)
    ensures
        r@ == head@ + tail@,
{
    let mut out = String::from_str(head);
    out.append(tail);
    out
}

impl SnapshotError {
    /// Returns the message of the error, as it is shown to the operator.
    pub fn message(&self) -> (r: String)
        ensures
            r@ == message_of(self@),
    {
        match self {
            SnapshotError::DidNotExist(p) => two_parts("Path did not exist: ", p.as_str()),
            SnapshotError::Utf8Error { path } => two_parts("Invalid UTF-8 in path ", path.as_str()),
            SnapshotError::JsonModelDecodeError { message, path } => decode_message(
                "Malformed .model.json model: ",
                message.as_str(),
                path.as_str(),
            ),
            SnapshotError::XmlModelDecodeError { message, path } => decode_message(
                "Malformed rbxmx model: ",
                message.as_str(),
                path.as_str(),
            ),
            SnapshotError::BinaryModelDecodeError { message, path } => decode_message(
                "Malformed rbxm model: ",
                message.as_str(),
                path.as_str(),
            ),
            SnapshotError::TableDecodeError { message, path } => decode_message(
                "Malformed localization table: ",
                message.as_str(),
                path.as_str(),
            ),
            SnapshotError::MetaDecodeError { message, path } => decode_message(
                "Malformed meta file: ",
                message.as_str(),
                path.as_str(),
            ),
            SnapshotError::ProjectDecodeError { message, path } => decode_message(
                "Malformed project file: ",
                message.as_str(),
                path.as_str(),
            ),
            SnapshotError::MultipleModelRoots { path } => two_parts(
                "Model files with more than one top-level instance are not supported: ",
                path.as_str(),
            ),
            SnapshotError::ProjectNestingTooDeep { path } => two_parts(
                "Project files are nested too deeply at ",
                path.as_str(),
            ),
            SnapshotError::ProjectNodeUnusable => String::from_str(
                "Rojo project nodes must specify either $path or $className.",
            ),
            SnapshotError::ProjectNodeInvalidTransmute { partition_path } => {
                let mut out = String::from_str(
                    "Rojo project nodes that specify both $path and $className require that the\ninstance produced by the files pointed to by $path has a ClassName of\nFolder.\n\nPartition target ($path): ",
                );
                out.append(partition_path.as_str());
                out.append("\n");
                out
            },
        }
    }
}

} // verus!
