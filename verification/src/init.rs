//! Creating a new project: which kind of project is asked for.

use vstd::prelude::*;
use vstd::string::StringExecFns;
use crate::path::str_eq;

verus! {

/// The kinds of project that can be created.
#[derive(Debug, Clone, Copy, PartialEq, Eq)]
pub enum ProjectKind {
    Place,
    Model,
}

/// Why no project was created.
#[derive(Debug, PartialEq, Eq)]
pub enum InitError {
    /// The kind asked for is none of the kinds that can be created.
    InvalidKind(String),
    /// The project file could not be written, with this message.
    ProjectError(String),
}

/// What to create, and where.
#[derive(Debug, PartialEq, Eq)]
pub struct InitOptions {
    pub fuzzy_project_path: String,
    pub kind: Option<String>,
}

/// The name of a kind of project.
pub open spec fn kind_name(kind: ProjectKind) -> Seq<char> {
    match kind {
        ProjectKind::Place => "place"@,
        ProjectKind::Model => "model"@,
    }
}

/// The message of an error, as it is shown to the operator.
pub open spec fn init_message(e: InitError) -> Seq<char> {
    match e {
        InitError::InvalidKind(kind) => "Invalid project kind '"@ + kind@
            + "', valid kinds are 'place' and 'model'"@,
        InitError::ProjectError(message) => "Project init error: "@ + message@,
    }
}

impl ProjectKind {
    /// Returns the name of the kind.
    pub fn name(&self) -> (r: &'static str)
        ensures
            r@ == kind_name(*self),
    {
        match self {
            ProjectKind::Place => "place",
            ProjectKind::Model => "model",
        }
    }
}

impl InitError {
    /// Returns the message of the error, as it is shown to the operator.
    pub fn message(&self) -> (r: String)
        ensures
            r@ == init_message(*self),
    {
        match self {
            InitError::InvalidKind(kind) => {
                let mut out = String::from_str("Invalid project kind '");
                out.append(kind.as_str());
                out.append("', valid kinds are 'place' and 'model'");
                out
            },
            InitError::ProjectError(message) => {
                let mut out = String::from_str("Project init error: ");
                out.append(message.as_str());
                out
            },
        }
    }
}

impl InitOptions {
    /// Returns the kind of project to create: a place where none is asked
    /// for, the kind asked for where it is `place` or `model`, an error
    /// for any other.
    pub fn project_kind(&self) -> (r: Result<ProjectKind, InitError>)
        ensures
            match self.kind {
                None => r == Ok::<ProjectKind, InitError>(ProjectKind::Place),
                Some(kind) => if kind@ == "place"@ {
                    r == Ok::<ProjectKind, InitError>(ProjectKind::Place)
                } else if kind@ == "model"@ {
                    r == Ok::<ProjectKind, InitError>(ProjectKind::Model)
                } else {
                    r matches Err(InitError::InvalidKind(given)) && given@ == kind@
                },
            },
    {
        match &self.kind {
            None => Ok(ProjectKind::Place),
            Some(kind) => {
                if str_eq(kind.as_str(), "place") {
                    Ok(ProjectKind::Place)
                } else if str_eq(kind.as_str(), "model") {
                    Ok(ProjectKind::Model)
                } else {
                    Err(InitError::InvalidKind(kind.clone()))
                }
            },
        }
    }
}

/// The line that reports a new project file.
pub open spec fn created_line(kind: ProjectKind, project_path: Seq<char>) -> Seq<char> {
    "Created new "@ + kind_name(kind) + " project file at "@ + project_path
}

/// Returns the line that reports a new project file.
pub fn created_message(kind: ProjectKind, project_path: &str) -> (r: String)
    ensures
        r@ == created_line(kind, project_path@),
{
    let mut out = String::from_str("Created new ");
    out.append(kind.name());
    out.append(" project file at ");
    out.append(project_path);
    out
}

} // verus!
