//! Metadata that accompanies an instance or a snapshot of one.

use vstd::prelude::*;
use crate::path::{str_eq, texts};
use crate::path_map::{clone_strings, position};
use crate::project::{ProjectNode, ProjectNodeView};
use crate::value::strings_eq;

verus! {

/// A glob pattern for paths that snapshots leave out.
#[derive(Debug, PartialEq, Eq)]
pub struct IgnoreGlob {
    pub pattern: String,
}

/// Configuration that a snapshot hands down to the snapshots of its children.
#[derive(Debug, PartialEq, Eq)]
pub struct InstanceContext {
    pub path_ignore_glob: Vec<IgnoreGlob>,
}

/// The patterns of a list of globs, in order.
pub open spec fn glob_patterns(g: Seq<IgnoreGlob>) -> Seq<Seq<char>> {
    Seq::new(g.len(), |i: int| g[i].pattern@)
}

impl View for InstanceContext {
    type V = Seq<Seq<char>>;

    open spec fn view(&self) -> Seq<Seq<char>> {
        glob_patterns(self.path_ignore_glob@)
    }
}

impl InstanceContext {
    /// Whether two contexts hold the same patterns in the same order.
    pub fn same(&self, other: &InstanceContext) -> (r: bool)
        ensures
            r == (self@ == other@),
    {
        let a = &self.path_ignore_glob;
        let b = &other.path_ignore_glob;
        if a.len() != b.len() {
            assert(self@.len() != other@.len());
            return false;
        }
        let mut i: usize = 0;
        while i < a.len()
            invariant
                0 <= i <= a.len(),
                a.len() == b.len(),
                a@ == self.path_ignore_glob@,
                b@ == other.path_ignore_glob@,
                forall|j: int| 0 <= j < i ==> a@[j].pattern@ == b@[j].pattern@,
            decreases a.len() - i,
        {
            if !str_eq(a[i].pattern.as_str(), b[i].pattern.as_str()) {
                assert(self@[i as int] != other@[i as int]);
                return false;
            }
            i = i + 1;
        }
        assert(self@ =~= other@);
        true
    }
}

impl Clone for InstanceContext {
    fn clone(&self) -> (r: InstanceContext)
        ensures
            r@ == self@,
    {
        let mut out: Vec<IgnoreGlob> = Vec::new();
        let mut i: usize = 0;
        while i < self.path_ignore_glob.len()
            invariant
                0 <= i <= self.path_ignore_glob.len(),
                out.len() == i,
                forall|j: int| 0 <= j < i ==> out@[j].pattern@ == self.path_ignore_glob@[j].pattern@,
            decreases self.path_ignore_glob.len() - i,
        {
            out.push(IgnoreGlob { pattern: self.path_ignore_glob[i].pattern.clone() });
            i = i + 1;
        }
        let r = InstanceContext { path_ignore_glob: out };
        assert(r@ =~= self@);
        r
    }
}

impl Default for InstanceContext {
    fn default() -> (r: InstanceContext)
        ensures
            r@ == Seq::<Seq<char>>::empty(),
    {
        let r = InstanceContext { path_ignore_glob: Vec::new() };
        assert(r@ =~= Seq::<Seq<char>>::empty());
        r
    }
}

/// The single source that, when it changes, has its instance snapshotted
/// again: a path, or a named node of the project.
#[derive(Debug, PartialEq, Eq)]
pub enum InstigatingSource {
    Path(String),
    ProjectNode(String, ProjectNode),
}

/// What an [`InstigatingSource`] holds.
pub enum InstigatingSourceView {
    Path(Seq<char>),
    ProjectNode(Seq<char>, ProjectNodeView),
}

impl View for InstigatingSource {
    type V = InstigatingSourceView;

    open spec fn view(&self) -> InstigatingSourceView {
        match self {
            InstigatingSource::Path(p) => InstigatingSourceView::Path(p@),
            InstigatingSource::ProjectNode(name, node) => InstigatingSourceView::ProjectNode(
                name@,
                node@,
            ),
        }
    }
}

impl InstigatingSource {
    /// The source that is the path `path`.
    pub fn from_path(path: String) -> (r: InstigatingSource)
        ensures
            r@ == InstigatingSourceView::Path(path@),
    {
        InstigatingSource::Path(path)
    }

    /// Whether two sources are the same.
    pub fn same(&self, other: &InstigatingSource) -> (r: bool)
        ensures
            r == (self@ == other@),
    {
        match (self, other) {
            (InstigatingSource::Path(a), InstigatingSource::Path(b)) => str_eq(
                a.as_str(),
                b.as_str(),
            ),
            (InstigatingSource::ProjectNode(an, a), InstigatingSource::ProjectNode(bn, b)) => {
                str_eq(an.as_str(), bn.as_str()) && a.same(b)
            },
            _ => false,
        }
    }
}

impl Clone for InstigatingSource {
    fn clone(&self) -> (r: InstigatingSource)
        ensures
            r@ == self@,
    {
        match self {
            InstigatingSource::Path(p) => InstigatingSource::Path(p.clone()),
            InstigatingSource::ProjectNode(name, node) => InstigatingSource::ProjectNode(
                name.clone(),
                node.clone(),
            ),
        }
    }
}

/// The view of an optional source.
pub open spec fn option_source(o: Option<InstigatingSource>) -> Option<InstigatingSourceView> {
    match o {
        Some(s) => Some(s@),
        None => None,
    }
}

/// Metadata of an instance or of a snapshot of one.
#[derive(Debug, PartialEq, Eq)]
pub struct InstanceMetadata {
    /// Whether instances that the source does not describe are left alone
    /// when the instance is brought up to date.
    pub ignore_unknown_instances: bool,
    /// What to snapshot again when the instance has to be regenerated.
    pub instigating_source: Option<InstigatingSource>,
    /// The paths whose change may change the snapshot, whether or not they
    /// exist now.
    pub relevant_paths: Vec<String>,
    /// Configuration handed down to child snapshots.
    pub context: InstanceContext,
}

/// What an [`InstanceMetadata`] holds.
pub struct InstanceMetadataView {
    pub ignore_unknown_instances: bool,
    pub instigating_source: Option<InstigatingSourceView>,
    pub relevant_paths: Seq<Seq<char>>,
    pub context: Seq<Seq<char>>,
}

impl InstanceMetadataView {
    /// The metadata of a new instance: nothing ignored, no source, no
    /// paths, an empty context.
    pub open spec fn empty() -> InstanceMetadataView {
        InstanceMetadataView {
            ignore_unknown_instances: false,
            instigating_source: None,
            relevant_paths: Seq::empty(),
            context: Seq::empty(),
        }
    }

    /// Where the source is a path, that path is among the relevant paths.
    pub open spec fn consistent(self) -> bool {
        match self.instigating_source {
            Some(InstigatingSourceView::Path(p)) => self.relevant_paths.contains(p),
            _ => true,
        }
    }
}

impl View for InstanceMetadata {
    type V = InstanceMetadataView;

    open spec fn view(&self) -> InstanceMetadataView {
        InstanceMetadataView {
            ignore_unknown_instances: self.ignore_unknown_instances,
            instigating_source: option_source(self.instigating_source),
            relevant_paths: texts(self.relevant_paths@),
            context: self.context@,
        }
    }
}

impl InstanceMetadata {
    /// Creates the metadata of a new instance.
    pub fn new() -> (r: InstanceMetadata)
        ensures
            r@ == InstanceMetadataView::empty(),
    {
        let r = InstanceMetadata {
            ignore_unknown_instances: false,
            instigating_source: None,
            relevant_paths: Vec::new(),
            context: InstanceContext::default(),
        };
        assert(r@.relevant_paths =~= Seq::<Seq<char>>::empty());
        r
    }

    /// The same metadata with `ignore_unknown_instances` set.
    pub fn ignore_unknown_instances(self, ignore_unknown_instances: bool) -> (r: InstanceMetadata)
        ensures
            r@ == (InstanceMetadataView { ignore_unknown_instances, ..self@ }),
    {
        InstanceMetadata {
            ignore_unknown_instances,
            instigating_source: self.instigating_source,
            relevant_paths: self.relevant_paths,
            context: self.context,
        }
    }

    /// The same metadata with `instigating_source` as its source.
    pub fn instigating_source(self, instigating_source: InstigatingSource) -> (r: InstanceMetadata)
        ensures
            r@ == (InstanceMetadataView { instigating_source: Some(instigating_source@), ..self@ }),
    {
        InstanceMetadata {
            ignore_unknown_instances: self.ignore_unknown_instances,
            instigating_source: Some(instigating_source),
            relevant_paths: self.relevant_paths,
            context: self.context,
        }
    }

    /// The same metadata with `relevant_paths` as its relevant paths.
    pub fn relevant_paths(self, relevant_paths: Vec<String>) -> (r: InstanceMetadata)
        ensures
            r@ == (InstanceMetadataView { relevant_paths: texts(relevant_paths@), ..self@ }),
    {
        InstanceMetadata {
            ignore_unknown_instances: self.ignore_unknown_instances,
            instigating_source: self.instigating_source,
            relevant_paths,
            context: self.context,
        }
    }

    /// The same metadata with a copy of `context` as its context.
    pub fn context(self, context: &InstanceContext) -> (r: InstanceMetadata)
        ensures
            r@ == (InstanceMetadataView { context: context@, ..self@ }),
    {
        InstanceMetadata {
            ignore_unknown_instances: self.ignore_unknown_instances,
            instigating_source: self.instigating_source,
            relevant_paths: self.relevant_paths,
            context: context.clone(),
        }
    }

    /// Whether two pieces of metadata hold the same thing.
    pub fn same(&self, other: &InstanceMetadata) -> (r: bool)
        ensures
            r == (self@ == other@),
    {
        if self.ignore_unknown_instances != other.ignore_unknown_instances {
            return false;
        }
        let sources_equal = match (&self.instigating_source, &other.instigating_source) {
            (Some(a), Some(b)) => a.same(b),
            (None, None) => true,
            _ => false,
        };
        if !sources_equal {
            return false;
        }
        if !strings_eq(&self.relevant_paths, &other.relevant_paths) {
            return false;
        }
        self.context.same(&other.context)
    }

    /// Whether the source, where it is a path, is among the relevant paths.
    pub fn is_consistent(&self) -> (r: bool)
        ensures
            r == self@.consistent(),
    {
        match &self.instigating_source {
            Some(InstigatingSource::Path(p)) => {
                let found = position(&self.relevant_paths, p.as_str());
                proof {
                    if found.is_some() {
                        assert(texts(self.relevant_paths@)[found->0 as int] == p@);
                    }
                }
                found.is_some()
            },
            _ => true,
        }
    }
}

impl Clone for InstanceMetadata {
    fn clone(&self) -> (r: InstanceMetadata)
        ensures
            r@ == self@,
    {
        let paths = clone_strings(&self.relevant_paths);
        assert(texts(paths@) =~= texts(self.relevant_paths@));
        InstanceMetadata {
            ignore_unknown_instances: self.ignore_unknown_instances,
            instigating_source: match &self.instigating_source {
                Some(s) => Some(s.clone()),
                None => None,
            },
            relevant_paths: paths,
            context: self.context.clone(),
        }
    }
}

impl Default for InstanceMetadata {
    fn default() -> (r: InstanceMetadata)
        ensures
            r@ == InstanceMetadataView::empty(),
    {
        InstanceMetadata::new()
    }
}

/// Metadata by origin: the path that an instance was read from, and the
/// project node that defined it.
#[derive(Debug, PartialEq, Eq)]
pub struct MetadataPerInstance {
    pub ignore_unknown_instances: bool,
    /// The path that the instance was read from, if it came from disk.
    pub source_path: Option<String>,
    /// The name and the node under which the project defines the instance.
    pub project_definition: Option<(String, ProjectNode)>,
}

/// The source that metadata by origin stands for: the project node where
/// there is one, else the path where there is one.
pub open spec fn source_of(
    source_path: Option<String>,
    project_definition: Option<(String, ProjectNode)>,
) -> Option<InstigatingSourceView> {
    match project_definition {
        Some((name, node)) => Some(InstigatingSourceView::ProjectNode(name@, node@)),
        None => match source_path {
            Some(p) => Some(InstigatingSourceView::Path(p@)),
            None => None,
        },
    }
}

/// The relevant paths that metadata by origin stands for.
pub open spec fn paths_of(source_path: Option<String>) -> Seq<Seq<char>> {
    match source_path {
        Some(p) => seq![p@],
        None => Seq::empty(),
    }
}

impl MetadataPerInstance {
    /// Turns the metadata into the metadata of an instance, with `context`.
    pub fn into_metadata(self, context: &InstanceContext) -> (r: InstanceMetadata)
        ensures
            r@ == (InstanceMetadataView {
                ignore_unknown_instances: self.ignore_unknown_instances,
                instigating_source: source_of(self.source_path, self.project_definition),
                relevant_paths: paths_of(self.source_path),
                context: context@,
            }),
            r@.consistent(),
    {
        let mut paths: Vec<String> = Vec::new();
        match &self.source_path {
            Some(p) => {
                paths.push(p.clone());
            },
            None => {},
        }
        assert(texts(paths@) =~= paths_of(self.source_path));
        let source = match self.project_definition {
            Some((name, node)) => Some(InstigatingSource::ProjectNode(name, node)),
            None => match self.source_path {
                Some(p) => {
                    assert(texts(paths@)[0] == p@);
                    Some(InstigatingSource::Path(p))
                },
                None => None,
            },
        };
        InstanceMetadata {
            ignore_unknown_instances: self.ignore_unknown_instances,
            instigating_source: source,
            relevant_paths: paths,
            context: context.clone(),
        }
    }
}

} // verus!
