//! A serve session: the project, the tree, the in-memory filesystem and
//! the queue of what was applied.

use vstd::prelude::*;
use crate::change_processor::{after_changes, after_event, handle_event, session_view, SessionView, VfsEvent};
use crate::diff::{numbered, patch_of};
use crate::file_snapshot::Outcome;
use crate::imfs::{Imfs, ImfsItem};
use crate::instance::{find_in, InstanceView};
use crate::message_queue::MessageQueue;
use crate::metadata::{glob_patterns, IgnoreGlob, InstanceContext, InstanceMetadata, InstanceMetadataView};
use crate::patch::AppliedPatchSet;
use crate::path::texts;
use crate::project::{Project, DEFAULT_PORT};
use crate::reconcile::{after_patch, apply_patch_set, compute_patch_set};
use crate::snapshot::SnapshotView;
use crate::snapshot_error::{ErrorView, SnapshotError};
use crate::snapshot_middleware::{folder_of, node_snapshot, path_snapshot, project_folder, snapshot_imfs_path, snapshot_project_tree, MAX_PROJECT_NESTING};
use crate::tree::RojoTree;
use crate::value::{prop_map, prop_names, Value, ValueView};

verus! {

/// Why a session could not start.
#[derive(Debug, PartialEq, Eq)]
pub enum SessionError {
    /// The start path could not be snapshotted.
    Snapshot(SnapshotError),
    /// The start path gave no instance.
    NoInstance,
}

/// The root of a tree before anything is read: a folder named `ROOT` with
/// id 0.
pub open spec fn empty_root() -> InstanceView {
    InstanceView {
        id: 0,
        name: "ROOT"@,
        class_name: "Folder"@,
        properties: Map::empty(),
        metadata: InstanceMetadataView::empty(),
        children: Seq::empty(),
    }
}

/// The tree of a session whose start path gave the snapshot `s`: the empty
/// root, patched to `s`.
pub open spec fn initial_tree_of(s: SnapshotView) -> InstanceView {
    after_patch(empty_root(), 1, numbered(patch_of(s, empty_root()))).tree
}

/// The context that the snapshots of a project start from: the project's
/// ignore patterns.
pub fn project_context(project: &Project) -> (r: InstanceContext)
    ensures
        r@ == texts(project.glob_ignore_paths@),
{
    let mut globs: Vec<IgnoreGlob> = Vec::new();
    let mut i: usize = 0;
    while i < project.glob_ignore_paths.len()
        invariant
            0 <= i <= project.glob_ignore_paths.len(),
            globs.len() == i,
            forall|j: int| 0 <= j < i ==> globs@[j].pattern@ == project.glob_ignore_paths@[j]@,
        decreases project.glob_ignore_paths.len() - i,
    {
        globs.push(IgnoreGlob { pattern: project.glob_ignore_paths[i].clone() });
        i = i + 1;
    }
    let r = InstanceContext { path_ignore_glob: globs };
    assert(r@ =~= texts(project.glob_ignore_paths@));
    r
}

/// Builds the tree of a session from what `start_path` becomes.
pub fn initial_tree(context: &InstanceContext, imfs: &Imfs, start_path: &str) -> (r: Result<
    RojoTree,
    SessionError,
>)
    requires
        imfs.wf(),
    ensures
        match path_snapshot(
            imfs.fs_view(),
            start_path@,
            None,
            context@,
            MAX_PROJECT_NESTING as nat,
        ) {
            Err(e) => r matches Err(SessionError::Snapshot(given)) && given@ == e,
            Ok(None) => r == Err::<RojoTree, SessionError>(SessionError::NoInstance),
            Ok(Some(s)) => r matches Ok(tree) && tree.wf() && tree@ == initial_tree_of(s),
        },
{
    let snapshot = match snapshot_imfs_path(context, imfs, start_path, None) {
        Err(e) => {
            return Err(SessionError::Snapshot(e));
        },
        Ok(None) => {
            return Err(SessionError::NoInstance);
        },
        Ok(Some(s)) => s,
    };
    let properties: Vec<(String, Value)> = Vec::new();
    proof {
        assert(prop_names(properties@) =~= Seq::<Seq<char>>::empty());
        assert(prop_map(properties@) =~= Map::<Seq<char>, ValueView>::empty());
    }
    let mut tree = RojoTree::new(
        "ROOT".to_owned(),
        "Folder".to_owned(),
        properties,
        InstanceMetadata::new(),
    );
    let root_id = tree.get_root_id();
    let patch = compute_patch_set(&snapshot, &tree, root_id);
    apply_patch_set(&mut tree, patch);
    Ok(tree)
}

/// Builds a tree from the tree of a project, without a session around it.
pub fn construct_oneoff_tree(project: &Project, imfs: &Imfs) -> (r: Result<RojoTree, SessionError>)
    requires
        imfs.wf(),
    ensures
        match node_snapshot(
            imfs.fs_view(),
            project.tree@,
            project.name@,
            folder_of(project.file_location@),
            texts(project.glob_ignore_paths@),
            MAX_PROJECT_NESTING as nat,
        ) {
            Err(e) => r matches Err(SessionError::Snapshot(given)) && given@ == e,
            Ok(None) => r == Err::<RojoTree, SessionError>(SessionError::NoInstance),
            Ok(Some(s)) => r matches Ok(tree) && tree.wf() && tree@ == initial_tree_of(s),
        },
{
    let context = project_context(project);
    let snapshot = match snapshot_project_tree(&context, imfs, project) {
        Err(e) => {
            return Err(SessionError::Snapshot(e));
        },
        Ok(None) => {
            return Err(SessionError::NoInstance);
        },
        Ok(Some(s)) => s,
    };
    let properties: Vec<(String, Value)> = Vec::new();
    proof {
        assert(prop_names(properties@) =~= Seq::<Seq<char>>::empty());
        assert(prop_map(properties@) =~= Map::<Seq<char>, ValueView>::empty());
    }
    let mut tree = RojoTree::new(
        "ROOT".to_owned(),
        "Folder".to_owned(),
        properties,
        InstanceMetadata::new(),
    );
    let root_id = tree.get_root_id();
    let patch = compute_patch_set(&snapshot, &tree, root_id);
    apply_patch_set(&mut tree, patch);
    Ok(tree)
}

/// The state of a serve session.
pub struct ServeSession {
    pub root_project: Project,
    pub session_id: String,
    pub tree: RojoTree,
    pub imfs: Imfs,
    pub message_queue: MessageQueue<AppliedPatchSet>,
    pub errors: Vec<SnapshotError>,
}

impl ServeSession {
    /// The parts of the session are well-formed.
    pub open spec fn wf(&self) -> bool {
        self.tree.wf() && self.imfs.wf() && self.message_queue.wf()
    }

    /// The tree of the session.
    pub open spec fn tree_view(&self) -> InstanceView {
        self.tree@
    }

    /// Starts a session for `project`, whose files are in `imfs`, from
    /// what `start_path` becomes.
    pub fn new(project: Project, imfs: Imfs, start_path: &str, session_id: String) -> (r: Result<
        ServeSession,
        SessionError,
    >)
        requires
            imfs.wf(),
        ensures
            match path_snapshot(
                imfs.fs_view(),
                start_path@,
                None,
                texts(project.glob_ignore_paths@),
                MAX_PROJECT_NESTING as nat,
            ) {
                Err(e) => r matches Err(SessionError::Snapshot(given)) && given@ == e,
                Ok(None) => r matches Err(SessionError::NoInstance),
                Ok(Some(s)) => r matches Ok(session) && session.wf() && session.tree_view()
                    == initial_tree_of(s) && session.root_project == project
                    && session.session_id == session_id && session.imfs == imfs
                    && session.message_queue@ == Seq::<AppliedPatchSet>::empty()
                    && session.errors@ == Seq::<SnapshotError>::empty(),
            },
    {
        let context = project_context(&project);
        let tree = match initial_tree(&context, &imfs, start_path) {
            Ok(tree) => tree,
            Err(e) => {
                return Err(e);
            },
        };
        Ok(
            ServeSession {
                root_project: project,
                session_id,
                tree,
                imfs,
                message_queue: MessageQueue::new(),
                errors: Vec::new(),
            },
        )
    }

    /// Returns the tree.
    pub fn tree(&self) -> (r: &RojoTree)
        ensures
            *r == self.tree,
    {
        &self.tree
    }

    /// Returns the in-memory filesystem.
    pub fn imfs(&self) -> (r: &Imfs)
        ensures
            *r == self.imfs,
    {
        &self.imfs
    }

    /// Returns the in-memory filesystem for loading what was read from
    /// disk.
    pub fn imfs_mut(&mut self) -> (r: &mut Imfs)
        ensures
            *r == old(self).imfs,
            *final(self) == (ServeSession { imfs: *final(r), ..*old(self) }),
    {
        &mut self.imfs
    }

    /// Returns the queue of what was applied.
    pub fn message_queue(&self) -> (r: &MessageQueue<AppliedPatchSet>)
        ensures
            *r == self.message_queue,
    {
        &self.message_queue
    }

    /// Returns the id of the session.
    pub fn session_id(&self) -> (r: &str)
        ensures
            r@ == self.session_id@,
    {
        self.session_id.as_str()
    }

    /// Returns the name of the project.
    pub fn project_name(&self) -> (r: &str)
        ensures
            r@ == self.root_project.name@,
    {
        self.root_project.name.as_str()
    }

    /// Returns the port that the project asks for, if it asks for one.
    pub fn project_port(&self) -> (r: Option<u16>)
        ensures
            r == self.root_project.serve_port,
    {
        self.root_project.serve_port
    }

    /// Returns the place ids that the project is served for, if it names
    /// any.
    pub fn serve_place_ids(&self) -> (r: Option<&Vec<u64>>)
        ensures
            match (r, self.root_project.serve_place_ids) {
                (Some(a), Some(b)) => *a == b,
                (None, None) => true,
                _ => false,
            },
    {
        match &self.root_project.serve_place_ids {
            Some(ids) => Some(ids),
            None => None,
        }
    }

    /// The state of the session as events change it.
    pub open spec fn view(&self) -> SessionView {
        session_view(&self.tree, &self.message_queue, self.errors@)
    }

    /// The state after changes at each of `paths`, in order, the in-memory
    /// filesystem being as it is.
    pub open spec fn after(&self, root: Seq<char>, paths: Seq<Seq<char>>) -> SessionView {
        after_changes(
            self.view(),
            self.imfs.fs_view(),
            folder_of(self.root_project.file_location@),
            root,
            paths,
            paths.len() as int,
        )
    }

    /// Returns the tree.
    pub fn get_tree(&self) -> (r: &RojoTree)
        ensures
            *r == self.tree,
    {
        &self.tree
    }

    /// Returns the metadata of the instance with id `id`, if the tree holds
    /// it.
    pub fn get_instance_metadata(&self, id: u128) -> (r: Option<&InstanceMetadata>)
        ensures
            match r {
                Some(m) => find_in(self.tree@, id).is_some() && m@ == find_in(
                    self.tree@,
                    id,
                )->0.metadata,
                None => find_in(self.tree@, id).is_none(),
            },
    {
        match self.tree.get_instance(id) {
            Some(instance) => Some(&instance.metadata),
            None => None,
        }
    }

    /// Handles the creation of `path`.
    pub fn path_created(&mut self, root: &str, path: &str)
        requires
            old(self).wf(),
        ensures
            final(self).wf(),
            final(self).imfs == old(self).imfs,
            final(self).view() == old(self).after(root@, seq![path@]),
    {
        let event = VfsEvent::Created(path.to_owned());
        self.handle_event(root, &event);
    }

    /// Handles a change of the contents of `path`. A change of a directory,
    /// or of a path at which nothing is loaded, changes nothing.
    pub fn path_updated(&mut self, root: &str, path: &str)
        requires
            old(self).wf(),
        ensures
            final(self).wf(),
            final(self).imfs == old(self).imfs,
            final(self).view() == (if old(self).imfs.items().contains_key(path@)
                && old(self).imfs.items()[path@] is File {
                old(self).after(root@, seq![path@])
            } else {
                old(self).view()
            }),
    {
        let is_file = match self.imfs.get(path) {
            Some(ImfsItem::File(_)) => true,
            _ => false,
        };
        let event = VfsEvent::Modified(path.to_owned());
        if is_file {
            self.handle_event(root, &event);
        }
    }

    /// Handles the removal of `path`.
    pub fn path_removed(&mut self, root: &str, path: &str)
        requires
            old(self).wf(),
        ensures
            final(self).wf(),
            final(self).imfs == old(self).imfs,
            final(self).view() == old(self).after(root@, seq![path@]),
    {
        let event = VfsEvent::Removed(path.to_owned());
        self.handle_event(root, &event);
    }

    /// Handles the renaming of `from_path` to `to_path`.
    pub fn path_renamed(&mut self, root: &str, from_path: &str, to_path: &str)
        requires
            old(self).wf(),
        ensures
            final(self).wf(),
            final(self).imfs == old(self).imfs,
            final(self).view() == old(self).after(root@, seq![from_path@, to_path@]),
    {
        let event = VfsEvent::Renamed(from_path.to_owned(), to_path.to_owned());
        self.handle_event(root, &event);
    }

    /// Returns the errors met while handling events.
    pub fn errors(&self) -> (r: &Vec<SnapshotError>)
        ensures
            *r == self.errors,
    {
        &self.errors
    }

    /// Handles an event, the in-memory filesystem holding what is on disk
    /// now: brings the instances that the event makes stale up to date,
    /// and publishes what changed. The paths of the event lie below `root`.
    pub fn handle_event(&mut self, root: &str, event: &VfsEvent)
        requires
            old(self).wf(),
        ensures
            final(self).wf(),
            final(self).imfs == old(self).imfs,
            session_view(&final(self).tree, &final(self).message_queue, final(self).errors@)
                == after_event(
                session_view(&old(self).tree, &old(self).message_queue, old(self).errors@),
                old(self).imfs.fs_view(),
                folder_of(old(self).root_project.file_location@),
                root@,
                *event,
            ),
    {
        let folder = project_folder(self.root_project.file_location.as_str());
        handle_event(
            &mut self.tree,
            &self.imfs,
            &mut self.message_queue,
            &mut self.errors,
            folder.as_str(),
            root,
            event,
        );
    }
}

} // verus!
