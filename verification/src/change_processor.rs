//! What a change on disk does to the session: which entries of the
//! in-memory filesystem it invalidates, which instances it makes stale, and
//! how those are brought up to date and the change is published.
//!
//! Reading the disk again between invalidating and bringing up to date is
//! the caller's part.

use vstd::prelude::*;
use crate::diff::{numbered, patch_of};
use crate::file_snapshot::{outcome_of, outcome_wf, Outcome};
use crate::imfs::Imfs;
use crate::instance::{find_in, Instance, InstanceView};
use crate::message_queue::MessageQueue;
use crate::metadata::{InstigatingSource, InstigatingSourceView};
use crate::patch::{patch_wf, update_views, AddView, AppliedPatchSet, PatchSet, PatchView, UpdateView};
use crate::path::{components_of, file_name, file_name_of, parent, parent_of, relative, relative_of, texts};
use crate::path_index::ids_at;
use crate::path_map::descend_from;
use crate::reconcile::{after_patch, apply_patch_set, compute_patch_set};
use crate::snapshot::InstanceSnapshot;
use crate::snapshot_error::{ErrorView, SnapshotError};
use crate::snapshot_middleware::{check_init_name, is_init_name, node_snapshot, path_snapshot, snapshot_imfs_path, snapshot_project_node, FsView, MAX_PROJECT_NESTING};
use crate::tree::RojoTree;

verus! {

/// A change on disk.
#[derive(Debug, PartialEq, Eq)]
pub enum VfsEvent {
    Created(String),
    Modified(String),
    Removed(String),
    Renamed(String, String),
}

/// The paths that an event names: both paths of a rename, the old one
/// first.
pub open spec fn event_paths(event: VfsEvent) -> Seq<Seq<char>> {
    match event {
        VfsEvent::Created(p) => seq![p@],
        VfsEvent::Modified(p) => seq![p@],
        VfsEvent::Removed(p) => seq![p@],
        VfsEvent::Renamed(from, to) => seq![from@, to@],
    }
}

/// Returns the paths that an event names.
pub fn paths_of_event(event: &VfsEvent) -> (r: Vec<String>)
    ensures
        texts(r@) == event_paths(*event),
{
    let mut out: Vec<String> = Vec::new();
    match event {
        VfsEvent::Created(p) => {
            out.push(p.clone());
        },
        VfsEvent::Modified(p) => {
            out.push(p.clone());
        },
        VfsEvent::Removed(p) => {
            out.push(p.clone());
        },
        VfsEvent::Renamed(from, to) => {
            out.push(from.clone());
            out.push(to.clone());
        },
    }
    assert(texts(out@) =~= event_paths(*event));
    out
}

/// Invalidates what the in-memory filesystem holds for the paths of an
/// event: each path is removed with every entry listed below it. Returns
/// the paths removed, which are to be read again.
pub fn commit_event(imfs: &mut Imfs, event: &VfsEvent) -> (r: Vec<String>)
    requires
        old(imfs).wf(),
    ensures
        final(imfs).wf(),
        final(imfs).items() == old(imfs).items().remove_keys(texts(r@).to_set()),
        forall|i: int|
            0 <= i < event_paths(*event).len() ==> !final(imfs).items().contains_key(
                #[trigger] event_paths(*event)[i],
            ),
{
    let paths = paths_of_event(event);
    let mut out: Vec<String> = Vec::new();
    let mut i: usize = 0;
    let ghost start = imfs.items();
    assert(texts(out@).to_set() =~= Set::<Seq<char>>::empty());
    assert(start.remove_keys(Set::<Seq<char>>::empty()) =~= start);
    while i < paths.len()
        invariant
            0 <= i <= paths.len(),
            imfs.wf(),
            imfs.items() == start.remove_keys(texts(out@).to_set()),
            forall|j: int| 0 <= j < i ==> !imfs.items().contains_key(#[trigger] texts(paths@)[j]),
        decreases paths.len() - i,
    {
        let ghost before = imfs.items();
        let ghost done = texts(out@);
        let mut removed = imfs.remove(paths[i].as_str());
        let ghost gone = texts(removed@);
        out.append(&mut removed);
        proof {
            assert(texts(out@) =~= done + gone);
            assert forall|p: Seq<char>| texts(out@).to_set().contains(p) == (done.to_set().contains(
                p,
            ) || gone.to_set().contains(p)) by {
                let all = done + gone;
                if all.contains(p) {
                    let w = all.index_of(p);
                    assert(all[w] == p);
                    if w < done.len() {
                        assert(done[w] == p);
                    } else {
                        assert(gone[w - done.len()] == p);
                    }
                }
                if done.contains(p) {
                    let w = done.index_of(p);
                    assert(done[w] == p);
                    assert(all[w] == p);
                }
                if gone.contains(p) {
                    let w = gone.index_of(p);
                    assert(gone[w] == p);
                    assert(all[done.len() + w] == p);
                }
            }
            assert(imfs.items() =~= start.remove_keys(texts(out@).to_set()));
            assert(texts(paths@)[i as int] == paths[i as int]@);
        }
        i = i + 1;
    }
    out
}

/// The paths for which the tree's index has an entry: those that some
/// instance names among its relevant paths.
pub open spec fn indexed_paths_of(tree: InstanceView) -> Set<Seq<char>> {
    Set::new(|p: Seq<char>| ids_at(tree, p).len() > 0)
}

/// The path whose instances a change at `path` makes stale: the deepest
/// path on the way from `root` to `path` that the index has an entry for,
/// and the directory of that path where it is an `init` script.
pub open spec fn affected_path(tree: InstanceView, root: Seq<char>, path: Seq<char>) -> Option<
    Seq<char>,
> {
    match relative_of(root, path) {
        None => None,
        Some(rest) => {
            let reached = descend_from(indexed_paths_of(tree), root, components_of(rest));
            if is_init_name(file_name_of(reached)) {
                match parent_of(reached) {
                    Some(q) => Some(q),
                    None => Some(reached),
                }
            } else {
                Some(reached)
            }
        },
    }
}

/// Returns the path whose instances a change at `path` makes stale.
/// Nothing where `path` does not lie at or below `root`.
pub fn path_to_snapshot(tree: &RojoTree, root: &str, path: &str) -> (r: Option<String>)
    requires
        tree.wf(),
    ensures
        match r {
            Some(p) => affected_path(tree@, root@, path@) == Some(p@),
            None => affected_path(tree@, root@, path@).is_none(),
        },
{
    if relative(root, path).is_none() {
        return None;
    }
    proof {
        assert forall|p: Seq<char>| tree.indexed_paths().contains(p) == indexed_paths_of(
            tree@,
        ).contains(p) by {
            tree.lemma_index_complete(p);
        }
        assert(tree.indexed_paths() =~= indexed_paths_of(tree@));
    }
    let reached = tree.descend(root, path);
    if check_init_name(file_name(reached.as_str())) {
        match parent(reached.as_str()) {
            Some(q) => Some(q),
            None => Some(reached),
        }
    } else {
        Some(reached)
    }
}

/// What an [`AppliedPatchSet`] holds.
pub struct AppliedView {
    pub removed: Seq<u128>,
    pub added: Seq<u128>,
    pub updated: Seq<UpdateView>,
}

/// The view of an applied patch set.
pub open spec fn applied_view(a: AppliedPatchSet) -> AppliedView {
    AppliedView { removed: a.removed@, added: a.added@, updated: update_views(a.updated@) }
}

/// The views of the applied patch sets of a log.
pub open spec fn published(log: Seq<AppliedPatchSet>) -> Seq<AppliedView> {
    Seq::new(log.len(), |i: int| applied_view(log[i]))
}

/// The views of a list of errors.
pub open spec fn error_views(errors: Seq<SnapshotError>) -> Seq<ErrorView> {
    Seq::new(errors.len(), |i: int| errors[i]@)
}

/// The state of a session: the tree, the id that its next new instance
/// receives, the patch sets published, and the errors met.
pub struct SessionView {
    pub tree: InstanceView,
    pub next: int,
    pub log: Seq<AppliedView>,
    pub errors: Seq<ErrorView>,
}

/// The state that a tree, a queue and a list of errors are in.
pub open spec fn session_view(
    tree: &RojoTree,
    queue: &MessageQueue<AppliedPatchSet>,
    errors: Seq<SnapshotError>,
) -> SessionView {
    SessionView {
        tree: tree@,
        next: tree.next_id() as int,
        log: published(queue@),
        errors: error_views(errors),
    }
}

/// What the source of `x` becomes now: what its path becomes, and no
/// instance where nothing is at its path any more; or what its project
/// node becomes under its recorded name. Nothing where `x` has no source.
pub open spec fn refreshed(fs: FsView, folder: Seq<char>, x: InstanceView) -> Option<Outcome> {
    match x.metadata.instigating_source {
        None => None,
        Some(InstigatingSourceView::Path(p)) => if fs.items.contains_key(p) {
            Some(path_snapshot(fs, p, None, x.metadata.context, MAX_PROJECT_NESTING as nat))
        } else {
            Some(Ok(None))
        },
        Some(InstigatingSourceView::ProjectNode(name, node)) => Some(
            node_snapshot(fs, node, name, folder, x.metadata.context, MAX_PROJECT_NESTING as nat),
        ),
    }
}

/// The patch set that removes the instance with id `id`.
pub open spec fn removal_of(id: u128) -> PatchView {
    PatchView { removed: seq![id], added: Seq::empty(), updated: Seq::empty() }
}

/// The state after a patch set: unchanged where the patch set changes
/// nothing; else the tree is patched, and the patch set as applied is
/// published, unless the cursors are used up.
pub open spec fn after_publishing(state: SessionView, patch: PatchView) -> SessionView {
    if patch.is_empty() {
        state
    } else {
        let grown = after_patch(state.tree, state.next, patch);
        SessionView {
            tree: grown.tree,
            next: grown.next,
            log: if state.log.len() < u32::MAX {
                state.log.push(
                    AppliedView {
                        removed: patch.removed,
                        added: grown.added,
                        updated: patch.updated,
                    },
                )
            } else {
                state.log
            },
            errors: state.errors,
        }
    }
}

/// The state after the instance with id `id` is brought up to date.
///
/// Nothing changes where the tree does not hold the instance or the
/// instance has no source. Where its source gives an error, the error is
/// recorded. Where its source gives nothing, the instance is removed.
/// Where it gives a snapshot, the instance is patched to it.
pub open spec fn after_refresh(
    state: SessionView,
    fs: FsView,
    folder: Seq<char>,
    id: u128,
) -> SessionView {
    match find_in(state.tree, id) {
        None => state,
        Some(x) => match refreshed(fs, folder, x) {
            None => state,
            Some(Err(e)) => SessionView { errors: state.errors.push(e), ..state },
            Some(Ok(None)) => after_publishing(state, removal_of(id)),
            Some(Ok(Some(s))) => after_publishing(state, numbered(patch_of(s, x))),
        },
    }
}

/// The state after the first `upto` instances of `ids` are brought up to
/// date, one after the other.
pub open spec fn after_refreshes(
    state: SessionView,
    fs: FsView,
    folder: Seq<char>,
    ids: Seq<u128>,
    upto: int,
) -> SessionView
    decreases upto,
{
    if 0 < upto <= ids.len() {
        after_refresh(after_refreshes(state, fs, folder, ids, upto - 1), fs, folder, ids[upto - 1])
    } else {
        state
    }
}

/// The state after a change at `path`: the instances that name the
/// affected path are brought up to date, in the order in which the index
/// lists them at the time of the change.
pub open spec fn after_change(
    state: SessionView,
    fs: FsView,
    folder: Seq<char>,
    root: Seq<char>,
    path: Seq<char>,
) -> SessionView {
    match affected_path(state.tree, root, path) {
        None => state,
        Some(p) => after_refreshes(
            state,
            fs,
            folder,
            ids_at(state.tree, p),
            ids_at(state.tree, p).len() as int,
        ),
    }
}

/// The state after changes at the first `upto` paths of `paths`.
pub open spec fn after_changes(
    state: SessionView,
    fs: FsView,
    folder: Seq<char>,
    root: Seq<char>,
    paths: Seq<Seq<char>>,
    upto: int,
) -> SessionView
    decreases upto,
{
    if 0 < upto <= paths.len() {
        after_change(
            after_changes(state, fs, folder, root, paths, upto - 1),
            fs,
            folder,
            root,
            paths[upto - 1],
        )
    } else {
        state
    }
}

/// The state after an event: after changes at each of its paths.
pub open spec fn after_event(
    state: SessionView,
    fs: FsView,
    folder: Seq<char>,
    root: Seq<char>,
    event: VfsEvent,
) -> SessionView {
    after_changes(state, fs, folder, root, event_paths(event), event_paths(event).len() as int)
}

/// A rename that is reported as a removal of the old path followed by a
/// creation of the new one leaves the session in the state in which the
/// rename itself leaves it, the filesystem being the same.
pub proof fn lemma_rename_as_remove_then_create(
    state: SessionView,
    fs: FsView,
    folder: Seq<char>,
    root: Seq<char>,
    from: String,
    to: String,
)
    ensures
        after_event(state, fs, folder, root, VfsEvent::Renamed(from, to)) == after_event(
            after_event(state, fs, folder, root, VfsEvent::Removed(from)),
            fs,
            folder,
            root,
            VfsEvent::Created(to),
        ),
{
    let both = event_paths(VfsEvent::Renamed(from, to));
    let first = event_paths(VfsEvent::Removed(from));
    let second = event_paths(VfsEvent::Created(to));
    reveal_with_fuel(after_changes, 3);
    assert(both[0] == first[0]);
    assert(both[1] == second[0]);
}

/// Snapshots the source of `instance` again.
pub fn resnapshot(imfs: &Imfs, folder: &str, instance: &Instance) -> (r: Option<
    Result<Option<InstanceSnapshot>, SnapshotError>,
>)
    requires
        imfs.wf(),
    ensures
        match r {
            None => refreshed(imfs.fs_view(), folder@, instance@).is_none(),
            Some(o) => refreshed(imfs.fs_view(), folder@, instance@) == Some(outcome_of(o))
                && outcome_wf(o),
        },
{
    match &instance.metadata.instigating_source {
        None => None,
        Some(InstigatingSource::Path(p)) => {
            if imfs.contains(p.as_str()) {
                Some(snapshot_imfs_path(&instance.metadata.context, imfs, p.as_str(), None))
            } else {
                Some(Ok(None))
            }
        },
        Some(InstigatingSource::ProjectNode(name, node)) => Some(
            snapshot_project_node(&instance.metadata.context, imfs, node, name.as_str(), folder),
        ),
    }
}

/// Applies a patch set to the tree and publishes it as applied, where it
/// changes anything.
pub fn publish_patch(
    tree: &mut RojoTree,
    queue: &mut MessageQueue<AppliedPatchSet>,
    errors: &Vec<SnapshotError>,
    patch: PatchSet,
)
    requires
        old(tree).wf(),
        old(queue).wf(),
        patch_wf(patch),
    ensures
        final(tree).wf(),
        final(queue).wf(),
        session_view(final(tree), final(queue), errors@) == after_publishing(
            session_view(old(tree), old(queue), errors@),
            patch@,
        ),
{
    if patch.is_empty() {
        return ;
    }
    let ghost log = published(queue@);
    let applied = apply_patch_set(tree, patch);
    let ghost shown = applied_view(applied);
    let pushed = queue.push(applied);
    proof {
        if pushed {
            assert(published(queue@) =~= log.push(shown));
        }
    }
}

/// Brings the instance with id `id` up to date, and publishes what
/// changed. An error of snapshotting is added to `errors`.
pub fn refresh_instance(
    tree: &mut RojoTree,
    imfs: &Imfs,
    queue: &mut MessageQueue<AppliedPatchSet>,
    errors: &mut Vec<SnapshotError>,
    folder: &str,
    id: u128,
)
    requires
        old(tree).wf(),
        imfs.wf(),
        old(queue).wf(),
    ensures
        final(tree).wf(),
        final(queue).wf(),
        session_view(final(tree), final(queue), final(errors)@) == after_refresh(
            session_view(old(tree), old(queue), old(errors)@),
            imfs.fs_view(),
            folder@,
            id,
        ),
{
    let outcome = match tree.get_instance(id) {
        None => {
            return ;
        },
        Some(instance) => match resnapshot(imfs, folder, instance) {
            None => {
                return ;
            },
            Some(outcome) => outcome,
        },
    };
    match outcome {
        Err(e) => {
            let ghost before = error_views(errors@);
            errors.push(e);
            assert(error_views(errors@) =~= before.push(e@));
        },
        Ok(None) => {
            let mut patch = PatchSet::new();
            patch.removed_instances.push(id);
            proof {
                assert(patch@.removed =~= seq![id]);
                assert(patch@.added =~= Seq::<AddView>::empty());
                assert(patch@.updated =~= Seq::<UpdateView>::empty());
            }
            publish_patch(tree, queue, errors, patch);
        },
        Ok(Some(snapshot)) => {
            let patch = compute_patch_set(&snapshot, tree, id);
            publish_patch(tree, queue, errors, patch);
        },
    }
}

/// Handles a change at `path`: brings the instances that name the affected
/// path up to date, and publishes what changed.
pub fn handle_path(
    tree: &mut RojoTree,
    imfs: &Imfs,
    queue: &mut MessageQueue<AppliedPatchSet>,
    errors: &mut Vec<SnapshotError>,
    folder: &str,
    root: &str,
    path: &str,
)
    requires
        old(tree).wf(),
        imfs.wf(),
        old(queue).wf(),
    ensures
        final(tree).wf(),
        final(queue).wf(),
        session_view(final(tree), final(queue), final(errors)@) == after_change(
            session_view(old(tree), old(queue), old(errors)@),
            imfs.fs_view(),
            folder@,
            root@,
            path@,
        ),
{
    let affected = match path_to_snapshot(tree, root, path) {
        Some(p) => p,
        None => {
            return ;
        },
    };
    let ids = tree.ids_at_path(affected.as_str());
    let ghost start = session_view(tree, queue, errors@);
    let ghost fs = imfs.fs_view();
    let mut i: usize = 0;
    while i < ids.len()
        invariant
            0 <= i <= ids.len(),
            tree.wf(),
            imfs.wf(),
            queue.wf(),
            fs == imfs.fs_view(),
            session_view(tree, queue, errors@) == after_refreshes(
                start,
                fs,
                folder@,
                ids@,
                i as int,
            ),
        decreases ids.len() - i,
    {
        refresh_instance(tree, imfs, queue, errors, folder, ids[i]);
        i = i + 1;
    }
}

/// Handles an event: a change at each of its paths, in order.
pub fn handle_event(
    tree: &mut RojoTree,
    imfs: &Imfs,
    queue: &mut MessageQueue<AppliedPatchSet>,
    errors: &mut Vec<SnapshotError>,
    folder: &str,
    root: &str,
    event: &VfsEvent,
)
    requires
        old(tree).wf(),
        imfs.wf(),
        old(queue).wf(),
    ensures
        final(tree).wf(),
        final(queue).wf(),
        session_view(final(tree), final(queue), final(errors)@) == after_event(
            session_view(old(tree), old(queue), old(errors)@),
            imfs.fs_view(),
            folder@,
            root@,
            *event,
        ),
{
    let paths = paths_of_event(event);
    let ghost start = session_view(tree, queue, errors@);
    let ghost fs = imfs.fs_view();
    let mut i: usize = 0;
    while i < paths.len()
        invariant
            0 <= i <= paths.len(),
            tree.wf(),
            imfs.wf(),
            queue.wf(),
            fs == imfs.fs_view(),
            texts(paths@) == event_paths(*event),
            session_view(tree, queue, errors@) == after_changes(
                start,
                fs,
                folder@,
                root@,
                texts(paths@),
                i as int,
            ),
        decreases paths.len() - i,
    {
        assert(texts(paths@)[i as int] == paths[i as int]@);
        handle_path(tree, imfs, queue, errors, folder, root, paths[i].as_str());
        i = i + 1;
    }
}

} // verus!
