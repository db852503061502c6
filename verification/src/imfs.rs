//! An in-memory view of the filesystem: the files and directories that have
//! been read, by path.
//!
//! The view is a cache. Reading the disk is the caller's part: it loads what
//! it has read, and removes a path, with what lies below it, when the path
//! changes on disk.

use vstd::prelude::*;
use vstd::string::StringSliceAdditionalSpecFns;
use crate::json_model::JsonModel;
use crate::meta_file::MetaFile;
use crate::path::{join, join_of, parent_of, texts};
use crate::path_map::{below_of, lemma_sets_without_child, lists_with_child, lists_without_child, not_below_of, orphans_with, orphans_without, reachable, sets_of, PathMap};
use crate::project::Project;
use crate::snapshot::InstanceSnapshot;
use crate::value::copy_bytes;

verus! {

/// What a decoder made of a file's contents, for the files that need one.
#[derive(Debug, PartialEq, Eq)]
pub enum Decoded {
    /// The file needs no decoder.
    Plain,
    /// A JSON model.
    JsonModel(JsonModel),
    /// The top-level instances of a model file.
    Model(Vec<InstanceSnapshot>),
    /// A meta file.
    Meta(MetaFile),
    /// A project file.
    Project(Project),
    /// The decoder rejected the contents, with this message.
    Malformed(String),
}

/// The decoders that files are handed to before they are loaded.
#[derive(Debug, Clone, Copy, PartialEq, Eq)]
pub enum DecoderKind {
    /// No decoder: the contents are used as they are.
    Plain,
    /// The decoder for JSON models.
    JsonModel,
    /// The decoder for XML models.
    XmlModel,
    /// The decoder for binary models.
    BinaryModel,
    /// The decoder for meta files.
    Meta,
    /// The decoder for project files.
    Project,
}

/// The decoder for the file at `path`, by the end of its name.
pub open spec fn decoder_of(path: Seq<char>) -> DecoderKind {
    let name = crate::path::file_name_of(path);
    if crate::path::has_suffix(name, ".project.json"@) {
        DecoderKind::Project
    } else if crate::path::has_suffix(name, ".meta.json"@) {
        DecoderKind::Meta
    } else if crate::path::has_suffix(name, ".model.json"@) {
        DecoderKind::JsonModel
    } else if crate::path::has_suffix(name, ".rbxmx"@) {
        DecoderKind::XmlModel
    } else if crate::path::has_suffix(name, ".rbxm"@) {
        DecoderKind::BinaryModel
    } else {
        DecoderKind::Plain
    }
}

/// Returns the decoder for the file at `path`.
pub fn decoder_for(path: &str) -> (r: DecoderKind)
    ensures
        r == decoder_of(path@),
{
    let name = crate::path::file_name(path);
    if crate::path::ends_with(name, ".project.json") {
        DecoderKind::Project
    } else if crate::path::ends_with(name, ".meta.json") {
        DecoderKind::Meta
    } else if crate::path::ends_with(name, ".model.json") {
        DecoderKind::JsonModel
    } else if crate::path::ends_with(name, ".rbxmx") {
        DecoderKind::XmlModel
    } else if crate::path::ends_with(name, ".rbxm") {
        DecoderKind::BinaryModel
    } else {
        DecoderKind::Plain
    }
}

/// A file: its contents, and what a decoder made of them.
#[derive(Debug, PartialEq, Eq)]
pub struct ImfsFile {
    pub contents: Vec<u8>,
    pub decoded: Decoded,
}

/// An entry of the in-memory filesystem.
#[derive(Debug, PartialEq, Eq)]
pub enum ImfsItem {
    File(ImfsFile),
    Directory,
}

/// A file or a directory with its entries by name, to load in one piece.
#[derive(Debug, PartialEq, Eq)]
pub enum ImfsSnapshot {
    File(ImfsFile),
    Directory(Vec<(String, ImfsSnapshot)>),
}

impl ImfsSnapshot {
    /// A file with the contents `contents` that needs no decoder.
    pub fn file(contents: &str) -> (r: ImfsSnapshot)
        ensures
            r == ImfsSnapshot::File(
                ImfsFile { contents: r->File_0.contents, decoded: Decoded::Plain },
            ),
            r->File_0.contents@ == contents.spec_bytes(),
    {
        ImfsSnapshot::File(
            ImfsFile { contents: contents.as_bytes_vec(), decoded: Decoded::Plain },
        )
    }

    /// A directory with the entries `children`.
    pub fn dir(children: Vec<(String, ImfsSnapshot)>) -> (r: ImfsSnapshot)
        ensures
            r == ImfsSnapshot::Directory(children),
    {
        ImfsSnapshot::Directory(children)
    }
}

/// What the in-memory filesystem holds: the entries, the listing of each
/// entry, and the entries that no listing holds because their directory
/// was not loaded before them.
pub struct ImfsState {
    pub items: Map<Seq<char>, ImfsItem>,
    pub listing: Map<Seq<char>, Seq<Seq<char>>>,
    pub unlisted: Seq<Seq<char>>,
}

/// The state after `item` has been loaded at `path`.
///
/// The path goes to the end of its directory's listing, where the
/// directory is loaded and does not list it yet, and among the unlisted
/// entries otherwise. The entry's own listing is made of the unlisted
/// entries directly below it, which then are listed.
pub open spec fn with_item(state: ImfsState, path: Seq<char>, item: ImfsItem) -> ImfsState {
    let unlisted = orphans_with(state.listing, state.unlisted, path);
    ImfsState {
        items: state.items.insert(path, item),
        listing: lists_with_child(state.listing, path).insert(
            path,
            below_of(unlisted, path, unlisted.len() as int),
        ),
        unlisted: not_below_of(unlisted, path, unlisted.len() as int),
    }
}

/// The state after the first `upto` entries of the directory `snapshot`
/// have been loaded below `path`.
pub open spec fn loaded_upto(
    state: ImfsState,
    path: Seq<char>,
    snapshot: ImfsSnapshot,
    upto: int,
) -> ImfsState
    decreases snapshot, upto,
{
    match snapshot {
        ImfsSnapshot::Directory(children) => {
            if 0 < upto <= children@.len() {
                loaded(
                    loaded_upto(state, path, snapshot, upto - 1),
                    join_of(path, children@[upto - 1].0@),
                    children@[upto - 1].1,
                )
            } else {
                state
            }
        },
        ImfsSnapshot::File(_) => state,
    }
}

/// The state after `snapshot` has been loaded at `path`: a file as it is;
/// a directory, then each of its entries under its name, in order.
pub open spec fn loaded(state: ImfsState, path: Seq<char>, snapshot: ImfsSnapshot) -> ImfsState
    decreases snapshot,
        (match snapshot {
            ImfsSnapshot::Directory(children) => children@.len() + 1,
            ImfsSnapshot::File(_) => 0,
        }),
{
    match snapshot {
        ImfsSnapshot::File(file) => with_item(state, path, ImfsItem::File(file)),
        ImfsSnapshot::Directory(children) => loaded_upto(
            with_item(state, path, ImfsItem::Directory),
            path,
            snapshot,
            children@.len() as int,
        ),
    }
}

/// The in-memory filesystem.
pub struct Imfs {
    items: PathMap<ImfsItem>,
}

impl Imfs {
    /// The entries, by path.
    pub closed spec fn items(&self) -> Map<Seq<char>, ImfsItem> {
        self.items.values()
    }

    /// The listing of each entry: the paths directly below it, in the order
    /// in which they were loaded.
    pub closed spec fn listing(&self) -> Map<Seq<char>, Seq<Seq<char>>> {
        self.items.child_lists()
    }

    /// The entries that no listing holds, in the order in which they were
    /// loaded: those whose directory was not loaded before them.
    pub closed spec fn unlisted(&self) -> Seq<Seq<char>> {
        self.items.orphan_list()
    }

    /// What the filesystem holds.
    pub open spec fn state(&self) -> ImfsState {
        ImfsState { items: self.items(), listing: self.listing(), unlisted: self.unlisted() }
    }

    /// A bound on the length of the paths that are entries.
    pub closed spec fn longest(&self) -> int {
        self.items.longest()
    }

    /// No entry's path is longer than the bound.
    pub proof fn lemma_longest(&self, p: Seq<char>)
        requires
            self.items().contains_key(p),
        ensures
            p.len() <= self.longest(),
    {
        self.items.lemma_longest(p);
    }

    /// The filesystem as the snapshot pipeline reads it.
    pub open spec fn fs_view(&self) -> crate::snapshot_middleware::FsView {
        crate::snapshot_middleware::FsView {
            items: self.items(),
            listing: self.listing(),
            longest: self.longest(),
        }
    }

    /// The filesystem is well-formed.
    pub closed spec fn wf(&self) -> bool {
        self.items.wf()
    }

    /// Every entry has a listing, and a listing holds each path once and
    /// only paths directly below its entry.
    pub proof fn lemma_listing(&self, p: Seq<char>)
        requires
            self.wf(),
        ensures
            self.listing().dom() == self.items().dom(),
            self.items().contains_key(p) ==> {
                &&& self.listing()[p].no_duplicates()
                &&& forall|k: int|
                    0 <= k < self.listing()[p].len() ==> parent_of(
                        #[trigger] self.listing()[p][k],
                    ) == Some(p)
            },
    {
        self.items.lemma_child_lists(p);
    }

    /// Creates an empty filesystem.
    pub fn new() -> (r: Imfs)
        ensures
            r.wf(),
            r.items() == Map::<Seq<char>, ImfsItem>::empty(),
            r.listing() == Map::<Seq<char>, Seq<Seq<char>>>::empty(),
            r.unlisted() == Seq::<Seq<char>>::empty(),
    {
        Imfs { items: PathMap::new() }
    }

    /// Returns the entry at `path`, if it has been loaded.
    pub fn get(&self, path: &str) -> (r: Option<&ImfsItem>)
        requires
            self.wf(),
        ensures
            match r {
                Some(item) => self.items().contains_key(path@) && *item == self.items()[path@],
                None => !self.items().contains_key(path@),
            },
    {
        self.items.get(path)
    }

    /// Whether an entry has been loaded at `path`.
    pub fn contains(&self, path: &str) -> (r: bool)
        requires
            self.wf(),
        ensures
            r == self.items().contains_key(path@),
    {
        self.items.contains_key(path)
    }

    /// Returns the listing of `path`, if it has been loaded.
    pub fn children(&self, path: &str) -> (r: Option<Vec<String>>)
        requires
            self.wf(),
        ensures
            match r {
                Some(v) => self.items().contains_key(path@) && texts(v@) == self.listing()[path@],
                None => !self.items().contains_key(path@),
            },
    {
        proof {
            self.items.lemma_child_lists(path@);
        }
        self.items.children(path)
    }

    /// Loads a file at `path`, in place of what was loaded there.
    pub fn load_file(&mut self, path: &str, file: ImfsFile)
        requires
            old(self).wf(),
        ensures
            final(self).wf(),
            final(self).state() == with_item(old(self).state(), path@, ImfsItem::File(file)),
    {
        self.items.insert(path, ImfsItem::File(file));
    }

    /// Loads a directory at `path`, in place of what was loaded there. The
    /// unlisted entries directly below it become its listing.
    pub fn load_directory(&mut self, path: &str)
        requires
            old(self).wf(),
        ensures
            final(self).wf(),
            final(self).state() == with_item(old(self).state(), path@, ImfsItem::Directory),
    {
        self.items.insert(path, ImfsItem::Directory);
    }

    /// Loads a file, or a directory with everything in it, at `path`.
    pub fn load_from_snapshot(&mut self, path: &str, snapshot: ImfsSnapshot)
        requires
            old(self).wf(),
        ensures
            final(self).wf(),
            final(self).state() == loaded(old(self).state(), path@, snapshot),
        decreases snapshot,
    {
        match snapshot {
            ImfsSnapshot::File(file) => {
                self.load_file(path, file);
            },
            ImfsSnapshot::Directory(mut children) => {
                self.load_directory(path);
                let ghost all = children@;
                let ghost base = self.state();
                let ghost mut done: int = 0;
                while children.len() > 0
                    invariant
                        self.wf(),
                        snapshot is Directory,
                        snapshot->Directory_0@ == all,
                        0 <= done <= all.len(),
                        children@ == all.subrange(done, all.len() as int),
                        base == with_item(old(self).state(), path@, ImfsItem::Directory),
                        self.state() == loaded_upto(base, path@, snapshot, done),
                    decreases children.len(),
                {
                    let ghost before = children@;
                    let (name, child) = children.remove(0);
                    proof {
                        assert(before[0] == all[done]);
                        assert(children@ =~= all.subrange(done + 1, all.len() as int));
                    }
                    let child_path = join(path, name.as_str());
                    self.load_from_snapshot(child_path.as_str(), child);
                    proof {
                        done = done + 1;
                    }
                }
            },
        }
    }

    /// Removes the entry at `path` and every entry that a chain of listings
    /// leads to from it, and returns the paths removed, `path` first.
    /// Reading them again gives fresh entries.
    pub fn remove(&mut self, path: &str) -> (r: Vec<String>)
        requires
            old(self).wf(),
        ensures
            final(self).wf(),
            !final(self).items().contains_key(path@),
            final(self).items() == old(self).items().remove_keys(texts(r@).to_set()),
            final(self).listing() == lists_without_child(old(self).listing(), path@).remove_keys(
                texts(r@).to_set(),
            ),
            final(self).unlisted() == orphans_without(
                old(self).listing(),
                old(self).unlisted(),
                path@,
            ),
            forall|k: int| 0 <= k < r.len() ==> old(self).items().contains_key(#[trigger] r[k]@),
            old(self).items().contains_key(path@) ==> r.len() > 0 && r[0]@ == path@,
            texts(r@).no_duplicates(),
            forall|p: Seq<char>|
                texts(r@).contains(p) <==> reachable(
                    sets_of(lists_without_child(old(self).listing(), path@)),
                    path@,
                    p,
                ),
    {
        let ghost links = crate::path_map::without_child(self.items.child_sets(), path@);
        proof {
            self.items.lemma_same_domain();
            assert(links.dom() =~= self.items.values().dom());
            self.items.lemma_sets_of_lists();
            lemma_sets_without_child(self.items.child_lists(), path@);
        }
        let removed = self.items.remove(path);
        let mut out: Vec<String> = Vec::new();
        let mut i: usize = 0;
        while i < removed.len()
            invariant
                0 <= i <= removed.len(),
                out.len() == i,
                forall|j: int| 0 <= j < i ==> out@[j]@ == removed@[j].0@,
            decreases removed.len() - i,
        {
            out.push(removed[i].0.clone());
            i = i + 1;
        }
        proof {
            let paths = crate::path_map::entry_paths(removed@);
            assert(texts(out@) =~= paths);
            assert(crate::path_map::reachable(links, path@, path@) == links.contains_key(path@));
            if old(self).items().contains_key(path@) {
                assert(paths.contains(path@));
                assert(removed.len() > 0);
            }
            assert forall|k: int| 0 <= k < out.len() implies old(self).items().contains_key(
                #[trigger] out[k]@,
            ) by {
                assert(removed@[k].0@ == out[k]@);
            }
        }
        out
    }
}

} // verus!
