//! The cache of one collection: the documents of a directory, rebuilt from
//! what a walk of the directory found whenever the directory changes.

use crate::error::Error;
use crate::load::{
    distinct_paths, lemma_loaded_counts, lemma_loaded_map, load_errors, loaded_map, loaded_paths,
};
use crate::snapshot::Snapshot;
use crate::text::texts;
use crate::walk::{document_paths, select_documents, WalkEntry};
use vstd::prelude::*;

verus! {

/// The kind of a change that was seen in the watched directory.
#[derive(Clone, Copy, Debug, PartialEq, Eq)]
pub enum EventKind {
    Create,
    Modify,
    Access,
    Remove,
    Other,
}

impl EventKind {
    /// Whether a change of this kind calls for a rebuild: a file was
    /// modified, removed or accessed.
    pub open spec fn qualifies(self) -> bool {
        self is Modify || self is Remove || self is Access
    }
}

/// How far the watching of a collection has come.
#[derive(Clone, Copy, Debug, PartialEq, Eq)]
pub enum WatchState {
    /// Nothing was loaded yet.
    Created,
    /// The first rebuild is under way.
    Loading,
    /// The first rebuild is done; the directory is being registered.
    Registering,
    /// The directory is watched.
    Watching,
    /// The directory could not be watched. The cache cannot promise to be
    /// fresh and is not to be served.
    Failed,
}

/// What happened outside the cache.
#[derive(Debug, PartialEq, Eq)]
pub enum WatchEvent {
    /// The cache is asked to start.
    Start,
    /// A rebuild was carried out.
    Rebuilt,
    /// The directory is registered.
    Registered,
    /// The directory could not be registered; the text says why.
    RegistrationFailed(String),
    /// A change of this kind was seen in the directory.
    Changed(EventKind),
}

/// What is to be done next outside the cache.
#[derive(Debug, PartialEq, Eq)]
pub enum WatchAction {
    /// Walk the directory, load its documents and hand them to
    /// `update_all_files`.
    Rebuild,
    /// Register the directory for notifications of changes.
    Register { directory: String, recursive: bool },
    /// Nothing.
    Wait,
    /// Give up and report the error.
    Fail(Error),
}

/// The snapshot that a rebuild from `loaded` leaves in place of `before`. A
/// rebuild starts from nothing and swaps the result in whole, so nothing of
/// `before` is kept.
pub open spec fn snapshot_after<T>(
    before: Map<Seq<char>, T>,
    loaded: Seq<(String, Result<T, Error>)>,
) -> Map<Seq<char>, T> {
    loaded_map(loaded)
}

/// The cache of the documents of one directory.
pub struct CollectionWatcher<T> {
    directory: String,
    files: Snapshot<T>,
}

impl<T> View for CollectionWatcher<T> {
    type V = Map<Seq<char>, T>;

    /// The current snapshot: the documents by the paths of their files.
    closed spec fn view(&self) -> Map<Seq<char>, T> {
        self.files@
    }
}

impl<T> CollectionWatcher<T> {
    /// The directory whose documents the cache holds.
    pub closed spec fn root(&self) -> String {
        self.directory
    }

    /// A cache for the documents under `directory`, empty until the first
    /// rebuild.
    pub fn new(directory: String) -> (watcher: Self)
        ensures
            watcher.root() == directory,
            watcher@ == Map::<Seq<char>, T>::empty(),
    {
        CollectionWatcher { directory, files: Snapshot::new() }
    }

    /// The directory whose documents the cache holds.
    pub fn directory(&self) -> (directory: &String)
        ensures
            *directory == self.root(),
    {
        &self.directory
    }

    /// The current snapshot, for reading.
    pub fn read_collection(&self) -> (snapshot: &Snapshot<T>)
        ensures
            snapshot.wf(),
            snapshot@ == self@,
    {
        proof {
            use_type_invariant(&self.files);
        }
        &self.files
    }

    /// The paths of the documents among the entries that a walk of the
    /// directory yielded, in the order of the walk.
    pub fn all_files(&self, entries: Vec<WalkEntry>) -> (paths: Vec<String>)
        ensures
            texts(paths@) == document_paths(entries@),
    {
        select_documents(entries)
    }

    /// Replaces the snapshot by the one built from `loaded`, the outcome of
    /// loading each document of the directory, and returns the errors of the
    /// files that were skipped. Nothing of the snapshot before remains: the
    /// entry of a file that is gone is gone.
    pub fn update_all_files(&mut self, loaded: Vec<(String, Result<T, Error>)>) -> (skipped: Vec<
        Error,
    >)
        ensures
            final(self).root() == old(self).root(),
            final(self)@ == snapshot_after(old(self)@, loaded@),
            skipped@ == load_errors(loaded@),
    {
        let (fresh, skipped) = Snapshot::rebuilt(loaded);
        self.files = fresh;
        skipped
    }

    /// What a change of the given kind calls for: a rebuild where the kind
    /// qualifies, nothing otherwise.
    pub fn handle(&self, kind: EventKind) -> (action: WatchAction)
        ensures
            action == if kind.qualifies() {
                WatchAction::Rebuild
            } else {
                WatchAction::Wait
            },
    {
        match kind {
            EventKind::Modify | EventKind::Remove | EventKind::Access => WatchAction::Rebuild,
            EventKind::Create | EventKind::Other => WatchAction::Wait,
        }
    }

    /// The step that `watch` takes: the state after `event` and what is to be
    /// done. A start calls for the first rebuild; when it is done the
    /// directory is registered, with all that lies below it; a failure to
    /// register is final. Once watching, every qualifying change calls for
    /// one rebuild. An event that the state does not wait for changes nothing.
    pub open spec fn watch_step(&self, state: WatchState, event: WatchEvent) -> (
        WatchState,
        WatchAction,
    ) {
        match (state, event) {
            (WatchState::Created, WatchEvent::Start) => (WatchState::Loading, WatchAction::Rebuild),
            (WatchState::Loading, WatchEvent::Rebuilt) => (
                WatchState::Registering,
                WatchAction::Register { directory: self.root(), recursive: true },
            ),
            (WatchState::Registering, WatchEvent::Registered) => (
                WatchState::Watching,
                WatchAction::Wait,
            ),
            (WatchState::Registering, WatchEvent::RegistrationFailed(reason)) => (
                WatchState::Failed,
                WatchAction::Fail(Error::NotifyError(reason)),
            ),
            (WatchState::Watching, WatchEvent::Changed(kind)) => (
                WatchState::Watching,
                if kind.qualifies() {
                    WatchAction::Rebuild
                } else {
                    WatchAction::Wait
                },
            ),
            _ => (state, WatchAction::Wait),
        }
    }

    /// Takes one step of watching the directory: given the state and what
    /// happened, the next state and what is to be done.
    pub fn watch(&self, state: WatchState, event: WatchEvent) -> (step: (WatchState, WatchAction))
        ensures
            step == self.watch_step(state, event),
    {
        match (state, event) {
            (WatchState::Created, WatchEvent::Start) => (WatchState::Loading, WatchAction::Rebuild),
            (WatchState::Loading, WatchEvent::Rebuilt) => (
                WatchState::Registering,
                WatchAction::Register { directory: self.directory.clone(), recursive: true },
            ),
            (WatchState::Registering, WatchEvent::Registered) => (
                WatchState::Watching,
                WatchAction::Wait,
            ),
            (WatchState::Registering, WatchEvent::RegistrationFailed(reason)) => (
                WatchState::Failed,
                WatchAction::Fail(Error::NotifyError(reason)),
            ),
            (WatchState::Watching, WatchEvent::Changed(kind)) => (
                WatchState::Watching,
                self.handle(kind),
            ),
            (state, _) => (state, WatchAction::Wait),
        }
    }
}

/// Where every document of the directory is well formed, a rebuild skips
/// nothing and the snapshot holds exactly one entry for each path that the
/// walk recognized as a document's, under that path. Where the walk yielded no
/// path twice, the snapshot has as many entries as the walk found documents,
/// and each path leads to the document loaded from it.
pub proof fn law_one_entry_per_document<T>(
    before: Map<Seq<char>, T>,
    entries: Seq<WalkEntry>,
    loaded: Seq<(String, Result<T, Error>)>,
)
    requires
        loaded.len() == document_paths(entries).len(),
        forall|i: int| 0 <= i < loaded.len() ==> (#[trigger] loaded[i]).0@ == document_paths(entries)[i],
        forall|i: int| 0 <= i < loaded.len() ==> (#[trigger] loaded[i]).1 is Ok,
    ensures
        load_errors(loaded) == Seq::<Error>::empty(),
        snapshot_after(before, loaded).dom() == document_paths(entries).to_set(),
        document_paths(entries).no_duplicates() ==> {
            &&& snapshot_after(before, loaded).len() == document_paths(entries).len()
            &&& forall|i: int|
                0 <= i < loaded.len() ==> snapshot_after(before, loaded)[(#[trigger] loaded[i]).0@]
                    == loaded[i].1->Ok_0
        },
{
    let paths = document_paths(entries);
    lemma_loaded_map(loaded);
    lemma_no_errors(loaded);
    assert forall|p: Seq<char>| loaded_paths(loaded).contains(p) <==> paths.to_set().contains(
        p,
    ) by {
        if loaded_paths(loaded).contains(p) {
            let i = choose|i: int|
                0 <= i < loaded.len() && (#[trigger] loaded[i]).0@ == p && loaded[i].1 is Ok;
            assert(paths[i] == p);
        }
        if paths.contains(p) {
            let i = choose|i: int| 0 <= i < paths.len() && paths[i] == p;
            assert(loaded[i].0@ == p && loaded[i].1 is Ok);
        }
    }
    assert(loaded_paths(loaded) =~= paths.to_set());
    if paths.no_duplicates() {
        assert(distinct_paths(loaded));
        lemma_loaded_counts(loaded);
    }
}

/// Where every file was loaded into a document there are no errors.
proof fn lemma_no_errors<T>(loaded: Seq<(String, Result<T, Error>)>)
    requires
        forall|i: int| 0 <= i < loaded.len() ==> (#[trigger] loaded[i]).1 is Ok,
    ensures
        load_errors(loaded) == Seq::<Error>::empty(),
    decreases loaded.len(),
{
    if loaded.len() > 0 {
        let front = loaded.drop_last();
        assert forall|i: int| 0 <= i < front.len() implies (#[trigger] front[i]).1 is Ok by {
            assert(front[i] == loaded[i]);
        }
        lemma_no_errors(front);
        assert(loaded.last() == loaded[loaded.len() - 1]);
    }
}

/// A rebuild is idempotent: a second rebuild from the same files leaves the
/// snapshot that the first one left, whatever was held before.
pub proof fn law_rebuild_is_idempotent<T>(
    before: Map<Seq<char>, T>,
    loaded: Seq<(String, Result<T, Error>)>,
)
    ensures
        snapshot_after(snapshot_after(before, loaded), loaded) == snapshot_after(before, loaded),
{
}

/// A file that is gone leaves the snapshot with the next rebuild and stays
/// out of it: where no loaded file has the path, the snapshot holds nothing
/// under it after one rebuild nor after a second from the same files, though
/// it may have held it before.
pub proof fn law_removed_file_leaves<T>(
    before: Map<Seq<char>, T>,
    loaded: Seq<(String, Result<T, Error>)>,
    path: Seq<char>,
)
    requires
        forall|i: int| 0 <= i < loaded.len() ==> (#[trigger] loaded[i]).0@ != path,
    ensures
        !snapshot_after(before, loaded).contains_key(path),
        !snapshot_after(snapshot_after(before, loaded), loaded).contains_key(path),
{
    lemma_loaded_map(loaded);
}

/// A file that fails to load keeps no other file out of the snapshot. The
/// snapshot holds the paths of exactly the files that were loaded into a
/// document, and the errors of the others come back in their order. Where no
/// path occurs twice, the entries and the errors together are as many as the
/// files: of `n` well-formed files and one that is not, `n` entries remain.
pub proof fn law_malformed_file_is_skipped<T>(
    before: Map<Seq<char>, T>,
    loaded: Seq<(String, Result<T, Error>)>,
)
    ensures
        snapshot_after(before, loaded).dom() == loaded_paths(loaded),
        distinct_paths(loaded) ==> snapshot_after(before, loaded).len() + load_errors(loaded).len()
            == loaded.len(),
{
    lemma_loaded_map(loaded);
    if distinct_paths(loaded) {
        lemma_loaded_counts(loaded);
    }
}

} // verus!
