//! The snapshot of a collection: each document under the path of its file.

use vstd::prelude::*;

verus! {

/// A mapping from the paths of files to the documents read from them. No path
/// is held twice; the entries keep the order in which their paths first came.
pub struct Snapshot<T> {
    entries: Vec<(String, T)>,
}

impl<T> View for Snapshot<T> {
    type V = Map<Seq<char>, T>;

    /// The snapshot as a map from a path's text to the document held under it.
    open spec fn view(&self) -> Map<Seq<char>, T> {
        Map::new(
            |path: Seq<char>| self.paths().contains(path),
            |path: Seq<char>| self.documents()[self.paths().index_of(path)],
        )
    }
}

impl<T> Snapshot<T> {
    /// No path is held twice. Every snapshot that the library hands out is
    /// well formed.
    #[verifier::type_invariant]
    pub closed spec fn wf(&self) -> bool {
        self.paths().no_duplicates()
    }

    /// The paths held, in the order in which they first came.
    pub closed spec fn paths(&self) -> Seq<Seq<char>> {
        self.entries@.map_values(|e: (String, T)| e.0@)
    }

    /// The documents held, each at the place of its path in `paths`.
    pub closed spec fn documents(&self) -> Seq<T> {
        self.entries@.map_values(|e: (String, T)| e.1)
    }

    /// The paths are pairwise distinct and each has its document, so the
    /// snapshot holds as many entries as it has paths.
    pub proof fn lemma_entries(&self)
        requires
            self.wf(),
        ensures
            self.paths().no_duplicates(),
            self.documents().len() == self.paths().len(),
            self@.dom() == self.paths().to_set(),
            self@.dom().finite(),
            self@.len() == self.paths().len(),
            forall|i: int|
                0 <= i < self.paths().len() ==> self@.contains_key(#[trigger] self.paths()[i])
                    && self@[self.paths()[i]] == self.documents()[i],
    {
        broadcast use vstd::seq_lib::seq_to_set_is_finite;

        let paths = self.paths();
        assert(self@.dom() =~= paths.to_set());
        paths.unique_seq_to_set();
        assert forall|i: int| 0 <= i < paths.len() implies self@.contains_key(#[trigger] paths[i])
            && self@[paths[i]] == self.documents()[i] by {
            assert(paths.contains(paths[i]));
            assert(paths.index_of(paths[i]) == i);
        }
    }

    /// The empty snapshot.
    pub fn new() -> (snapshot: Self)
        ensures
            snapshot.wf(),
            snapshot@ == Map::<Seq<char>, T>::empty(),
            snapshot.paths() == Seq::<Seq<char>>::empty(),
    {
        let snapshot = Snapshot { entries: Vec::new() };
        proof {
            assert(snapshot.paths() =~= Seq::<Seq<char>>::empty());
            assert(snapshot@ =~= Map::<Seq<char>, T>::empty());
        }
        snapshot
    }

    /// The number of documents held.
    pub fn len(&self) -> (n: usize)
        ensures
            n == self@.len(),
            n == self.paths().len(),
    {
        proof {
            use_type_invariant(self);
            self.lemma_entries();
        }
        self.entries.len()
    }

    /// Whether no document is held.
    pub fn is_empty(&self) -> (empty: bool)
        ensures
            empty == (self@.len() == 0),
    {
        self.len() == 0
    }

    /// Where `path` stands among the paths, if it is held.
    fn position(&self, path: &String) -> (at: Option<usize>)
        ensures
            match at {
                Some(i) => i < self.paths().len() && self.paths()[i as int] == path@,
                None => !self.paths().contains(path@),
            },
    {
        let mut i: usize = 0;
        while i < self.entries.len()
            invariant
                i <= self.entries@.len(),
                forall|k: int| 0 <= k < i ==> self.paths()[k] != path@,
            decreases self.entries.len() - i,
        {
            if self.entries[i].0 == *path {
                return Some(i);
            }
            i = i + 1;
        }
        None
    }

    /// Whether a document is held under `path`.
    pub fn contains_key(&self, path: &str) -> (held: bool)
        ensures
            held == self@.contains_key(path@),
    {
        let key = path.to_owned();
        self.position(&key).is_some()
    }

    /// The document held under `path`, if there is one.
    pub fn get(&self, path: &str) -> (found: Option<&T>)
        ensures
            match found {
                Some(document) => self@.contains_key(path@) && *document == self@[path@],
                None => !self@.contains_key(path@),
            },
    {
        proof {
            use_type_invariant(self);
            self.lemma_entries();
        }
        let key = path.to_owned();
        match self.position(&key) {
            Some(i) => Some(&self.entries[i].1),
            None => None,
        }
    }

    /// The path of the entry at place `i`.
    pub fn path_at(&self, i: usize) -> (path: &String)
        requires
            i < self.paths().len(),
        ensures
            path@ == self.paths()[i as int],
    {
        &self.entries[i].0
    }

    /// The document of the entry at place `i`.
    pub fn document_at(&self, i: usize) -> (document: &T)
        requires
            i < self.paths().len(),
        ensures
            *document == self.documents()[i as int],
            self@.contains_key(self.paths()[i as int]),
            *document == self@[self.paths()[i as int]],
    {
        proof {
            use_type_invariant(self);
            self.lemma_entries();
        }
        &self.entries[i].1
    }

    /// Puts `document` under `path`. What was held under that path before
    /// is dropped; every other entry stays.
    pub fn insert(&mut self, path: String, document: T)
        ensures
            final(self).wf(),
            final(self)@ == old(self)@.insert(path@, document),
            old(self)@.contains_key(path@) ==> final(self).paths() == old(self).paths(),
            !old(self)@.contains_key(path@) ==> final(self).paths() == old(self).paths().push(path@),
    {
        proof {
            use_type_invariant(&*self);
            self.lemma_entries();
        }
        let ghost before = *self;
        let at = self.position(&path);
        let mut held: Snapshot<T> = Snapshot::new();
        std::mem::swap(self, &mut held);
        let mut entries = held.entries;
        match at {
            Some(i) => {
                entries[i] = (path, document);
                proof {
                    assert(entries@.map_values(|e: (String, T)| e.0@) =~= before.paths());
                }
                *self = Snapshot { entries };
                proof {
                    assert(self.paths() =~= before.paths());
                    assert(self.documents() =~= before.documents().update(i as int, document));
                    assert forall|p: Seq<char>| self@.contains_key(p) implies #[trigger] self@[p]
                        == before@.insert(path@, document)[p] by {
                        let k = self.paths().index_of(p);
                        assert(self.paths()[k] == p);
                    }
                    assert(self@ =~= before@.insert(path@, document));
                }
            },
            None => {
                entries.push((path, document));
                proof {
                    let paths = entries@.map_values(|e: (String, T)| e.0@);
                    assert(paths =~= before.paths().push(path@));
                    assert forall|i: int, j: int|
                        0 <= i < paths.len() && 0 <= j < paths.len() && i != j implies paths[i]
                        != paths[j] by {
                        if i < before.paths().len() {
                            assert(before.paths().contains(paths[i]));
                        }
                        if j < before.paths().len() {
                            assert(before.paths().contains(paths[j]));
                        }
                    }
                }
                *self = Snapshot { entries };
                proof {
                    assert(self.paths() =~= before.paths().push(path@));
                    assert(self.documents() =~= before.documents().push(document));
                    let n = before.paths().len() as int;
                    assert forall|p: Seq<char>| self.paths().contains(p) <==> (p == path@
                        || before.paths().contains(p)) by {
                        if self.paths().contains(p) {
                            let k = self.paths().index_of(p);
                            assert(self.paths()[k] == p);
                            if k < n {
                                assert(before.paths()[k] == p);
                            }
                        }
                        if before.paths().contains(p) {
                            let k = before.paths().index_of(p);
                            assert(self.paths()[k] == p);
                        }
                        if p == path@ {
                            assert(self.paths()[n] == p);
                        }
                    }
                    assert forall|p: Seq<char>| self@.contains_key(p) implies #[trigger] self@[p]
                        == before@.insert(path@, document)[p] by {
                        let k = self.paths().index_of(p);
                        assert(self.paths()[k] == p);
                        if k < n {
                            assert(before.paths()[k] == p);
                            let kb = before.paths().index_of(p);
                            assert(before.paths()[kb] == p);
                        }
                    }
                    assert(self@ =~= before@.insert(path@, document));
                }
            },
        }
    }
}

} // verus!
