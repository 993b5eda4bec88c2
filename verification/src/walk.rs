//! What a walk of a directory yields, and which of it names a document.

use crate::text::{chars_of, texts};
use vstd::prelude::*;

verus! {

/// One entry of a walk through a directory tree.
#[derive(Debug, PartialEq, Eq)]
pub enum WalkEntry {
    /// An entry that was found, with its path.
    Found(String),
    /// An entry that could not be read; the text says why.
    Unreadable(String),
}

/// The suffix by which a document is recognized: a dot and the extension.
pub open spec fn document_suffix() -> Seq<char> {
    seq!['.', 'y', 'm', 'l']
}

/// A path names a document when its last component is a non-empty stem
/// followed by the document suffix.
pub open spec fn is_document_path(path: Seq<char>) -> bool {
    let n = path.len() as int;
    &&& n >= 5
    &&& path[n - 5] != '/'
    &&& path.subrange(n - 4, n) == document_suffix()
}

/// The paths of documents among the entries of a walk, in the order of the
/// walk. Unreadable entries and entries that name no document are left out.
pub open spec fn document_paths(entries: Seq<WalkEntry>) -> Seq<Seq<char>>
    decreases entries.len(),
{
    if entries.len() == 0 {
        Seq::empty()
    } else {
        let earlier = document_paths(entries.drop_last());
        match entries.last() {
            WalkEntry::Found(path) => if is_document_path(path@) {
                earlier.push(path@)
            } else {
                earlier
            },
            WalkEntry::Unreadable(_) => earlier,
        }
    }
}

/// Whether the entry was found under `path`.
pub open spec fn is_found(entry: WalkEntry, path: Seq<char>) -> bool {
    match entry {
        WalkEntry::Found(found) => found@ == path,
        WalkEntry::Unreadable(_) => false,
    }
}

/// A walk selects exactly the documents it found: a path is among the
/// selected ones if and only if some entry was found under it and it names a
/// document. An unreadable entry stops nothing: what was found before and
/// after it is selected all the same.
pub proof fn law_walk_selects_documents(entries: Seq<WalkEntry>, path: Seq<char>)
    ensures
        document_paths(entries).contains(path) <==> (is_document_path(path) && exists|i: int|
            0 <= i < entries.len() && is_found(#[trigger] entries[i], path)),
    decreases entries.len(),
{
    if entries.len() > 0 {
        let front = entries.drop_last();
        let n = entries.len() - 1;
        let selected = document_paths(entries);
        law_walk_selects_documents(front, path);
        if exists|i: int| 0 <= i < front.len() && is_found(#[trigger] front[i], path) {
            let i = choose|i: int| 0 <= i < front.len() && is_found(#[trigger] front[i], path);
            assert(entries[i] == front[i]);
        }
        if exists|i: int| 0 <= i < entries.len() && is_found(#[trigger] entries[i], path) {
            let i = choose|i: int| 0 <= i < entries.len() && is_found(#[trigger] entries[i], path);
            if i < n {
                assert(front[i] == entries[i]);
            }
        }
        if document_paths(front).contains(path) {
            let k = choose|k: int|
                0 <= k < document_paths(front).len() && document_paths(front)[k] == path;
            assert(selected[k] == path);
        }
        if selected.contains(path) && !document_paths(front).contains(path) {
            let k = choose|k: int| 0 <= k < selected.len() && selected[k] == path;
            if k < document_paths(front).len() {
                assert(document_paths(front)[k] == path);
            }
            assert(is_found(entries[n], path));
        }
        if is_found(entries[n], path) && is_document_path(path) {
            assert(selected[selected.len() - 1] == path);
        }
    }
}

/// Decides whether `path` names a document.
pub fn names_document(path: &str) -> (named: bool)
    ensures
        named == is_document_path(path@),
{
    let chars = chars_of(path);
    let n: usize = chars.len();
    if n < 5 {
        return false;
    }
    let named = chars[n - 5] != '/' && chars[n - 4] == '.' && chars[n - 3] == 'y' && chars[n - 2]
        == 'm' && chars[n - 1] == 'l';
    proof {
        let tail = path@.subrange(n - 4, n as int);
        if named {
            assert(tail =~= document_suffix());
        } else if path@[n - 5] != '/' {
            assert(tail[0] == path@[n - 4]);
            assert(tail[1] == path@[n - 3]);
            assert(tail[2] == path@[n - 2]);
            assert(tail[3] == path@[n - 1]);
            assert(document_suffix()[0] == '.');
            assert(document_suffix()[1] == 'y');
            assert(document_suffix()[2] == 'm');
            assert(document_suffix()[3] == 'l');
        }
    }
    named
}

/// Picks the paths of documents out of the entries of a walk.
pub fn select_documents(entries: Vec<WalkEntry>) -> (paths: Vec<String>)
    ensures
        texts(paths@) == document_paths(entries@),
{
    let ghost input = entries@;
    let mut rest = entries;
    let mut paths: Vec<String> = Vec::new();
    let ghost mut taken: int = 0;
    proof {
        assert(texts(paths@) =~= document_paths(input.subrange(0, 0)));
    }
    while rest.len() > 0
        invariant
            0 <= taken <= input.len(),
            rest@ == input.subrange(taken, input.len() as int),
            texts(paths@) == document_paths(input.subrange(0, taken)),
        decreases rest.len(),
    {
        let entry = rest.remove(0);
        proof {
            assert(entry == input[taken]);
            assert(input.subrange(0, taken + 1).drop_last() =~= input.subrange(0, taken));
            assert(rest@ =~= input.subrange(taken + 1, input.len() as int));
        }
        let ghost before = paths@;
        match entry {
            WalkEntry::Found(path) => {
                if names_document(path.as_str()) {
                    paths.push(path);
                    proof {
                        assert(texts(paths@) =~= texts(before).push(path@));
                    }
                }
            },
            WalkEntry::Unreadable(_) => {},
        }
        proof {
            taken = taken + 1;
        }
    }
    proof {
        assert(input.subrange(0, taken) =~= input);
    }
    paths
}

} // verus!
