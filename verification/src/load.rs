//! Building a snapshot from what the loader read.

use crate::error::Error;
use crate::snapshot::Snapshot;
use vstd::prelude::*;

verus! {

/// The paths of the files that were loaded into a document, whatever came of
/// the others.
pub open spec fn loaded_paths<T>(loaded: Seq<(String, Result<T, Error>)>) -> Set<Seq<char>> {
    Set::new(
        |path: Seq<char>|
            exists|i: int| 0 <= i < loaded.len() && (#[trigger] loaded[i]).0@ == path && loaded[i].1 is Ok,
    )
}

/// The snapshot that a pass over `loaded` leaves: each file that was loaded
/// into a document stands under its path, a later one in place of an earlier
/// one of the same path; a file that failed to load leaves no trace.
pub open spec fn loaded_map<T>(loaded: Seq<(String, Result<T, Error>)>) -> Map<Seq<char>, T>
    decreases loaded.len(),
{
    if loaded.len() == 0 {
        Map::empty()
    } else {
        let earlier = loaded_map(loaded.drop_last());
        match loaded.last().1 {
            Ok(document) => earlier.insert(loaded.last().0@, document),
            Err(_) => earlier,
        }
    }
}

/// The errors of the files that failed to load, in the order of `loaded`.
pub open spec fn load_errors<T>(loaded: Seq<(String, Result<T, Error>)>) -> Seq<Error>
    decreases loaded.len(),
{
    if loaded.len() == 0 {
        Seq::empty()
    } else {
        let earlier = load_errors(loaded.drop_last());
        match loaded.last().1 {
            Ok(_) => earlier,
            Err(error) => earlier.push(error),
        }
    }
}

/// No path occurs twice in `loaded`.
pub open spec fn distinct_paths<T>(loaded: Seq<(String, Result<T, Error>)>) -> bool {
    forall|i: int, j: int|
        0 <= i < j < loaded.len() ==> (#[trigger] loaded[i]).0@ != (#[trigger] loaded[j]).0@
}

/// The snapshot holds exactly the paths of the files that were loaded into a
/// document, and under each the document of the last such file.
pub proof fn lemma_loaded_map<T>(loaded: Seq<(String, Result<T, Error>)>)
    ensures
        loaded_map(loaded).dom() == loaded_paths(loaded),
        loaded_map(loaded).dom().finite(),
        forall|i: int|
            0 <= i < loaded.len() && (#[trigger] loaded[i]).1 is Ok && (forall|j: int|
                i < j < loaded.len() ==> (#[trigger] loaded[j]).0@ != loaded[i].0@ || loaded[j].1 is Err)
                ==> loaded_map(loaded)[loaded[i].0@] == loaded[i].1->Ok_0,
    decreases loaded.len(),
{
    if loaded.len() == 0 {
        assert(loaded_map(loaded).dom() =~= loaded_paths(loaded));
    } else {
        let front = loaded.drop_last();
        let n = loaded.len() - 1;
        lemma_loaded_map(front);
        assert forall|p: Seq<char>| loaded_map(loaded).dom().contains(p) <==> loaded_paths(
            loaded,
        ).contains(p) by {
            if loaded_paths(front).contains(p) {
                let i = choose|i: int|
                    0 <= i < front.len() && (#[trigger] front[i]).0@ == p && front[i].1 is Ok;
                assert(loaded[i].0@ == p && loaded[i].1 is Ok);
            }
            if loaded_paths(loaded).contains(p) {
                let i = choose|i: int|
                    0 <= i < loaded.len() && (#[trigger] loaded[i]).0@ == p && loaded[i].1 is Ok;
                if i < n {
                    assert(front[i].0@ == p && front[i].1 is Ok);
                }
            }
            if loaded[n].1 is Ok && loaded[n].0@ == p {
                assert(loaded_paths(loaded).contains(p));
            }
        }
        assert(loaded_map(loaded).dom() =~= loaded_paths(loaded));
        assert forall|i: int|
            0 <= i < loaded.len() && (#[trigger] loaded[i]).1 is Ok && (forall|j: int|
                i < j < loaded.len() ==> (#[trigger] loaded[j]).0@ != loaded[i].0@ || loaded[j].1 is Err) implies loaded_map(
            loaded,
        )[loaded[i].0@] == loaded[i].1->Ok_0 by {
            if i < n {
                assert(front[i] == loaded[i]);
                assert forall|j: int| i < j < front.len() implies (#[trigger] front[j]).0@
                    != front[i].0@ || front[j].1 is Err by {
                    assert(front[j] == loaded[j]);
                }
                assert(loaded[n].0@ != loaded[i].0@ || loaded[n].1 is Err);
            }
        }
    }
}

/// Where no path occurs twice, every loaded file is either in the snapshot
/// or among the errors: their counts add up to the number of files.
pub proof fn lemma_loaded_counts<T>(loaded: Seq<(String, Result<T, Error>)>)
    requires
        distinct_paths(loaded),
    ensures
        loaded_map(loaded).dom().finite(),
        loaded_map(loaded).len() + load_errors(loaded).len() == loaded.len(),
    decreases loaded.len(),
{
    lemma_loaded_map(loaded);
    if loaded.len() > 0 {
        let front = loaded.drop_last();
        let n = loaded.len() - 1;
        assert(distinct_paths(front)) by {
            assert forall|i: int, j: int| 0 <= i < j < front.len() implies (#[trigger] front[i]).0@
                != (#[trigger] front[j]).0@ by {
                assert(front[i] == loaded[i] && front[j] == loaded[j]);
            }
        }
        lemma_loaded_counts(front);
        lemma_loaded_map(front);
        if loaded[n].1 is Ok {
            let p = loaded[n].0@;
            if loaded_paths(front).contains(p) {
                let i = choose|i: int|
                    0 <= i < front.len() && (#[trigger] front[i]).0@ == p && front[i].1 is Ok;
                assert(loaded[i].0@ == loaded[n].0@);
            }
            assert(!loaded_map(front).dom().contains(p));
        }
    }
}

impl<T> Snapshot<T> {
    /// Builds a fresh snapshot from what the loader read and returns it with
    /// the errors of the files that were skipped. The files are taken in
    /// order; one that failed to load is skipped and does not hide the
    /// others.
    pub fn rebuilt(loaded: Vec<(String, Result<T, Error>)>) -> (out: (Snapshot<T>, Vec<Error>))
        ensures
            out.0.wf(),
            out.0@ == loaded_map(loaded@),
            out.1@ == load_errors(loaded@),
    {
        let ghost input = loaded@;
        let mut rest = loaded;
        let mut snapshot: Snapshot<T> = Snapshot::new();
        let mut skipped: Vec<Error> = Vec::new();
        let ghost mut taken: int = 0;
        proof {
            assert(skipped@ =~= load_errors(input.subrange(0, 0)));
        }
        while rest.len() > 0
            invariant
                0 <= taken <= input.len(),
                rest@ == input.subrange(taken, input.len() as int),
                snapshot.wf(),
                snapshot@ == loaded_map(input.subrange(0, taken)),
                skipped@ == load_errors(input.subrange(0, taken)),
            decreases rest.len(),
        {
            let entry = rest.remove(0);
            proof {
                assert(entry == input[taken]);
                assert(input.subrange(0, taken + 1).drop_last() =~= input.subrange(0, taken));
                assert(input.subrange(0, taken + 1).last() == input[taken]);
                assert(rest@ =~= input.subrange(taken + 1, input.len() as int));
            }
            let (path, outcome) = entry;
            match outcome {
                Ok(document) => {
                    snapshot.insert(path, document);
                },
                Err(error) => {
                    skipped.push(error);
                },
            }
            proof {
                taken = taken + 1;
            }
        }
        proof {
            assert(input.subrange(0, taken) =~= input);
        }
        (snapshot, skipped)
    }
}

} // verus!
