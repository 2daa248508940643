//! The sweep that removes the records of files that are gone.
//!
//! Each round, the store lists the paths it holds a record of, each path is
//! looked up on disk, and the records of the paths that are not there are
//! deleted. Which records those are is decided here.

use crate::queue::texts;
use vstd::prelude::*;

verus! {

/// Whether the file of the path at index `i` was looked up and not found.
pub open spec fn is_gone(present: Seq<bool>, i: int) -> bool {
    0 <= i < present.len() && !present[i]
}

/// The paths among `paths` whose files are gone, in order.
pub open spec fn gone_among(paths: Seq<Seq<char>>, present: Seq<bool>) -> Seq<Seq<char>>
    decreases paths.len(),
{
    if paths.len() == 0 {
        Seq::<Seq<char>>::empty()
    } else if is_gone(present, paths.len() - 1) {
        gone_among(paths.drop_last(), present).push(paths.last())
    } else {
        gone_among(paths.drop_last(), present)
    }
}

/// For each of `paths`, whether its file is on a disk that holds `on_disk`.
pub open spec fn presence(paths: Seq<Seq<char>>, on_disk: Set<Seq<char>>) -> Seq<bool> {
    Seq::new(paths.len(), |i: int| on_disk.contains(paths[i]))
}

/// The records that a sweep deletes, where the store holds `paths` and the
/// disk holds `on_disk`.
pub open spec fn swept(paths: Seq<Seq<char>>, on_disk: Set<Seq<char>>) -> Seq<Seq<char>> {
    gone_among(paths, presence(paths, on_disk))
}

/// The paths that the store holds after the records of `deleted` are
/// removed from `paths`.
pub open spec fn records_after(paths: Seq<Seq<char>>, deleted: Seq<Seq<char>>) -> Seq<Seq<char>>
    decreases paths.len(),
{
    if paths.len() == 0 {
        Seq::<Seq<char>>::empty()
    } else if deleted.contains(paths.last()) {
        records_after(paths.drop_last(), deleted)
    } else {
        records_after(paths.drop_last(), deleted).push(paths.last())
    }
}

/// A sweep deletes exactly the records whose files are gone.
pub proof fn lemma_gone_among(paths: Seq<Seq<char>>, present: Seq<bool>, path: Seq<char>)
    ensures
        gone_among(paths, present).contains(path) <==> exists|i: int|
            0 <= i < paths.len() && paths[i] == path && #[trigger] is_gone(present, i),
    decreases paths.len(),
{
    if paths.len() > 0 {
        let shorter = paths.drop_last();
        let before = gone_among(shorter, present);
        let all = gone_among(paths, present);
        let top = paths.len() - 1;
        lemma_gone_among(shorter, present, path);
        if all.contains(path) {
            let k = choose|k: int| 0 <= k < all.len() && all[k] == path;
            if k < before.len() {
                assert(before[k] == path);
                assert(before.contains(path));
                let i = choose|i: int|
                    0 <= i < shorter.len() && shorter[i] == path && #[trigger] is_gone(present, i);
                assert(paths[i] == path && is_gone(present, i));
            } else {
                assert(paths[top] == path && is_gone(present, top));
            }
        }
        if exists|i: int| 0 <= i < paths.len() && paths[i] == path && #[trigger] is_gone(present, i) {
            let i = choose|i: int|
                0 <= i < paths.len() && paths[i] == path && #[trigger] is_gone(present, i);
            if i < top {
                assert(shorter[i] == path && is_gone(present, i));
                assert(before.contains(path));
                let k = choose|k: int| 0 <= k < before.len() && before[k] == path;
                assert(all[k] == path);
            } else {
                assert(all[all.len() - 1] == path);
            }
        }
    }
}

/// What is left after a deletion was held before and is not among the
/// deleted.
pub proof fn lemma_records_after(paths: Seq<Seq<char>>, deleted: Seq<Seq<char>>, i: int)
    requires
        0 <= i < records_after(paths, deleted).len(),
    ensures
        paths.contains(records_after(paths, deleted)[i]),
        !deleted.contains(records_after(paths, deleted)[i]),
    decreases paths.len(),
{
    let shorter = paths.drop_last();
    let before = records_after(shorter, deleted);
    if i < before.len() {
        lemma_records_after(shorter, deleted, i);
        let k = choose|k: int| 0 <= k < shorter.len() && shorter[k] == before[i];
        assert(paths[k] == before[i]);
    } else {
        assert(paths[paths.len() - 1] == paths.last());
    }
}

/// Where every file is there, a sweep deletes nothing.
pub proof fn lemma_nothing_gone(paths: Seq<Seq<char>>, present: Seq<bool>)
    requires
        forall|i: int| 0 <= i < paths.len() ==> !is_gone(present, i),
    ensures
        gone_among(paths, present) == Seq::<Seq<char>>::empty(),
    decreases paths.len(),
{
    if paths.len() > 0 {
        lemma_nothing_gone(paths.drop_last(), present);
    }
}

/// A sweep that follows another deletes nothing, where neither the disk
/// nor the store has changed between them but by the first one's deletions.
pub proof fn lemma_second_sweep_deletes_nothing(paths: Seq<Seq<char>>, on_disk: Set<Seq<char>>)
    ensures
        swept(records_after(paths, swept(paths, on_disk)), on_disk) == Seq::<Seq<char>>::empty(),
{
    let deleted = swept(paths, on_disk);
    let left = records_after(paths, deleted);
    let flags = presence(left, on_disk);
    assert forall|i: int| 0 <= i < left.len() implies !is_gone(flags, i) by {
        lemma_records_after(paths, deleted, i);
        let k = choose|k: int| 0 <= k < paths.len() && paths[k] == left[i];
        lemma_gone_among(paths, presence(paths, on_disk), left[i]);
        if !on_disk.contains(left[i]) {
            assert(is_gone(presence(paths, on_disk), k));
        }
    }
    lemma_nothing_gone(left, flags);
}

/// Picks the records to delete: those of the paths whose files were looked
/// up and not found. `present[i]` says whether the file of `db_filepaths[i]`
/// is there; a path without a flag is left alone.
pub fn remove_old_records(db_filepaths: &Vec<String>, present: &Vec<bool>) -> (doomed: Vec<String>)
    ensures
        texts(doomed@) == gone_among(texts(db_filepaths@), present@),
{
    let ghost all = texts(db_filepaths@);
    let mut doomed: Vec<String> = Vec::new();
    let mut i: usize = 0;
    proof {
        assert(all.take(0) =~= Seq::<Seq<char>>::empty());
        assert(texts(doomed@) =~= Seq::<Seq<char>>::empty());
    }
    while i < db_filepaths.len()
        invariant
            i <= db_filepaths.len(),
            all == texts(db_filepaths@),
            texts(doomed@) == gone_among(all.take(i as int), present@),
        decreases db_filepaths.len() - i,
    {
        proof {
            assert(all.take(i + 1).drop_last() =~= all.take(i as int));
            assert(all.take(i + 1).last() == db_filepaths[i as int]@);
        }
        if i < present.len() && !present[i] {
            let ghost before = doomed@;
            doomed.push(db_filepaths[i].clone());
            assert(texts(doomed@) =~= texts(before).push(db_filepaths[i as int]@));
        }
        i += 1;
    }
    assert(all.take(i as int) =~= all);
    doomed
}

} // verus!
