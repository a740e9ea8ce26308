//! The history of a chapter: the snapshots on disk, their names and their
//! order.

use crate::layout::{
    has_json_extension, history_dir, history_dir_path, is_json_file, join_path,
    parse_version_file_name, snapshot_version,
};
use crate::paths::history_file;
use crate::storage::{
    views, DirRead, DirReadView, FileRead, HistoryFile, HistoryFileView, IoOperation, StoreError,
    StoreErrorView,
};
use crate::types::{ChapterVersion, VersionView};
use vstd::prelude::*;

verus! {

/// The greatest version that a file among `names` is named for as a
/// snapshot, if any is.
pub open spec fn newest_version(names: Seq<Seq<char>>) -> Option<u32>
    decreases names.len(),
{
    if names.len() == 0 {
        None
    } else {
        let before = newest_version(names.drop_last());
        match snapshot_version(names.last()) {
            None => before,
            Some(version) => match before {
                Some(newest) if newest >= version => before,
                _ => Some(version),
            },
        }
    }
}

/// What `newest_version` gives is the version of one of the names and at
/// least that of every other; it gives none only where no name is that of a
/// snapshot.
pub proof fn lemma_newest_version(names: Seq<Seq<char>>)
    ensures
        match newest_version(names) {
            Some(newest) => {
                &&& exists|i: int|
                    0 <= i < names.len() && snapshot_version(#[trigger] names[i]) == Some(newest)
                &&& forall|i: int|
                    0 <= i < names.len() ==> (snapshot_version(#[trigger] names[i]) matches Some(
                        version,
                    ) ==> version <= newest)
            },
            None => forall|i: int|
                0 <= i < names.len() ==> snapshot_version(#[trigger] names[i]) is None,
        },
    decreases names.len(),
{
    if names.len() > 0 {
        let before = names.drop_last();
        lemma_newest_version(before);
        assert forall|i: int| 0 <= i < before.len() implies before[i] == names[i] by {}
        match newest_version(names) {
            Some(newest) => {
                if snapshot_version(names.last()) == Some(newest) {
                    assert(snapshot_version(names[names.len() - 1]) == Some(newest));
                } else {
                    let i = choose|i: int|
                        0 <= i < before.len() && snapshot_version(#[trigger] before[i]) == Some(
                            newest,
                        );
                    assert(snapshot_version(names[i]) == Some(newest));
                }
                assert forall|i: int| 0 <= i < names.len() implies (snapshot_version(
                    #[trigger] names[i],
                ) matches Some(version) ==> version <= newest) by {
                    if i < before.len() {
                        assert(before[i] == names[i]);
                    }
                }
            },
            None => {
                assert forall|i: int| 0 <= i < names.len() implies snapshot_version(
                    #[trigger] names[i],
                ) is None by {
                    if i < before.len() {
                        assert(before[i] == names[i]);
                    }
                }
            },
        }
    }
}

/// The version that a chapter stored in `dir` is at, going by its history
/// directory: 0 without snapshots, else one more than the newest of them.
/// Fails where the directory cannot be listed, or where the newest snapshot
/// has the greatest version there is.
pub open spec fn latest_version(dir: Seq<char>, history: DirReadView<Seq<char>>) -> Result<
    u32,
    StoreErrorView,
> {
    match history {
        DirReadView::Absent => Ok(0),
        DirReadView::Unreadable => Err(
            StoreErrorView::Io { path: history_dir(dir), operation: IoOperation::ReadDir },
        ),
        DirReadView::Listed(names) => match newest_version(names) {
            None => Ok(0),
            Some(newest) => if newest < u32::MAX {
                Ok((newest + 1) as u32)
            } else {
                Err(StoreErrorView::Parse { path: history_dir(dir) })
            },
        },
    }
}

/// Finds the greatest version that a file among `names` is named for.
pub fn find_newest_version(names: &Vec<String>) -> (newest: Option<u32>)
    ensures
        newest == newest_version(views(names@)),
{
    let mut newest: Option<u32> = None;
    let mut i: usize = 0;
    assert(views(names@).take(0) =~= Seq::empty());
    while i < names.len()
        invariant
            i <= names@.len(),
            newest == newest_version(views(names@).take(i as int)),
        decreases names.len() - i,
    {
        let parsed = parse_version_file_name(names[i].as_str());
        proof {
            let next = views(names@).take(i + 1);
            assert(next.drop_last() == views(names@).take(i as int));
            assert(next.last() == names@[i as int]@);
        }
        match parsed {
            Some(version) => {
                let keep = match newest {
                    Some(best) => best >= version,
                    None => false,
                };
                if !keep {
                    newest = Some(version);
                }
            },
            None => {},
        }
        i = i + 1;
    }
    assert(views(names@).take(names@.len() as int) == views(names@));
    newest
}

/// The version of a chapter told from its history is greater than that of
/// every snapshot in the history.
pub proof fn lemma_latest_version_exceeds(dir: Seq<char>, names: Seq<Seq<char>>)
    ensures
        latest_version(dir, DirReadView::Listed(names)) matches Ok(latest) ==> forall|i: int|
            0 <= i < names.len() ==> (snapshot_version(#[trigger] names[i]) matches Some(version)
                ==> version < latest),
{
    lemma_newest_version(names);
}

/// Where `version` goes in `sorted`, a list of versions from the newest to
/// the oldest: behind the last snapshot that is at least as new.
pub open spec fn slot(sorted: Seq<VersionView>, version: nat) -> int
    decreases sorted.len(),
{
    if sorted.len() == 0 {
        0
    } else if sorted.last().version >= version {
        sorted.len() as int
    } else {
        slot(sorted.drop_last(), version)
    }
}

/// `snapshots` from the newest to the oldest; snapshots of one version stay
/// in the order in which they stand.
pub open spec fn newest_first(snapshots: Seq<VersionView>) -> Seq<VersionView>
    decreases snapshots.len(),
{
    if snapshots.len() == 0 {
        Seq::empty()
    } else {
        let sorted = newest_first(snapshots.drop_last());
        sorted.insert(slot(sorted, snapshots.last().version), snapshots.last())
    }
}

/// Whether `snapshots` stand from the newest to the oldest.
pub open spec fn is_newest_first(snapshots: Seq<VersionView>) -> bool {
    forall|i: int, j: int|
        0 <= i < j < snapshots.len() ==> snapshots[i].version >= snapshots[j].version
}

/// The slot of a version lies within the list; before it stands nothing
/// older than the version, where the list is sorted, and from it on only
/// what is older.
pub proof fn lemma_slot(sorted: Seq<VersionView>, version: nat)
    ensures
        0 <= slot(sorted, version) <= sorted.len(),
        forall|i: int| slot(sorted, version) <= i < sorted.len() ==> sorted[i].version < version,
        is_newest_first(sorted) ==> forall|i: int|
            0 <= i < slot(sorted, version) ==> sorted[i].version >= version,
    decreases sorted.len(),
{
    if sorted.len() > 0 {
        let shorter = sorted.drop_last();
        lemma_slot(shorter, version);
        if sorted.last().version >= version {
        } else {
            assert forall|i: int| slot(sorted, version) <= i < sorted.len() implies sorted[i].version
                < version by {
                if i < shorter.len() {
                    assert(shorter[i] == sorted[i]);
                }
            }
            if is_newest_first(sorted) {
                assert(is_newest_first(shorter)) by {
                    assert forall|i: int, j: int| 0 <= i < j < shorter.len() implies shorter[i].version
                        >= shorter[j].version by {
                        assert(shorter[i] == sorted[i] && shorter[j] == sorted[j]);
                    }
                }
                assert forall|i: int| 0 <= i < slot(sorted, version) implies sorted[i].version
                    >= version by {
                    assert(shorter[i] == sorted[i]);
                }
            }
        }
    }
}

/// `newest_first` gives the same snapshots, each as often as it was given,
/// from the newest to the oldest.
pub proof fn lemma_newest_first(snapshots: Seq<VersionView>)
    ensures
        newest_first(snapshots).len() == snapshots.len(),
        newest_first(snapshots).to_multiset() == snapshots.to_multiset(),
        is_newest_first(newest_first(snapshots)),
    decreases snapshots.len(),
{
    broadcast use vstd::seq_lib::group_to_multiset_ensures;

    if snapshots.len() > 0 {
        let shorter = snapshots.drop_last();
        let last = snapshots.last();
        lemma_newest_first(shorter);
        let sorted = newest_first(shorter);
        lemma_slot(sorted, last.version);
        let at = slot(sorted, last.version);
        let result = sorted.insert(at, last);
        assert(snapshots == shorter.push(last));
        sorted.insert_ensures(at, last);
        assert(result.to_multiset() == sorted.to_multiset().insert(last)) by {
            let front = sorted.subrange(0, at);
            let back = sorted.subrange(at, sorted.len() as int);
            vstd::seq_lib::lemma_multiset_commutative(front.push(last), back);
            vstd::seq_lib::lemma_multiset_commutative(front, back);
            assert(front + back == sorted);
        }
        assert forall|i: int, j: int| 0 <= i < j < result.len() implies result[i].version
            >= result[j].version by {
            let a = if i < at { sorted[i] } else if i == at { last } else { sorted[i - 1] };
            let b = if j < at { sorted[j] } else if j == at { last } else { sorted[j - 1] };
            assert(result[i] == a && result[j] == b);
        }
    }
}

/// Puts `snapshot` into `sorted` at its slot.
fn insert_snapshot(sorted: &mut Vec<ChapterVersion>, snapshot: ChapterVersion)
    ensures
        views(final(sorted)@) == views(old(sorted)@).insert(
            slot(views(old(sorted)@), snapshot@.version),
            snapshot@,
        ),
{
    let ghost before = views(sorted@);
    let mut at: usize = sorted.len();
    assert(before.take(at as int) == before);
    while at > 0 && sorted[at - 1].version < snapshot.version
        invariant
            at <= sorted@.len(),
            before == views(sorted@),
            slot(before, snapshot@.version) == slot(before.take(at as int), snapshot@.version),
        decreases at,
    {
        proof {
            let prefix = before.take(at as int);
            assert(prefix.last() == sorted@[at - 1]@);
            assert(prefix.drop_last() == before.take(at - 1));
        }
        at = at - 1;
    }
    proof {
        let prefix = before.take(at as int);
        if at > 0 {
            assert(prefix.last() == sorted@[at - 1]@);
        }
        assert(slot(prefix, snapshot@.version) == at);
        crate::storage::lemma_views_insert(sorted@, at as int, snapshot);
    }
    sorted.insert(at, snapshot);
}

/// The error that a file of the history directory gives where its snapshot
/// was not loaded.
pub open spec fn snapshot_error(dir: Seq<char>, file: HistoryFileView) -> StoreErrorView {
    match file.snapshot {
        FileRead::Malformed => StoreErrorView::Parse { path: history_file(dir, file.name) },
        _ => StoreErrorView::Io { path: history_file(dir, file.name), operation: IoOperation::Read },
    }
}

/// The snapshots of the files in `files` with the extension `json`, in the
/// order of `files`; the error of the first of these files whose snapshot
/// was not loaded.
pub open spec fn listed_snapshots(dir: Seq<char>, files: Seq<HistoryFileView>) -> Result<
    Seq<VersionView>,
    StoreErrorView,
>
    decreases files.len(),
{
    if files.len() == 0 {
        Ok(Seq::empty())
    } else {
        match listed_snapshots(dir, files.drop_last()) {
            Err(error) => Err(error),
            Ok(snapshots) => {
                let file = files.last();
                if !has_json_extension(file.name) {
                    Ok(snapshots)
                } else {
                    match file.snapshot {
                        FileRead::Loaded(snapshot) => Ok(snapshots.push(snapshot)),
                        _ => Err(snapshot_error(dir, file)),
                    }
                }
            },
        }
    }
}

/// The history of the chapter stored in `dir`, from the newest snapshot to
/// the oldest: empty without a history directory, the error where the
/// directory or one of its snapshots cannot be read.
pub open spec fn history_of(dir: Seq<char>, history: DirReadView<HistoryFileView>) -> Result<
    Seq<VersionView>,
    StoreErrorView,
> {
    match history {
        DirReadView::Absent => Ok(Seq::empty()),
        DirReadView::Unreadable => Err(
            StoreErrorView::Io { path: history_dir(dir), operation: IoOperation::ReadDir },
        ),
        DirReadView::Listed(files) => match listed_snapshots(dir, files) {
            Err(error) => Err(error),
            Ok(snapshots) => Ok(newest_first(snapshots)),
        },
    }
}

/// Orders the snapshots read from the history directory of the chapter
/// stored in `dir_path` from the newest to the oldest.
pub fn read_history(dir_path: &str, history: DirRead<HistoryFile>) -> (read: Result<
    Vec<ChapterVersion>,
    StoreError,
>)
    ensures
        match read {
            Ok(versions) => history_of(dir_path@, history@) == Ok::<
                Seq<VersionView>,
                StoreErrorView,
            >(views(versions@)),
            Err(error) => history_of(dir_path@, history@) == Err::<
                Seq<VersionView>,
                StoreErrorView,
            >(error@),
        },
{
    let mut versions: Vec<ChapterVersion> = Vec::new();
    match history {
        DirRead::Absent => {
            assert(views(versions@) =~= Seq::empty());
            Ok(versions)
        },
        DirRead::Unreadable => Err(
            StoreError::Io { path: history_dir_path(dir_path), operation: IoOperation::ReadDir },
        ),
        DirRead::Listed(files) => {
            let ghost all = views(files@);
            let ghost listed = files@;
            let ghost mut taken: Seq<VersionView> = Seq::empty();
            assert(all.take(0) =~= Seq::empty());
            assert(views(versions@) =~= Seq::empty());
            for file in it: files
                invariant
                    it.seq() == listed,
                    all == views(listed),
                    history@ == DirReadView::Listed(all),
                    listed_snapshots(dir_path@, all.take(it.index() as int)) == Ok::<
                        Seq<VersionView>,
                        StoreErrorView,
                    >(taken),
                    views(versions@) == newest_first(taken),
            {
                proof {
                    let next = all.take(it.index() + 1);
                    assert(next.drop_last() == all.take(it.index() as int));
                    assert(next.last() == file@);
                    lemma_listed_snapshots_failed(dir_path@, all, it.index() + 1);
                }
                if is_json_file(file.name.as_str()) {
                    match file.snapshot {
                        FileRead::Loaded(snapshot) => {
                            proof {
                                assert(taken.push(snapshot@).drop_last() == taken);
                                taken = taken.push(snapshot@);
                            }
                            insert_snapshot(&mut versions, snapshot);
                        },
                        FileRead::Malformed => {
                            let history = history_dir_path(dir_path);
                            return Err(
                                StoreError::Parse {
                                    path: join_path(history.as_str(), file.name.as_str()),
                                },
                            );
                        },
                        _ => {
                            let history = history_dir_path(dir_path);
                            return Err(
                                StoreError::Io {
                                    path: join_path(history.as_str(), file.name.as_str()),
                                    operation: IoOperation::Read,
                                },
                            );
                        },
                    }
                }
            }
            assert(all.take(all.len() as int) == all);
            Ok(versions)
        },
    }
}

/// Once reading the snapshots has failed at some file, it has failed with
/// the same error for every longer listing.
pub proof fn lemma_listed_snapshots_failed(dir: Seq<char>, files: Seq<HistoryFileView>, n: int)
    requires
        0 <= n <= files.len(),
    ensures
        listed_snapshots(dir, files.take(n)) is Err ==> listed_snapshots(dir, files)
            == listed_snapshots(dir, files.take(n)),
    decreases files.len() - n,
{
    if n < files.len() {
        lemma_listed_snapshots_failed(dir, files, n + 1);
        assert(files.take(n + 1).drop_last() == files.take(n));
    } else {
        assert(files.take(n) == files);
    }
}

} // verus!
