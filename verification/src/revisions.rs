//! What a series of rewrites makes of a chapter and of its history.

use crate::history::{
    history_of, lemma_newest_first, listed_snapshots, newest_first,
};
use crate::layout::{lemma_version_file_name_roundtrip, version_file_name};
use crate::model::{snapshot_of, takes_snapshot, ProjectView};
use crate::storage::{DirReadView, FileRead, HistoryFileView};
use crate::types::{ChapterId, Timestamp, VersionView};
use vstd::prelude::*;

verus! {

/// One rewrite of a chapter: the new text, the summary given for the
/// change, and the time.
pub struct Rewrite {
    pub content: Seq<char>,
    pub summary: Option<Seq<char>>,
    pub now: Timestamp,
}

impl ProjectView {
    /// The project after the text of the chapter `id` was replaced by each
    /// of `rewrites`, one after another.
    pub open spec fn rewrite(self, id: ChapterId, rewrites: Seq<Rewrite>) -> ProjectView
        decreases rewrites.len(),
    {
        if rewrites.len() == 0 {
            self
        } else {
            self.rewrite(id, rewrites.drop_last()).update_chapter_content(
                id,
                rewrites.last().content,
                rewrites.last().now,
            )
        }
    }

    /// The snapshots that `rewrites` of the chapter `id` put into its
    /// history, in the order in which they are written.
    pub open spec fn rewrite_snapshots(self, id: ChapterId, rewrites: Seq<Rewrite>) -> Seq<
        VersionView,
    >
        decreases rewrites.len(),
    {
        if rewrites.len() == 0 {
            Seq::empty()
        } else {
            let earlier = self.rewrite_snapshots(id, rewrites.drop_last());
            let chapter = self.rewrite(id, rewrites.drop_last()).chapters[id.0];
            let last = rewrites.last();
            if takes_snapshot(chapter, last.content) {
                earlier.push(snapshot_of(chapter, chapter.content, last.summary, last.now))
            } else {
                earlier
            }
        }
    }
}

/// The files of a history directory that holds `snapshots`, each in the
/// file named for its version.
pub open spec fn history_files(snapshots: Seq<VersionView>) -> Seq<HistoryFileView> {
    snapshots.map_values(
        |snapshot: VersionView|
            HistoryFileView {
                name: version_file_name(snapshot.version),
                snapshot: FileRead::Loaded(snapshot),
            },
    )
}

/// Whether each of `rewrites` brings a text that is not empty and differs
/// from the one before it.
pub open spec fn each_differs(rewrites: Seq<Rewrite>) -> bool {
    &&& forall|i: int| 0 <= i < rewrites.len() ==> (#[trigger] rewrites[i]).content.len() > 0
    &&& forall|i: int|
        0 < i < rewrites.len() ==> (#[trigger] rewrites[i]).content != rewrites[i - 1].content
}

/// Every rewrite counts the version of the chapter up by one and leaves
/// the chapter with the text that it brought.
pub proof fn lemma_rewrite_counts_versions(
    project: ProjectView,
    id: ChapterId,
    rewrites: Seq<Rewrite>,
)
    requires
        project.chapters.contains_key(id.0),
    ensures
        project.rewrite(id, rewrites).chapters.contains_key(id.0),
        project.rewrite(id, rewrites).chapters[id.0].current_version
            == project.chapters[id.0].current_version + rewrites.len(),
        project.rewrite(id, rewrites).chapters[id.0].dir_path == project.chapters[id.0].dir_path,
        rewrites.len() > 0 ==> project.rewrite(id, rewrites).chapters[id.0].content
            == rewrites.last().content,
        rewrites.len() == 0 ==> project.rewrite(id, rewrites).chapters[id.0].content
            == project.chapters[id.0].content,
    decreases rewrites.len(),
{
    if rewrites.len() > 0 {
        lemma_rewrite_counts_versions(project, id, rewrites.drop_last());
    }
}

/// Of the rewrites of a chapter whose text is empty, each of them bringing
/// a text that is not empty and differs from the one before it, every one
/// but the first puts the text before it into the history, under the
/// version that this text was: the history gets one snapshot less than
/// there are rewrites.
pub proof fn lemma_rewrite_snapshots(project: ProjectView, id: ChapterId, rewrites: Seq<Rewrite>)
    requires
        project.chapters.contains_key(id.0),
        project.chapters[id.0].content.len() == 0,
        rewrites.len() > 0,
        each_differs(rewrites),
    ensures
        project.rewrite_snapshots(id, rewrites).len() == rewrites.len() - 1,
        forall|i: int|
            0 <= i < rewrites.len() - 1 ==> (#[trigger] project.rewrite_snapshots(
                id,
                rewrites,
            )[i]).version == project.chapters[id.0].current_version + i + 1
                && project.rewrite_snapshots(id, rewrites)[i].content == rewrites[i].content,
    decreases rewrites.len(),
{
    let earlier = rewrites.drop_last();
    lemma_rewrite_counts_versions(project, id, earlier);
    let chapter = project.rewrite(id, earlier).chapters[id.0];
    if earlier.len() == 0 {
        assert(!takes_snapshot(chapter, rewrites.last().content));
        assert(project.rewrite_snapshots(id, earlier) =~= Seq::empty());
    } else {
        assert(each_differs(earlier)) by {
            assert forall|i: int| 0 <= i < earlier.len() implies (
            #[trigger] earlier[i]).content.len() > 0 by {
                assert(earlier[i] == rewrites[i]);
            }
            assert forall|i: int| 0 < i < earlier.len() implies (#[trigger] earlier[i]).content
                != earlier[i - 1].content by {
                assert(earlier[i] == rewrites[i]);
                assert(earlier[i - 1] == rewrites[i - 1]);
            }
        }
        lemma_rewrite_snapshots(project, id, earlier);
        let n = rewrites.len() as int;
        assert(earlier.last() == rewrites[n - 2]);
        assert(rewrites[n - 1].content != rewrites[n - 2].content);
        assert(rewrites[n - 2].content.len() > 0);
        assert(chapter.content == rewrites[n - 2].content);
        assert(takes_snapshot(chapter, rewrites.last().content));
        let snapshots = project.rewrite_snapshots(id, rewrites);
        let before = project.rewrite_snapshots(id, earlier);
        assert forall|i: int| 0 <= i < rewrites.len() - 1 implies (#[trigger] snapshots[i]).version
            == project.chapters[id.0].current_version + i + 1 && snapshots[i].content
            == rewrites[i].content by {
            if i < n - 2 {
                assert(snapshots[i] == before[i]);
                assert(earlier[i] == rewrites[i]);
            }
        }
    }
}

/// A history directory that holds snapshots in the files named for their
/// versions is read as these snapshots, from the newest to the oldest.
pub proof fn lemma_history_files_are_read(dir: Seq<char>, snapshots: Seq<VersionView>)
    requires
        forall|i: int| 0 <= i < snapshots.len() ==> (#[trigger] snapshots[i]).version <= u32::MAX,
    ensures
        listed_snapshots(dir, history_files(snapshots)) == Ok::<
            Seq<VersionView>,
            crate::storage::StoreErrorView,
        >(snapshots),
        history_of(dir, DirReadView::Listed(history_files(snapshots))) == Ok::<
            Seq<VersionView>,
            crate::storage::StoreErrorView,
        >(newest_first(snapshots)),
        newest_first(snapshots).len() == snapshots.len(),
    decreases snapshots.len(),
{
    lemma_newest_first(snapshots);
    if snapshots.len() > 0 {
        let before = snapshots.drop_last();
        assert forall|i: int| 0 <= i < before.len() implies (#[trigger] before[i]).version
            <= u32::MAX by {
            assert(before[i] == snapshots[i]);
        }
        lemma_history_files_are_read(dir, before);
        let files = history_files(snapshots);
        assert(files.drop_last() =~= history_files(before));
        lemma_version_file_name_roundtrip(snapshots.last().version as u32);
        assert(files.last().name == version_file_name(snapshots.last().version));
        assert(files.last().snapshot == FileRead::Loaded(snapshots.last()));
        assert(before.push(snapshots.last()) == snapshots);
    } else {
        assert(snapshots =~= Seq::empty());
        assert(newest_first(snapshots) =~= Seq::empty());
    }
}

/// After the rewrites of a new chapter, each of them bringing a text that
/// is not empty and differs from the one before it, the version of the
/// chapter is the number of rewrites, every snapshot in its history is of a
/// version before that, and the history read back from disk has one
/// snapshot less than there were rewrites.
pub proof fn lemma_history_after_rewrites(
    project: ProjectView,
    id: ChapterId,
    rewrites: Seq<Rewrite>,
)
    requires
        project.chapters.contains_key(id.0),
        project.chapters[id.0].content.len() == 0,
        project.chapters[id.0].current_version == 0,
        0 < rewrites.len() <= u32::MAX,
        each_differs(rewrites),
    ensures
        project.rewrite(id, rewrites).chapters[id.0].current_version == rewrites.len(),
        forall|i: int|
            0 <= i < project.rewrite_snapshots(id, rewrites).len() ==> (
            #[trigger] project.rewrite_snapshots(id, rewrites)[i]).version < rewrites.len(),
        project.rewrite(id, rewrites).version_history(
            id,
            DirReadView::Listed(history_files(project.rewrite_snapshots(id, rewrites))),
        ) matches Ok(history) && history.len() == rewrites.len() - 1,
{
    lemma_rewrite_counts_versions(project, id, rewrites);
    lemma_rewrite_snapshots(project, id, rewrites);
    let snapshots = project.rewrite_snapshots(id, rewrites);
    lemma_history_files_are_read(project.chapters[id.0].dir_path, snapshots);
}

} // verus!
