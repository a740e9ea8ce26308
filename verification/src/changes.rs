//! Sequences of changes to a project, and what holds after every one of
//! them.

use crate::invariants::{
    lemma_create_chapter_keeps_consistency, lemma_create_volume_keeps_consistency,
    lemma_delete_chapter_keeps_consistency, lemma_delete_volume_keeps_consistency,
    lemma_rename_chapter_keeps_consistency, lemma_rename_volume_keeps_consistency,
    lemma_reorder_keeps_consistency, lemma_update_chapter_content_keeps_consistency,
    lemma_update_chapter_status_keeps_consistency, lemma_volume_lists_its_chapters,
};
use crate::disk::{
    lemma_create_chapter_keeps_step, lemma_create_volume_keeps_step,
    lemma_delete_chapter_keeps_step, lemma_delete_volume_keeps_step, lemma_directory_iff_chapter,
    lemma_rename_chapter_keeps_step, lemma_rename_volume_keeps_step, lemma_reorder_keeps_step,
    lemma_update_chapter_content_keeps_step, lemma_update_chapter_status_keeps_step, DiskView,
};
use crate::layout::chapter_dir;
use crate::model::{fresh_id, is_fresh_id, lemma_fresh_id, ProjectView};
use crate::storage::StorageOpView;
use crate::types::{ChapterId, ChapterStatus, Timestamp, VolumeId};
use vstd::prelude::*;

verus! {

/// A change to a project that creates, deletes, renames, reorders or
/// rewrites.
pub enum Change {
    CreateVolume { id: VolumeId, title: Seq<char>, now: Timestamp },
    DeleteVolume { id: VolumeId, now: Timestamp },
    RenameVolume { id: VolumeId, title: Seq<char>, now: Timestamp },
    CreateChapter { title: Seq<char>, volume_id: VolumeId, now: Timestamp },
    DeleteChapter { id: ChapterId, now: Timestamp },
    RenameChapter { id: ChapterId, title: Seq<char>, now: Timestamp },
    UpdateChapterStatus { id: ChapterId, status: ChapterStatus, now: Timestamp },
    UpdateChapterContent { id: ChapterId, content: Seq<char>, now: Timestamp },
    ReorderChapters { volume_id: VolumeId, ids: Seq<ChapterId>, now: Timestamp },
}

impl ProjectView {
    /// The project after `change`; a change that fails leaves the project
    /// as it is.
    pub open spec fn apply(self, change: Change) -> ProjectView {
        match change {
            Change::CreateVolume { id, title, now } => self.create_volume(id, title, now),
            Change::DeleteVolume { id, now } => self.delete_volume(id, now),
            Change::RenameVolume { id, title, now } => self.rename_volume(id, title, now),
            Change::CreateChapter { title, volume_id, now } => match self.create_chapter_in(
                title,
                volume_id,
                now,
            ) {
                Ok(after) => after,
                Err(_) => self,
            },
            Change::DeleteChapter { id, now } => self.delete_chapter(id, now),
            Change::RenameChapter { id, title, now } => self.rename_chapter(id, title, now),
            Change::UpdateChapterStatus { id, status, now } => self.update_chapter_status(
                id,
                status,
                now,
            ),
            Change::UpdateChapterContent { id, content, now } => self.update_chapter_content(
                id,
                content,
                now,
            ),
            Change::ReorderChapters { volume_id, ids, now } => match self.reorder_chapters_in_volume(
                volume_id,
                ids,
                now,
            ) {
                Ok(after) => after,
                Err(_) => self,
            },
        }
    }

    /// Whether `change` is one that keeps a consistent project consistent:
    /// a new volume has an identifier that no volume has, a new chapter can
    /// get an identifier, and a new order of a volume lists each of the
    /// volume's chapters once.
    pub open spec fn admits(self, change: Change) -> bool {
        match change {
            Change::CreateVolume { id, .. } => self.volume_index(id) is None,
            Change::CreateChapter { .. } => exists|n: u64| is_fresh_id(self.chapters, n),
            Change::ReorderChapters { volume_id, ids, .. } => self.volume_index(
                volume_id,
            ) matches Some(v) ==> ids.no_duplicates() && ids.to_set()
                == self.volumes[v].chapter_ids.to_set(),
            _ => true,
        }
    }

    /// The project after `changes`, one after another.
    pub open spec fn apply_all(self, changes: Seq<Change>) -> ProjectView
        decreases changes.len(),
    {
        if changes.len() == 0 {
            self
        } else {
            self.apply_all(changes.drop_last()).apply(changes.last())
        }
    }

    /// Whether each of `changes` is admitted by the project that it is
    /// applied to.
    pub open spec fn admits_all(self, changes: Seq<Change>) -> bool
        decreases changes.len(),
    {
        changes.len() == 0 || (self.admits_all(changes.drop_last()) && self.apply_all(
            changes.drop_last(),
        ).admits(changes.last()))
    }
}

/// A change that a consistent project admits leaves it consistent.
pub proof fn lemma_change_keeps_consistency(project: ProjectView, change: Change)
    requires
        project.consistent(),
        project.admits(change),
    ensures
        project.apply(change).consistent(),
{
    match change {
        Change::CreateVolume { id, title, now } => {
            lemma_create_volume_keeps_consistency(project, id, title, now);
        },
        Change::DeleteVolume { id, now } => {
            lemma_delete_volume_keeps_consistency(project, id, now);
        },
        Change::RenameVolume { id, title, now } => {
            lemma_rename_volume_keeps_consistency(project, id, title, now);
        },
        Change::CreateChapter { title, volume_id, now } => {
            let n = choose|n: u64| is_fresh_id(project.chapters, n);
            lemma_create_chapter_keeps_consistency(project, title, volume_id, now, n);
        },
        Change::DeleteChapter { id, now } => {
            lemma_delete_chapter_keeps_consistency(project, id, now);
        },
        Change::RenameChapter { id, title, now } => {
            lemma_rename_chapter_keeps_consistency(project, id, title, now);
        },
        Change::UpdateChapterStatus { id, status, now } => {
            lemma_update_chapter_status_keeps_consistency(project, id, status, now);
        },
        Change::UpdateChapterContent { id, content, now } => {
            lemma_update_chapter_content_keeps_consistency(project, id, content, now);
        },
        Change::ReorderChapters { volume_id, ids, now } => {
            lemma_reorder_keeps_consistency(project, volume_id, ids, now);
        },
    }
}

/// After every sequence of changes that a consistent project admits one
/// after another, the project is consistent: every volume lists as many
/// chapters as belong to it, the cached order of every chapter is its
/// position in its volume's list, and the orders of the volumes, like those
/// of the chapters of each volume, are 0, 1, 2 and so on without a gap.
pub proof fn lemma_changes_keep_consistency(project: ProjectView, changes: Seq<Change>)
    requires
        project.consistent(),
        project.admits_all(changes),
    ensures
        project.apply_all(changes).consistent(),
        forall|v: int|
            0 <= v < project.apply_all(changes).volumes.len() ==> (
            #[trigger] project.apply_all(changes).volumes[v]).chapter_ids.len()
                == project.apply_all(changes).owned_by(
                project.apply_all(changes).volumes[v].id,
            ).len(),
    decreases changes.len(),
{
    if changes.len() > 0 {
        lemma_changes_keep_consistency(project, changes.drop_last());
        lemma_change_keeps_consistency(project.apply_all(changes.drop_last()), changes.last());
    }
    let after = project.apply_all(changes);
    assert forall|v: int| 0 <= v < after.volumes.len() implies (
    #[trigger] after.volumes[v]).chapter_ids.len() == after.owned_by(after.volumes[v].id).len() by {
        lemma_volume_lists_its_chapters(after, v);
    }
}

impl ProjectView {
    /// The changes to the disk that `change` asks for.
    pub open spec fn ops_of(self, change: Change) -> Seq<StorageOpView> {
        match change {
            Change::CreateVolume { .. } => self.save_ops(),
            Change::DeleteVolume { id, .. } => self.delete_volume_ops(id),
            Change::RenameVolume { id, .. } => self.rename_volume_ops(id),
            Change::CreateChapter { title, volume_id, now } => match self.create_chapter_in(
                title,
                volume_id,
                now,
            ) {
                Ok(_) => self.create_chapter_ops(fresh_id(self.chapters)),
                Err(_) => Seq::empty(),
            },
            Change::DeleteChapter { id, .. } => self.delete_chapter_ops(id),
            Change::RenameChapter { id, .. } => self.chapter_metadata_ops(id),
            Change::UpdateChapterStatus { id, .. } => self.chapter_metadata_ops(id),
            Change::UpdateChapterContent { id, content, now } => self.update_chapter_content_ops(
                id,
                content,
                None,
                now,
            ),
            Change::ReorderChapters { volume_id, ids, now } => match self.reorder_chapters_in_volume(
                volume_id,
                ids,
                now,
            ) {
                Ok(_) => self.reorder_ops(volume_id),
                Err(_) => Seq::empty(),
            },
        }
    }
}

impl DiskView {
    /// The disk after the changes that each of `changes` to `project` asks
    /// for were carried out, one change after another.
    pub open spec fn follow(self, project: ProjectView, changes: Seq<Change>) -> DiskView
        decreases changes.len(),
    {
        if changes.len() == 0 {
            self
        } else {
            let before = project.apply_all(changes.drop_last());
            self.follow(project, changes.drop_last()).carry_out_all(
                before.apply(changes.last()),
                before.ops_of(changes.last()),
            )
        }
    }
}

/// Carrying out what a change asks for keeps disk and project in step.
pub proof fn lemma_change_keeps_step(disk: DiskView, project: ProjectView, change: Change)
    requires
        disk.in_step(project),
        project.placed(),
        project.keyed(),
        project.admits(change),
    ensures
        disk.carry_out_all(project.apply(change), project.ops_of(change)).in_step(
            project.apply(change),
        ),
        project.apply(change).placed(),
{
    match change {
        Change::CreateVolume { id, title, now } => {
            lemma_create_volume_keeps_step(disk, project, id, title, now);
        },
        Change::DeleteVolume { id, now } => {
            lemma_delete_volume_keeps_step(disk, project, id, now);
        },
        Change::RenameVolume { id, title, now } => {
            lemma_rename_volume_keeps_step(disk, project, id, title, now);
        },
        Change::CreateChapter { title, volume_id, now } => {
            let n = choose|n: u64| is_fresh_id(project.chapters, n);
            lemma_fresh_id(project.chapters, n);
            lemma_create_chapter_keeps_step(disk, project, title, volume_id, now, n);
        },
        Change::DeleteChapter { id, now } => {
            lemma_delete_chapter_keeps_step(disk, project, id, now);
        },
        Change::RenameChapter { id, title, now } => {
            lemma_rename_chapter_keeps_step(disk, project, id, title, now);
        },
        Change::UpdateChapterStatus { id, status, now } => {
            lemma_update_chapter_status_keeps_step(disk, project, id, status, now);
        },
        Change::UpdateChapterContent { id, content, now } => {
            lemma_update_chapter_content_keeps_step(disk, project, id, content, None, now);
        },
        Change::ReorderChapters { volume_id, ids, now } => {
            lemma_reorder_keeps_step(disk, project, volume_id, ids, now);
        },
    }
}

/// After every sequence of changes that a consistent project admits one
/// after another, each carried out on disk, disk and project are in step:
/// the storage directory of a chapter exists if and only if the project
/// has the chapter.
pub proof fn lemma_changes_keep_step(disk: DiskView, project: ProjectView, changes: Seq<Change>)
    requires
        disk.in_step(project),
        project.placed(),
        project.consistent(),
        project.admits_all(changes),
    ensures
        disk.follow(project, changes).in_step(project.apply_all(changes)),
        project.apply_all(changes).placed(),
        project.apply_all(changes).consistent(),
        forall|id: ChapterId|
            disk.follow(project, changes).holds(
                #[trigger] chapter_dir(project.root_path, id),
            ) <==> project.apply_all(changes).chapters.contains_key(id.0),
        project.apply_all(changes).root_path == project.root_path,
    decreases changes.len(),
{
    if changes.len() > 0 {
        let earlier = changes.drop_last();
        lemma_changes_keep_step(disk, project, earlier);
        lemma_changes_keep_consistency(project, earlier);
        lemma_change_keeps_step(disk.follow(project, earlier), project.apply_all(earlier), changes.last());
        lemma_change_keeps_consistency(project.apply_all(earlier), changes.last());
    }
    let after = project.apply_all(changes);
    assert forall|id: ChapterId|
        disk.follow(project, changes).holds(#[trigger] chapter_dir(project.root_path, id))
            <==> after.chapters.contains_key(id.0) by {
        lemma_directory_iff_chapter(disk.follow(project, changes), after, id);
    }
}

} // verus!
