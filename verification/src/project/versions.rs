//! Versioning: every change of a chapter's text counts its version up and
//! puts the text so far into its history.

use crate::history::{history_of, read_history};
use crate::invariants::lemma_update_chapter_content_keeps_consistency;
use crate::layout::{
    content_file_path, history_dir, history_dir_path, version_file, version_file_path,
};
use crate::model::{restore_summary, snapshot_of, snapshot_ops, ProjectView};
use crate::project::NovelProject;
use crate::storage::{
    views, DirRead, DirReadView, Document, FileRead, HistoryFile, HistoryFileView, IoOperation,
    Missing, StorageOp, StoreError, StoreErrorView,
};
use crate::text::{count_words, push_decimal};
use crate::types::{Chapter, ChapterId, ChapterVersion, Timestamp, VersionView};
use vstd::prelude::*;

verus! {

impl ProjectView {
    /// The history of the chapter `id` as its history directory shows it,
    /// from the newest snapshot to the oldest; `NotFound` where the index has
    /// no such chapter.
    pub open spec fn version_history(self, id: ChapterId, history: DirReadView<HistoryFileView>)
        -> Result<Seq<VersionView>, StoreErrorView> {
        if !self.chapters.contains_key(id.0) {
            Err(StoreErrorView::NotFound(Missing::Chapter(id)))
        } else {
            history_of(self.chapters[id.0].dir_path, history)
        }
    }

    /// The project with the text of the chapter `id` replaced by that of
    /// the snapshot read for `version`.  `NotFound` where the index has no
    /// such chapter or there is no file for the version; the error of
    /// reading the file where it was not loaded.
    pub open spec fn restore_version(
        self,
        id: ChapterId,
        version: u32,
        snapshot: FileRead<VersionView>,
        now: Timestamp,
    ) -> Result<ProjectView, StoreErrorView> {
        if !self.chapters.contains_key(id.0) {
            Err(StoreErrorView::NotFound(Missing::Chapter(id)))
        } else {
            let path = version_file(self.chapters[id.0].dir_path, version as nat);
            match snapshot {
                FileRead::Absent => Err(StoreErrorView::NotFound(Missing::Version(id, version))),
                FileRead::Unreadable => Err(
                    StoreErrorView::Io { path, operation: IoOperation::Read },
                ),
                FileRead::Malformed => Err(StoreErrorView::Parse { path }),
                FileRead::Loaded(loaded) => Ok(
                    self.update_chapter_content(id, loaded.content, now),
                ),
            }
        }
    }
}

/// Restoring a version for which there is no file fails with `NotFound`.
pub proof fn lemma_restore_missing_version(
    project: ProjectView,
    id: ChapterId,
    version: u32,
    now: Timestamp,
)
    ensures
        project.restore_version(id, version, FileRead::Absent, now) matches Err(
            StoreErrorView::NotFound(missing),
        ) && missing == (if project.chapters.contains_key(id.0) {
            Missing::Version(id, version)
        } else {
            Missing::Chapter(id)
        }),
{
}

impl NovelProject {
    /// Lists the changes to the disk that put `content` into the history of
    /// `chapter`, stored in `dir_path`, as the text of its current version.
    pub fn save_version(
        chapter: &Chapter,
        content: String,
        summary: Option<String>,
        dir_path: &str,
        now: Timestamp,
    ) -> (ops: Vec<StorageOp>)
        ensures
            views(ops@) == snapshot_ops(
                dir_path@,
                snapshot_of(chapter@, content@, summary.deep_view(), now),
            ),
    {
        let version = ChapterVersion {
            version: chapter.current_version,
            content,
            word_count: chapter.word_count,
            summary: match summary {
                Some(s) => s,
                None => String::from_str("自动保存"),
            },
            timestamp: now,
        };
        let mut ops: Vec<StorageOp> = Vec::new();
        ops.push(StorageOp::CreateDir { path: history_dir_path(dir_path) });
        ops.push(
            StorageOp::Write {
                path: version_file_path(dir_path, version.version),
                document: Document::Snapshot(version),
            },
        );
        ops
    }

    /// Replaces the text of the chapter `id` and counts its version up.  The
    /// text so far goes into the history as the snapshot of the version so
    /// far, unless it is empty or the same as the new text.  Returns the
    /// changes to the disk: the snapshot, if any, then the chapter's content
    /// and metadata.  Does nothing where the index has no such chapter.
    pub fn update_chapter_content(
        &mut self,
        id: ChapterId,
        new_content: String,
        change_summary: Option<String>,
        now: Timestamp,
    ) -> (ops: Vec<StorageOp>)
        requires
            old(self)@.chapters.contains_key(id.0) ==> old(self)@.chapters[id.0].current_version
                < u32::MAX,
        ensures
            final(self)@ == old(self)@.update_chapter_content(id, new_content@, now),
            views(ops@) == old(self)@.update_chapter_content_ops(
                id,
                new_content@,
                change_summary.deep_view(),
                now,
            ),
            old(self)@.consistent() ==> final(self)@.consistent(),
    {
        broadcast use vstd::std_specs::hash::group_hash_axioms;

        proof {
            if self@.consistent() {
                lemma_update_chapter_content_keeps_consistency(self@, id, new_content@, now);
            }
        }
        let ghost index = self.chapters@;
        match self.chapters.remove(&id.0) {
            None => {
                assert(self.chapters@ =~= index);
                let ops: Vec<StorageOp> = Vec::new();
                ops
            },
            Some(mut chapter) => {
                let mut ops = if !chapter.content.as_str().is_empty() && !(chapter.content
                    == new_content) {
                    Self::save_version(
                        &chapter,
                        chapter.content.clone(),
                        change_summary,
                        chapter.dir_path.as_str(),
                        now,
                    )
                } else {
                    Vec::new()
                };
                chapter.word_count = count_words(new_content.as_str());
                chapter.content = new_content;
                chapter.modified_at = now;
                chapter.current_version = chapter.current_version + 1;
                ops.push(
                    StorageOp::Write {
                        path: content_file_path(chapter.dir_path.as_str()),
                        document: Document::ChapterContent(id),
                    },
                );
                ops.push(Self::save_chapter_metadata(&chapter, chapter.dir_path.as_str()));
                self.chapters.insert(id.0, chapter);
                self.modified_at = now;
                ops
            },
        }
    }

    /// The path of the history directory of the chapter `id`, or `NotFound`
    /// where the index has no such chapter.
    pub fn history_path(&self, id: ChapterId) -> (path: Result<String, StoreError>)
        ensures
            match path {
                Ok(path) => self@.chapters.contains_key(id.0) && path@ == history_dir(
                    self@.chapters[id.0].dir_path,
                ),
                Err(error) => !self@.chapters.contains_key(id.0) && error@
                    == StoreErrorView::NotFound(Missing::Chapter(id)),
            },
    {
        broadcast use vstd::std_specs::hash::group_hash_axioms;

        let ghost index = self.chapters@;
        match self.chapters.get(&id.0) {
            Some(chapter) => Ok(history_dir_path(chapter.dir_path.as_str())),
            None => Err(StoreError::NotFound(Missing::Chapter(id))),
        }
    }

    /// The path of the file that holds the snapshot of `version` of the
    /// chapter `id`, or `NotFound` where the index has no such chapter.
    pub fn snapshot_path(&self, id: ChapterId, version: u32) -> (path: Result<String, StoreError>)
        ensures
            match path {
                Ok(path) => self@.chapters.contains_key(id.0) && path@ == version_file(
                    self@.chapters[id.0].dir_path,
                    version as nat,
                ),
                Err(error) => !self@.chapters.contains_key(id.0) && error@
                    == StoreErrorView::NotFound(Missing::Chapter(id)),
            },
    {
        broadcast use vstd::std_specs::hash::group_hash_axioms;

        let ghost index = self.chapters@;
        match self.chapters.get(&id.0) {
            Some(chapter) => Ok(version_file_path(chapter.dir_path.as_str(), version)),
            None => Err(StoreError::NotFound(Missing::Chapter(id))),
        }
    }

    /// Gives the history of the chapter `id`, from the newest snapshot to
    /// the oldest, out of what was read from its history directory; empty
    /// where there is no such directory.  Fails with `NotFound` where the
    /// index has no such chapter, and with the error of the directory or of
    /// the first snapshot that could not be read.
    pub fn get_version_history(&self, id: ChapterId, history: DirRead<HistoryFile>) -> (read:
        Result<Vec<ChapterVersion>, StoreError>)
        ensures
            match read {
                Ok(versions) => self@.version_history(id, history@) == Ok::<
                    Seq<VersionView>,
                    StoreErrorView,
                >(views(versions@)),
                Err(error) => self@.version_history(id, history@) == Err::<
                    Seq<VersionView>,
                    StoreErrorView,
                >(error@),
            },
    {
        broadcast use vstd::std_specs::hash::group_hash_axioms;

        let ghost index = self.chapters@;
        match self.chapters.get(&id.0) {
            Some(chapter) => read_history(chapter.dir_path.as_str(), history),
            None => Err(StoreError::NotFound(Missing::Chapter(id))),
        }
    }

    /// Replaces the text of the chapter `id` by that of the snapshot read
    /// for `version`, as a change of its own: the text so far goes into the
    /// history and the version counts up.  Fails with `NotFound` where the
    /// index has no such chapter or there is no file for the version, and
    /// with the error of reading the file where it was not loaded; then the
    /// project stays as it is.
    pub fn restore_version(
        &mut self,
        id: ChapterId,
        version: u32,
        snapshot: FileRead<ChapterVersion>,
        now: Timestamp,
    ) -> (restored: Result<Vec<StorageOp>, StoreError>)
        requires
            snapshot is Loaded && old(self)@.chapters.contains_key(id.0)
                ==> old(self)@.chapters[id.0].current_version < u32::MAX,
        ensures
            match restored {
                Ok(ops) => {
                    &&& snapshot matches FileRead::Loaded(loaded)
                    &&& old(self)@.restore_version(id, version, snapshot@, now) == Ok::<
                        ProjectView,
                        StoreErrorView,
                    >(final(self)@)
                    &&& views(ops@) == old(self)@.update_chapter_content_ops(
                        id,
                        loaded@.content,
                        Some(restore_summary(version as nat)),
                        now,
                    )
                    &&& old(self)@.consistent() ==> final(self)@.consistent()
                },
                Err(error) => {
                    &&& final(self)@ == old(self)@
                    &&& old(self)@.restore_version(id, version, snapshot@, now) == Err::<
                        ProjectView,
                        StoreErrorView,
                    >(error@)
                },
            },
    {
        let path = match self.snapshot_path(id, version) {
            Ok(path) => path,
            Err(error) => {
                return Err(error);
            },
        };
        match snapshot {
            FileRead::Absent => Err(StoreError::NotFound(Missing::Version(id, version))),
            FileRead::Unreadable => Err(StoreError::Io { path, operation: IoOperation::Read }),
            FileRead::Malformed => Err(StoreError::Parse { path }),
            FileRead::Loaded(loaded) => {
                let mut summary = String::from_str("restored to version ");
                push_decimal(&mut summary, version as u64);
                Ok(self.update_chapter_content(id, loaded.content, Some(summary), now))
            },
        }
    }
}

} // verus!
