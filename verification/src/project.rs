//! The project store: the volumes and chapters of a writing project, and the
//! operations on them.
//!
//! The store works in memory.  An operation that changes the project returns
//! the changes to the disk that go with it; an operation that depends on the
//! disk is handed what was read there.  Reading the clock is left to the
//! caller, who passes the time of each change as `now`.

pub mod chapters;
pub mod loading;
pub mod queries;
pub mod versions;
pub mod volumes;

use crate::layout::{
    chapters_dir_path, characters_file_path, drafts_dir_path, metadata_dir_path, plot_file_path,
    project_file_path, world_file_path,
};
use crate::ident::is_random_uuid;

use crate::model::{volume_has_id, ProjectView};
use crate::seqs::{equals, lemma_find_first, position};
use crate::storage::{views, Document, StorageOp};
use crate::types::{
    Chapter, ChapterId, ChapterView, NovelSettings, SettingsView, Timestamp, Volume, VolumeId,
};
use std::collections::HashMap;
use vstd::prelude::*;

verus! {

/// A writing project: ordered volumes of ordered chapters, with settings.
#[derive(Clone, Debug)]
pub struct NovelProject {
    /// Root directory of the project.
    pub root_path: String,
    /// Project title.
    pub title: String,
    /// The volumes, in order.
    pub volumes: Vec<Volume>,
    /// The chapter index, by the number of each chapter's identifier.  The
    /// order of the chapters is that of their volumes' lists.
    pub chapters: HashMap<u64, Chapter>,
    /// Characters, world and plot.
    pub settings: NovelSettings,
    /// Project creation time.
    pub created_at: Timestamp,
    /// Last modification time.
    pub modified_at: Timestamp,
}

/// The views of the chapters of an index.
pub open spec fn chapter_views(index: Map<u64, Chapter>) -> Map<u64, ChapterView> {
    index.map_values(|c: Chapter| c@)
}

/// Putting a chapter into an index puts its view into the views.
pub proof fn lemma_chapter_views_insert(index: Map<u64, Chapter>, k: u64, chapter: Chapter)
    ensures
        chapter_views(index.insert(k, chapter)) == chapter_views(index).insert(k, chapter@),
{
}

/// Taking a chapter out of an index takes its view out of the views.
pub proof fn lemma_chapter_views_remove(index: Map<u64, Chapter>, k: u64)
    ensures
        chapter_views(index.remove(k)) == chapter_views(index).remove(k),
{
}

impl View for NovelProject {
    type V = ProjectView;

    open spec fn view(&self) -> ProjectView {
        ProjectView {
            root_path: self.root_path@,
            title: self.title@,
            volumes: views(self.volumes@),
            chapters: chapter_views(self.chapters@),
            settings: self.settings@,
            created_at: self.created_at,
            modified_at: self.modified_at,
        }
    }
}

/// Finds the first position of `id` in `ids`.
pub fn find_chapter_id(ids: &Vec<ChapterId>, id: ChapterId) -> (found: Option<usize>)
    ensures
        match found {
            Some(i) => i < ids@.len() && ids@[i as int] == id && position(ids@, id) == Some(
                i as int,
            ),
            None => position(ids@, id) is None && !ids@.contains(id),
        },
{
    let mut i: usize = 0;
    while i < ids.len()
        invariant
            i <= ids@.len(),
            forall|j: int| 0 <= j < i ==> ids@[j] != id,
        decreases ids.len() - i,
    {
        if ids[i] == id {
            proof {
                lemma_find_first(ids@, equals(id), i as int);
            }
            return Some(i);
        }
        i = i + 1;
    }
    None
}

impl NovelProject {
    /// Creates a project with one empty default volume, whose identifier is
    /// drawn at random.
    pub fn new(root_path: String, title: String, now: Timestamp) -> (project: NovelProject)
        ensures
            project@.volumes.len() == 1,
            is_random_uuid(project@.volumes[0].id.0),
            project@ == ProjectView::fresh(
                root_path@,
                title@,
                project@.volumes[0].id,
                SettingsView::empty(),
                now,
            ),
            project@.consistent(),
    {
        Self::with_default_volume(root_path, title, VolumeId::default(), now)
    }

    /// Creates a project with one empty default volume `volume_id`.
    pub fn with_default_volume(
        root_path: String,
        title: String,
        volume_id: VolumeId,
        now: Timestamp,
    ) -> (project: NovelProject)
        ensures
            project@ == ProjectView::fresh(
                root_path@,
                title@,
                volume_id,
                SettingsView::empty(),
                now,
            ),
            project@.consistent(),
    {
        broadcast use vstd::std_specs::hash::group_hash_axioms;

        let volume = Volume {
            id: volume_id,
            title: String::from_str("Volume 1"),
            order: 0,
            chapter_ids: Vec::new(),
            description: String::new(),
            created_at: now,
            modified_at: now,
        };
        let mut volumes: Vec<Volume> = Vec::new();
        volumes.push(volume);
        let project = NovelProject {
            root_path,
            title,
            volumes,
            chapters: HashMap::new(),
            settings: NovelSettings::default(),
            created_at: now,
            modified_at: now,
        };
        project
    }

    /// Lists the changes that lay out the project's directories on disk and
    /// persist the project.
    pub fn initialize(&self) -> (ops: Vec<StorageOp>)
        ensures
            views(ops@) == self@.initialize_ops(),
    {
        let mut ops: Vec<StorageOp> = Vec::new();
        ops.push(StorageOp::CreateDir { path: metadata_dir_path(self.root_path.as_str()) });
        ops.push(StorageOp::CreateDir { path: chapters_dir_path(self.root_path.as_str()) });
        ops.push(StorageOp::CreateDir { path: drafts_dir_path(self.root_path.as_str()) });
        self.push_save_ops(&mut ops);
        ops
    }

    /// Lists the writes that persist the project: its root metadata and the
    /// settings documents.
    pub fn save_metadata(&self) -> (ops: Vec<StorageOp>)
        ensures
            views(ops@) == self@.save_ops(),
    {
        let mut ops: Vec<StorageOp> = Vec::new();
        self.push_save_ops(&mut ops);
        ops
    }

    /// Lists the writes of the three settings documents.
    pub fn save_settings(&self) -> (ops: Vec<StorageOp>)
        ensures
            views(ops@) == self@.settings_ops(),
    {
        let mut ops: Vec<StorageOp> = Vec::new();
        self.push_settings_ops(&mut ops);
        ops
    }

    /// Appends the writes of the settings documents to `ops`.
    pub(crate) fn push_settings_ops(&self, ops: &mut Vec<StorageOp>)
        ensures
            views(final(ops)@) == views(old(ops)@) + self@.settings_ops(),
    {
        let root = self.root_path.as_str();
        ops.push(
            StorageOp::Write { path: characters_file_path(root), document: Document::Characters },
        );
        ops.push(StorageOp::Write { path: world_file_path(root), document: Document::World });
        ops.push(StorageOp::Write { path: plot_file_path(root), document: Document::Plot });
    }

    /// Appends the writes that persist the project to `ops`.
    pub(crate) fn push_save_ops(&self, ops: &mut Vec<StorageOp>)
        ensures
            views(final(ops)@) == views(old(ops)@) + self@.save_ops(),
    {
        ops.push(
            StorageOp::Write {
                path: project_file_path(self.root_path.as_str()),
                document: Document::Project,
            },
        );
        self.push_settings_ops(ops);
    }

    /// Finds the first volume with identifier `id`.
    pub fn find_volume(&self, id: VolumeId) -> (found: Option<usize>)
        ensures
            match found {
                Some(v) => v < self.volumes@.len() && self@.volume_index(id) == Some(v as int),
                None => self@.volume_index(id) is None,
            },
    {
        let ghost volumes = self@.volumes;
        let mut v: usize = 0;
        while v < self.volumes.len()
            invariant
                v <= self.volumes@.len(),
                volumes == self@.volumes,
                forall|j: int| 0 <= j < v ==> !volume_has_id(id)(#[trigger] volumes[j]),
            decreases self.volumes.len() - v,
        {
            if self.volumes[v].id == id {
                proof {
                    lemma_find_first(volumes, volume_has_id(id), v as int);
                }
                return Some(v);
            }
            v = v + 1;
        }
        None
    }
}

} // verus!
