//! A versioned, hierarchical document store for long-form writing projects.
//!
//! A project holds ordered volumes of ordered chapters.  Every chapter has its
//! current text and a history of snapshots of its earlier texts.  The store
//! keeps an index of the chapters in memory and says, for every change, what
//! has to change on disk with it.
//!
//! The store is verified with Verus.  Its parts:
//!
//! - [`types`]: the entities and their views.
//! - [`text`]: word counts and decimal numerals.
//! - [`layout`] and [`paths`]: where things are on disk, and how the paths
//!   lie to one another.
//! - [`storage`]: the changes to the disk that the store asks for, what it is
//!   handed of the disk, and its errors.
//! - [`model`]: what every operation makes of a project.
//! - [`project`]: the store itself, [`NovelProject`].
//! - [`history`]: the snapshots of a chapter, their names and their order.
//! - [`invariants`] and [`changes`]: what holds of a project after every
//!   change.
//! - [`disk`]: a model of the disk, and the proof that disk and project stay
//!   in step.
//! - [`revisions`]: what a series of rewrites leaves in a chapter's history.
//! - [`ident`]: fresh identifiers for volumes.
//! - [`seqs`]: positions in sequences.
//! - [`novel_chapters_panel`] and [`novel_ai_panel`]: the state of the two
//!   panels that show a project and assist in writing it.

pub mod changes;
pub mod disk;
pub mod history;
pub mod ident;
pub mod invariants;
pub mod layout;
pub mod model;
pub mod novel_ai_panel;
pub mod novel_chapters_panel;
pub mod paths;
pub mod project;
pub mod revisions;
pub mod seqs;
pub mod storage;
pub mod text;
pub mod types;

pub use model::ProjectView;
pub use novel_ai_panel::{AiRequest, Message, MessageRole, NovelAIPanel, NovelContext, QuickAction};
pub use novel_chapters_panel::{EditingItem, NovelChaptersPanel, SelectedItem};
pub use project::NovelProject;
pub use storage::{
    ChapterDirEntry, DirRead, Document, FileRead, HistoryFile, IoOperation, Missing, StorageOp,
    StoreError,
};
pub use types::{
    Chapter, ChapterId, ChapterStatus, ChapterVersion, ChapterView, CharacterProfile,
    CharacterView, NovelSettings, PlotPoint, PlotPointView, SettingsView, Timestamp, VersionView,
    Volume, VolumeId, VolumeView, WorldSetting, WorldSettingView,
};
