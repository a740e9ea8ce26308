//! What the store exchanges with the file system: the writes it asks for, the
//! reads it is handed, and the errors it reports.
//!
//! The store itself never touches a disk.  Every mutation returns the list of
//! [`StorageOp`]s that bring the disk in line with the new state, to be carried
//! out in order; every operation that depends on the disk takes what was found
//! there as a [`FileRead`] or a [`DirRead`].

use crate::types::{Chapter, ChapterId, ChapterVersion, ChapterView, VersionView, VolumeId};
use vstd::prelude::*;

verus! {

/// What a file is to hold.  All but a snapshot are taken from the project as
/// it is when the write is carried out.
#[derive(Clone, Debug)]
pub enum Document {
    /// The project's root metadata: everything but the chapters' text.
    Project,
    /// The character profiles of the settings.
    Characters,
    /// The world settings.
    World,
    /// The plot points.
    Plot,
    /// The metadata of a chapter: everything but its text.
    ChapterMetadata(ChapterId),
    /// The text of a chapter.
    ChapterContent(ChapterId),
    /// A snapshot of a chapter's earlier text.
    Snapshot(ChapterVersion),
}

/// The view of a [`Document`].
#[verifier::ext_equal]
pub enum DocumentView {
    Project,
    Characters,
    World,
    Plot,
    ChapterMetadata(ChapterId),
    ChapterContent(ChapterId),
    Snapshot(VersionView),
}

impl View for Document {
    type V = DocumentView;

    open spec fn view(&self) -> DocumentView {
        match self {
            Document::Project => DocumentView::Project,
            Document::Characters => DocumentView::Characters,
            Document::World => DocumentView::World,
            Document::Plot => DocumentView::Plot,
            Document::ChapterMetadata(id) => DocumentView::ChapterMetadata(*id),
            Document::ChapterContent(id) => DocumentView::ChapterContent(*id),
            Document::Snapshot(version) => DocumentView::Snapshot(version@),
        }
    }
}

/// One change to the disk.
#[derive(Clone, Debug)]
pub enum StorageOp {
    /// Create the directory at `path` with all its parents, unless it exists.
    CreateDir { path: String },
    /// Write `document` to the file at `path`, replacing what is there.
    Write { path: String, document: Document },
    /// Remove the directory at `path` with all it holds, if it exists.
    RemoveDir { path: String },
}

/// The view of a [`StorageOp`].
#[verifier::ext_equal]
pub enum StorageOpView {
    CreateDir { path: Seq<char> },
    Write { path: Seq<char>, document: DocumentView },
    RemoveDir { path: Seq<char> },
}

impl View for StorageOp {
    type V = StorageOpView;

    open spec fn view(&self) -> StorageOpView {
        match self {
            StorageOp::CreateDir { path } => StorageOpView::CreateDir { path: path@ },
            StorageOp::Write { path, document } => StorageOpView::Write {
                path: path@,
                document: document@,
            },
            StorageOp::RemoveDir { path } => StorageOpView::RemoveDir { path: path@ },
        }
    }
}

/// The views of the elements of `s`.
pub open spec fn views<T: View>(s: Seq<T>) -> Seq<T::V> {
    s.map_values(|t: T| t@)
}

/// The views of a sequence with one more element are the views of the
/// sequence with the view of that element.
pub proof fn lemma_views_push<T: View>(s: Seq<T>, x: T)
    ensures
        views(s.push(x)) == views(s).push(x@),
{
}

/// Replacing an element replaces its view.
pub proof fn lemma_views_update<T: View>(s: Seq<T>, i: int, x: T)
    requires
        0 <= i < s.len(),
    ensures
        views(s.update(i, x)) == views(s).update(i, x@),
{
}

/// Inserting an element inserts its view.
pub proof fn lemma_views_insert<T: View>(s: Seq<T>, i: int, x: T)
    requires
        0 <= i <= s.len(),
    ensures
        views(s.insert(i, x)) == views(s).insert(i, x@),
{
}

/// What reading a file gave.
#[derive(Clone, Debug)]
pub enum FileRead<T> {
    /// There is no such file.
    Absent,
    /// The file exists and could not be read.
    Unreadable,
    /// The file was read and does not hold what it should.
    Malformed,
    /// The file's content.
    Loaded(T),
}

impl<T: View> View for FileRead<T> {
    type V = FileRead<T::V>;

    open spec fn view(&self) -> FileRead<T::V> {
        match self {
            FileRead::Absent => FileRead::Absent,
            FileRead::Unreadable => FileRead::Unreadable,
            FileRead::Malformed => FileRead::Malformed,
            FileRead::Loaded(t) => FileRead::Loaded(t@),
        }
    }
}

/// What listing a directory gave.
#[derive(Clone, Debug)]
pub enum DirRead<T> {
    /// There is no such directory.
    Absent,
    /// The directory exists and could not be listed.
    Unreadable,
    /// The directory's entries, in the order in which they were found.
    Listed(Vec<T>),
}

/// The view of a [`DirRead`].
#[verifier::ext_equal]
pub enum DirReadView<V> {
    Absent,
    Unreadable,
    Listed(Seq<V>),
}

impl<T: View> View for DirRead<T> {
    type V = DirReadView<T::V>;

    open spec fn view(&self) -> DirReadView<T::V> {
        match self {
            DirRead::Absent => DirReadView::Absent,
            DirRead::Unreadable => DirReadView::Unreadable,
            DirRead::Listed(entries) => DirReadView::Listed(views(entries@)),
        }
    }
}

/// An entry of the chapter storage area, with what was found in it.
#[derive(Clone, Debug)]
pub struct ChapterDirEntry {
    /// Where the entry is.
    pub path: String,
    /// Whether the entry is a directory.
    pub is_dir: bool,
    /// The chapter's metadata file.
    pub metadata: FileRead<Chapter>,
    /// The chapter's content file.
    pub content: FileRead<String>,
    /// The names of the files in the chapter's history directory.
    pub history: DirRead<String>,
}

/// The view of a [`ChapterDirEntry`].
#[verifier::ext_equal]
pub struct ChapterDirEntryView {
    pub path: Seq<char>,
    pub is_dir: bool,
    pub metadata: FileRead<ChapterView>,
    pub content: FileRead<Seq<char>>,
    pub history: DirReadView<Seq<char>>,
}

impl View for ChapterDirEntry {
    type V = ChapterDirEntryView;

    open spec fn view(&self) -> ChapterDirEntryView {
        ChapterDirEntryView {
            path: self.path@,
            is_dir: self.is_dir,
            metadata: self.metadata@,
            content: self.content@,
            history: self.history@,
        }
    }
}

/// A file of a chapter's history directory.
#[derive(Clone, Debug)]
pub struct HistoryFile {
    /// The file's name within the directory.
    pub name: String,
    /// The snapshot read from it.
    pub snapshot: FileRead<ChapterVersion>,
}

/// The view of a [`HistoryFile`].
#[verifier::ext_equal]
pub struct HistoryFileView {
    pub name: Seq<char>,
    pub snapshot: FileRead<VersionView>,
}

impl View for HistoryFile {
    type V = HistoryFileView;

    open spec fn view(&self) -> HistoryFileView {
        HistoryFileView { name: self.name@, snapshot: self.snapshot@ }
    }
}

/// What a lookup did not find.
#[derive(Clone, Copy, Debug, PartialEq, Eq, Structural)]
pub enum Missing {
    /// No chapter has this identifier.
    Chapter(ChapterId),
    /// No volume has this identifier.
    Volume(VolumeId),
    /// The chapter has no snapshot of this version.
    Version(ChapterId, u32),
}

/// The kind of access to the disk that failed.
#[derive(Clone, Copy, Debug, PartialEq, Eq, Structural)]
pub enum IoOperation {
    Read,
    Write,
    ReadDir,
    CreateDir,
    RemoveDir,
}

/// Why an operation of the store failed.
#[derive(Clone, Debug)]
pub enum StoreError {
    /// A chapter, volume or version that the operation needs is unknown.
    NotFound(Missing),
    /// The chapter named does not fit the request.
    InvalidArgument(ChapterId),
    /// The disk refused `operation` at `path`.
    Io { path: String, operation: IoOperation },
    /// The file at `path` does not hold what it should.
    Parse { path: String },
}

/// The view of a [`StoreError`].
#[verifier::ext_equal]
pub enum StoreErrorView {
    NotFound(Missing),
    InvalidArgument(ChapterId),
    Io { path: Seq<char>, operation: IoOperation },
    Parse { path: Seq<char> },
}

impl View for StoreError {
    type V = StoreErrorView;

    open spec fn view(&self) -> StoreErrorView {
        match self {
            StoreError::NotFound(missing) => StoreErrorView::NotFound(*missing),
            StoreError::InvalidArgument(id) => StoreErrorView::InvalidArgument(*id),
            StoreError::Io { path, operation } => StoreErrorView::Io {
                path: path@,
                operation: *operation,
            },
            StoreError::Parse { path } => StoreErrorView::Parse { path: path@ },
        }
    }
}

} // verus!
