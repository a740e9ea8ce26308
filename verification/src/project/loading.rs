//! Rebuilding a project from what is on disk.

use crate::history::{find_newest_version, latest_version};
use crate::layout::{
    chapters_dir, chapters_dir_path, content_file, content_file_path, history_dir_path,
    metadata_file, metadata_file_path, project_file, project_file_path,
};
use crate::model::ProjectView;
use crate::project::{lemma_chapter_views_insert, NovelProject};
use crate::storage::{
    views, ChapterDirEntry, ChapterDirEntryView, DirRead, DirReadView, FileRead, IoOperation,
    StoreError, StoreErrorView,
};
use crate::text::{count_words, word_count};
use crate::types::{Chapter, ChapterId, ChapterView};
use vstd::prelude::*;

verus! {

/// The chapter that an entry of the chapter storage area holds.  An entry
/// that is no directory, or has no metadata file, holds none.  The chapter is
/// what its metadata says, but for its text, which is that of the content
/// file where there is one; its word count, which is that of its text; its
/// storage directory, which is where the entry was found; and its version,
/// which is that of its history.  The error is that of the first of metadata,
/// content and history that could not be read.
pub open spec fn load_chapter(entry: ChapterDirEntryView) -> Result<
    Option<ChapterView>,
    StoreErrorView,
> {
    if !entry.is_dir {
        Ok(None)
    } else {
        match entry.metadata {
            FileRead::Absent => Ok(None),
            FileRead::Unreadable => Err(
                StoreErrorView::Io {
                    path: metadata_file(entry.path),
                    operation: IoOperation::Read,
                },
            ),
            FileRead::Malformed => Err(StoreErrorView::Parse { path: metadata_file(entry.path) }),
            FileRead::Loaded(chapter) => {
                if entry.content is Unreadable || entry.content is Malformed {
                    Err(
                        StoreErrorView::Io {
                            path: content_file(entry.path),
                            operation: IoOperation::Read,
                        },
                    )
                } else {
                    let content = match entry.content {
                        FileRead::Loaded(text) => text,
                        _ => chapter.content,
                    };
                    match latest_version(entry.path, entry.history) {
                        Err(error) => Err(error),
                        Ok(version) => Ok(
                            Some(
                                ChapterView {
                                    content,
                                    word_count: word_count(content),
                                    dir_path: entry.path,
                                    current_version: version as nat,
                                    ..chapter
                                },
                            ),
                        ),
                    }
                }
            },
        }
    }
}

impl ProjectView {
    /// The project after the chapters of `entries` were put into the index
    /// one after another, each under its own identifier, up to the first
    /// entry that could not be loaded; and the error of that entry, if any.
    pub open spec fn reload_entries(self, entries: Seq<ChapterDirEntryView>) -> (
        ProjectView,
        Option<StoreErrorView>,
    )
        decreases entries.len(),
    {
        if entries.len() == 0 {
            (self, None)
        } else {
            let (project, failed) = self.reload_entries(entries.drop_last());
            match failed {
                Some(_) => (project, failed),
                None => match load_chapter(entries.last()) {
                    Err(error) => (project, Some(error)),
                    Ok(None) => (project, None),
                    Ok(Some(chapter)) => (
                        ProjectView {
                            chapters: project.chapters.insert(chapter.id.0, chapter),
                            ..project
                        },
                        None,
                    ),
                },
            }
        }
    }

    /// The project after its index was filled from the chapter storage area,
    /// and the error that ended this early, if any.  Without a chapter
    /// storage area the project stays as it is.
    pub open spec fn reload_chapters(self, area: DirReadView<ChapterDirEntryView>) -> (
        ProjectView,
        Option<StoreErrorView>,
    ) {
        match area {
            DirReadView::Absent => (self, None),
            DirReadView::Unreadable => (
                self,
                Some(
                    StoreErrorView::Io {
                        path: chapters_dir(self.root_path),
                        operation: IoOperation::ReadDir,
                    },
                ),
            ),
            DirReadView::Listed(entries) => self.reload_entries(entries),
        }
    }

    /// The project stored at `root_path`: what the root metadata says, at
    /// the place where it was found, with the chapters of the chapter
    /// storage area.  The error where the root metadata or a chapter could
    /// not be read.
    pub open spec fn load(
        root_path: Seq<char>,
        root_metadata: FileRead<ProjectView>,
        area: DirReadView<ChapterDirEntryView>,
    ) -> Result<ProjectView, StoreErrorView> {
        match root_metadata {
            FileRead::Loaded(stored) => {
                let (project, failed) = (ProjectView { root_path, ..stored }).reload_chapters(
                    area,
                );
                match failed {
                    Some(error) => Err(error),
                    None => Ok(project),
                }
            },
            FileRead::Malformed => Err(StoreErrorView::Parse { path: project_file(root_path) }),
            _ => Err(
                StoreErrorView::Io { path: project_file(root_path), operation: IoOperation::Read },
            ),
        }
    }
}

/// Once reloading has failed at some entry, it has failed in the same way
/// for every longer listing.
pub proof fn lemma_reload_failed(project: ProjectView, entries: Seq<ChapterDirEntryView>, n: int)
    requires
        0 <= n <= entries.len(),
    ensures
        project.reload_entries(entries.take(n)).1 is Some ==> project.reload_entries(entries)
            == project.reload_entries(entries.take(n)),
    decreases entries.len() - n,
{
    if n < entries.len() {
        lemma_reload_failed(project, entries, n + 1);
        assert(entries.take(n + 1).drop_last() == entries.take(n));
    } else {
        assert(entries.take(n) == entries);
    }
}

/// Whether `stored` is what the metadata file of `chapter` holds.  The
/// file is written whenever the chapter's title, status or text changes, and
/// so keeps up with these and with the times of the chapter; the chapter's
/// order and volume change without it.
pub open spec fn is_metadata_of(stored: ChapterView, chapter: ChapterView) -> bool {
    &&& stored.id == chapter.id
    &&& stored.title == chapter.title
    &&& stored.status == chapter.status
    &&& stored.created_at == chapter.created_at
    &&& stored.modified_at == chapter.modified_at
}

/// Whether `stored` is what the root metadata of `project` holds.  The root
/// metadata is written whenever a volume or the set of chapters changes.
pub open spec fn is_root_metadata_of(stored: ProjectView, project: ProjectView) -> bool {
    &&& stored.title == project.title
    &&& stored.volumes == project.volumes
    &&& stored.settings == project.settings
    &&& stored.created_at == project.created_at
    &&& stored.chapters.dom() == project.chapters.dom()
}

/// Whether `entry` is the storage directory of `chapter` with its files.
pub open spec fn holds_chapter(entry: ChapterDirEntryView, chapter: ChapterView) -> bool {
    &&& entry.is_dir
    &&& entry.path == chapter.dir_path
    &&& entry.metadata matches FileRead::Loaded(stored)
    &&& is_metadata_of(stored, chapter)
    &&& entry.content == FileRead::Loaded(chapter.content)
    &&& latest_version(entry.path, entry.history) is Ok
}

/// Whether `entry` is the storage directory of a chapter of `project`.
#[verifier::opaque]
pub open spec fn holds_a_chapter_of(entry: ChapterDirEntryView, project: ProjectView) -> bool {
    exists|k: u64|
        #![trigger project.chapters[k]]
        project.chapters.contains_key(k) && holds_chapter(entry, project.chapters[k])
}

/// Whether one of `entries` is the storage directory of `chapter`.
#[verifier::opaque]
pub open spec fn is_held(entries: Seq<ChapterDirEntryView>, chapter: ChapterView) -> bool {
    exists|i: int| 0 <= i < entries.len() && holds_chapter(#[trigger] entries[i], chapter)
}

/// Whether `entries` are the storage directories of the chapters of
/// `project`: one for every chapter, and none beside these.
pub open spec fn holds_chapters_of(entries: Seq<ChapterDirEntryView>, project: ProjectView)
    -> bool {
    &&& forall|i: int|
        0 <= i < entries.len() ==> holds_a_chapter_of(#[trigger] entries[i], project)
    &&& forall|k: u64| #[trigger]
        project.chapters.contains_key(k) ==> is_held(entries, project.chapters[k])
}

/// Whether `loaded` is `chapter` as loading gives it back: with its
/// identifier, title, text, status, storage directory and times, and with
/// the word count of its text.
pub open spec fn gives_back(loaded: ChapterView, chapter: ChapterView) -> bool {
    &&& loaded.id == chapter.id
    &&& loaded.title == chapter.title
    &&& loaded.content == chapter.content
    &&& loaded.word_count == word_count(chapter.content)
    &&& loaded.status == chapter.status
    &&& loaded.dir_path == chapter.dir_path
    &&& loaded.created_at == chapter.created_at
    &&& loaded.modified_at == chapter.modified_at
}

/// Whether the chapter of `entry` is in `reloaded` as loading gives it
/// back.
pub open spec fn is_given_back(
    entry: ChapterDirEntryView,
    reloaded: ProjectView,
    project: ProjectView,
) -> bool {
    &&& entry.metadata matches FileRead::Loaded(stored)
    &&& project.chapters.contains_key(stored.id.0)
    &&& gives_back(reloaded.chapters[stored.id.0], project.chapters[stored.id.0])
}

/// Reloading the first `n` of the storage directories of a project's
/// chapters does not fail, and gives the chapters of these back.
proof fn lemma_reload_gives_back(
    project: ProjectView,
    start: ProjectView,
    entries: Seq<ChapterDirEntryView>,
    n: int,
)
    requires
        project.keyed(),
        start.chapters.dom() == project.chapters.dom(),
        holds_chapters_of(entries, project),
        0 <= n <= entries.len(),
    ensures
        ({
            let (reloaded, failed) = start.reload_entries(entries.take(n));
            &&& failed is None
            &&& reloaded == (ProjectView { chapters: reloaded.chapters, ..start })
            &&& reloaded.chapters.dom() == project.chapters.dom()
            &&& forall|i: int|
                0 <= i < n ==> is_given_back(#[trigger] entries[i], reloaded, project)
        }),
    decreases n,
{
    if n > 0 {
        lemma_reload_gives_back(project, start, entries, n - 1);
        let shorter = entries.take(n - 1);
        let longer = entries.take(n);
        assert(longer.drop_last() == shorter);
        let entry = entries[n - 1];
        assert(longer.last() == entry);
        assert(holds_a_chapter_of(entry, project));
        reveal(holds_a_chapter_of);
        let k = choose|k: u64|
            #![trigger project.chapters[k]]
            project.chapters.contains_key(k) && holds_chapter(entry, project.chapters[k]);
        let chapter = project.chapters[k];
        assert(chapter.id == ChapterId(k));
        let (before, _) = start.reload_entries(shorter);
        let (after, _) = start.reload_entries(longer);
        let loaded = load_chapter(entry)->Ok_0->Some_0;
        assert(gives_back(loaded, chapter));
        assert(after.chapters == before.chapters.insert(k, loaded));
        assert(after.chapters.dom() =~= project.chapters.dom());
        assert forall|i: int| 0 <= i < n implies is_given_back(
            #[trigger] entries[i],
            after,
            project,
        ) by {
            if i < n - 1 {
                assert(is_given_back(entries[i], before, project));
                let stored = entries[i].metadata->Loaded_0;
                if stored.id.0 != k {
                    assert(after.chapters[stored.id.0] == before.chapters[stored.id.0]);
                }
            }
        }
    }
}

/// Reloading the storage directories of a project's chapters does not
/// fail.
pub proof fn lemma_reload_does_not_fail(
    project: ProjectView,
    start: ProjectView,
    entries: Seq<ChapterDirEntryView>,
    n: int,
)
    requires
        project.keyed(),
        start.chapters.dom() == project.chapters.dom(),
        holds_chapters_of(entries, project),
        0 <= n <= entries.len(),
    ensures
        start.reload_entries(entries.take(n)).1 is None,
{
    lemma_reload_gives_back(project, start, entries, n);
}

/// Loading what persisting a project has left on disk gives the project
/// back: its title, its volumes and its chapters are the same, every
/// chapter with its title, its text and its status.
pub proof fn lemma_load_gives_back(
    project: ProjectView,
    root_path: Seq<char>,
    stored: ProjectView,
    entries: Seq<ChapterDirEntryView>,
)
    requires
        project.keyed(),
        is_root_metadata_of(stored, project),
        holds_chapters_of(entries, project),
    ensures
        ProjectView::load(root_path, FileRead::Loaded(stored), DirReadView::Listed(entries))
            matches Ok(loaded) && {
            &&& loaded == (ProjectView { root_path, chapters: loaded.chapters, ..stored })
            &&& loaded.root_path == root_path
            &&& loaded.title == project.title
            &&& loaded.volumes == project.volumes
            &&& loaded.settings == project.settings
            &&& loaded.chapters.dom() == project.chapters.dom()
            &&& forall|k: u64| #[trigger]
                project.chapters.contains_key(k) ==> gives_back(
                    loaded.chapters[k],
                    project.chapters[k],
                )
        },
{
    let start = ProjectView { root_path, ..stored };
    lemma_reload_gives_back(project, start, entries, entries.len() as int);
    assert(entries.take(entries.len() as int) == entries);
    let (loaded, _) = start.reload_entries(entries);
    assert forall|k: u64| #[trigger] project.chapters.contains_key(k) implies gives_back(
        loaded.chapters[k],
        project.chapters[k],
    ) by {
        assert(is_held(entries, project.chapters[k]));
        reveal(is_held);
        let i = choose|i: int|
            0 <= i < entries.len() && holds_chapter(#[trigger] entries[i], project.chapters[k]);
        assert(project.chapters[k].id == ChapterId(k));
        assert(is_given_back(entries[i], loaded, project));
    }
}

/// Whether `chapter` is what loading makes of `entry`.
pub open spec fn is_loaded_as(chapter: ChapterView, entry: ChapterDirEntryView) -> bool {
    load_chapter(entry) == Ok::<Option<ChapterView>, StoreErrorView>(
        Some(chapter),
    )
}

/// Whether `chapter` is what loading makes of one of `entries`.
pub open spec fn is_loaded_from(chapter: ChapterView, entries: Seq<ChapterDirEntryView>) -> bool {
    exists|i: int| 0 <= i < entries.len() && is_loaded_as(chapter, #[trigger] entries[i])
}

/// Every chapter that reloading puts into the index is what loading makes
/// of one of the entries.
proof fn lemma_loaded_versions(
    project: ProjectView,
    start: ProjectView,
    entries: Seq<ChapterDirEntryView>,
    n: int,
)
    requires
        project.keyed(),
        start.chapters.dom() == project.chapters.dom(),
        holds_chapters_of(entries, project),
        0 <= n <= entries.len(),
    ensures
        ({
            let (reloaded, failed) = start.reload_entries(entries.take(n));
            forall|i: int|
                0 <= i < n ==> {
                    &&& (#[trigger] entries[i]).metadata matches FileRead::Loaded(stored)
                    &&& reloaded.chapters.contains_key(stored.id.0)
                    &&& is_loaded_from(reloaded.chapters[stored.id.0], entries)
                }
        }),
    decreases n,
{
    if n > 0 {
        lemma_loaded_versions(project, start, entries, n - 1);
        let shorter = entries.take(n - 1);
        let longer = entries.take(n);
        assert(longer.drop_last() == shorter);
        let entry = entries[n - 1];
        assert(longer.last() == entry);
        assert(holds_a_chapter_of(entry, project));
        reveal(holds_a_chapter_of);
        let k = choose|k: u64|
            #![trigger project.chapters[k]]
            project.chapters.contains_key(k) && holds_chapter(entry, project.chapters[k]);
        let (before, failed) = start.reload_entries(shorter);
        lemma_reload_does_not_fail(project, start, entries, n - 1);
        let (after, _) = start.reload_entries(longer);
        let loaded = load_chapter(entry)->Ok_0->Some_0;
        assert(project.chapters[k].id == ChapterId(k));
        assert(after.chapters == before.chapters.insert(k, loaded));
        assert(is_loaded_as(loaded, entries[n - 1]));
        assert forall|i: int| 0 <= i < n implies {
            &&& (#[trigger] entries[i]).metadata matches FileRead::Loaded(stored)
            &&& after.chapters.contains_key(stored.id.0)
            &&& is_loaded_from(after.chapters[stored.id.0], entries)
        } by {
            if i < n - 1 {
                let stored = entries[i].metadata->Loaded_0;
                if stored.id.0 != k {
                    assert(after.chapters[stored.id.0] == before.chapters[stored.id.0]);
                }
            }
        }
    }
}

/// Every chapter that loading what persisting has left puts into the index
/// is what loading makes of one of the entries.
pub proof fn lemma_loaded_from_entries(
    project: ProjectView,
    root_path: Seq<char>,
    stored: ProjectView,
    entries: Seq<ChapterDirEntryView>,
)
    requires
        project.keyed(),
        is_root_metadata_of(stored, project),
        holds_chapters_of(entries, project),
    ensures
        ProjectView::load(root_path, FileRead::Loaded(stored), DirReadView::Listed(entries))
            matches Ok(loaded) && forall|k: u64|
            project.chapters.contains_key(k) ==> is_loaded_from(
                #[trigger] loaded.chapters[k],
                entries,
            ),
{
    let start = ProjectView { root_path, ..stored };
    lemma_reload_does_not_fail(project, start, entries, entries.len() as int);
    lemma_loaded_versions(project, start, entries, entries.len() as int);
    assert(entries.take(entries.len() as int) == entries);
    let loaded = start.reload_entries(entries).0;
    assert forall|k: u64| project.chapters.contains_key(k) implies is_loaded_from(
        #[trigger] loaded.chapters[k],
        entries,
    ) by {
        assert(is_held(entries, project.chapters[k]));
        reveal(is_held);
        let held = choose|held: int|
            0 <= held < entries.len() && holds_chapter(#[trigger] entries[held], project.chapters[k]);
        assert(project.chapters[k].id == ChapterId(k));
        assert(entries[held].metadata->Loaded_0.id == ChapterId(k));
    }
}

impl NovelProject {
    /// Tells the version that a chapter stored in `dir_path` is at from the
    /// listing of its history directory: 0 without snapshots, else one more
    /// than the newest of them.  Fails where the directory could not be
    /// listed (`Io`), and where the newest snapshot has the greatest version
    /// there is (`Parse`).
    pub fn get_latest_version(dir_path: &str, history: &DirRead<String>) -> (latest: Result<
        u32,
        StoreError,
    >)
        ensures
            match latest {
                Ok(version) => latest_version(dir_path@, history@) == Ok::<u32, StoreErrorView>(
                    version,
                ),
                Err(error) => latest_version(dir_path@, history@) == Err::<u32, StoreErrorView>(
                    error@,
                ),
            },
    {
        match history {
            DirRead::Absent => Ok(0),
            DirRead::Unreadable => Err(
                StoreError::Io {
                    path: history_dir_path(dir_path),
                    operation: IoOperation::ReadDir,
                },
            ),
            DirRead::Listed(names) => match find_newest_version(names) {
                None => Ok(0),
                Some(newest) => {
                    if newest < u32::MAX {
                        Ok(newest + 1)
                    } else {
                        Err(StoreError::Parse { path: history_dir_path(dir_path) })
                    }
                },
            },
        }
    }

    /// Builds the chapter that an entry of the chapter storage area holds,
    /// if it holds one.
    pub fn load_chapter_directory(entry: ChapterDirEntry) -> (loaded: Result<
        Option<Chapter>,
        StoreError,
    >)
        ensures
            match loaded {
                Ok(Some(chapter)) => load_chapter(entry@) == Ok::<
                    Option<ChapterView>,
                    StoreErrorView,
                >(Some(chapter@)),
                Ok(None) => load_chapter(entry@) == Ok::<Option<ChapterView>, StoreErrorView>(
                    None,
                ),
                Err(error) => load_chapter(entry@) == Err::<Option<ChapterView>, StoreErrorView>(
                    error@,
                ),
            },
    {
        if !entry.is_dir {
            return Ok(None);
        }
        let mut chapter = match entry.metadata {
            FileRead::Absent => {
                return Ok(None);
            },
            FileRead::Unreadable => {
                return Err(
                    StoreError::Io {
                        path: metadata_file_path(entry.path.as_str()),
                        operation: IoOperation::Read,
                    },
                );
            },
            FileRead::Malformed => {
                return Err(StoreError::Parse { path: metadata_file_path(entry.path.as_str()) });
            },
            FileRead::Loaded(chapter) => chapter,
        };
        match entry.content {
            FileRead::Loaded(text) => {
                chapter.content = text;
            },
            FileRead::Absent => {},
            _ => {
                return Err(
                    StoreError::Io {
                        path: content_file_path(entry.path.as_str()),
                        operation: IoOperation::Read,
                    },
                );
            },
        }
        chapter.word_count = count_words(chapter.content.as_str());
        chapter.current_version = match Self::get_latest_version(
            entry.path.as_str(),
            &entry.history,
        ) {
            Ok(version) => version,
            Err(error) => {
                return Err(error);
            },
        };
        chapter.dir_path = entry.path;
        Ok(Some(chapter))
    }

    /// Fills the index from the chapter storage area: every chapter found
    /// there replaces the one that the index has under its identifier.
    /// Stops at the first entry that cannot be loaded and returns its error;
    /// the chapters before it are in the index by then.
    pub fn reload_chapters(&mut self, area: DirRead<ChapterDirEntry>) -> (reloaded: Result<
        (),
        StoreError,
    >)
        ensures
            final(self)@ == old(self)@.reload_chapters(area@).0,
            match reloaded {
                Ok(_) => old(self)@.reload_chapters(area@).1 is None,
                Err(error) => old(self)@.reload_chapters(area@).1 == Some(error@),
            },
    {
        broadcast use vstd::std_specs::hash::group_hash_axioms;

        let ghost before = self@;
        match area {
            DirRead::Absent => Ok(()),
            DirRead::Unreadable => Err(
                StoreError::Io {
                    path: chapters_dir_path(self.root_path.as_str()),
                    operation: IoOperation::ReadDir,
                },
            ),
            DirRead::Listed(entries) => {
                let ghost listed = entries@;
                let ghost all = views(entries@);
                assert(all.take(0) =~= Seq::empty());
                for entry in it: entries
                    invariant
                        it.seq() == listed,
                        all == views(listed),
                        area@ == DirReadView::Listed(all),
                        before == old(self)@,
                        before.reload_entries(all.take(it.index() as int)) == (self@, None::<
                            StoreErrorView,
                        >),
                {
                    proof {
                        let next = all.take(it.index() + 1);
                        assert(next.drop_last() == all.take(it.index() as int));
                        assert(next.last() == entry@);
                        lemma_reload_failed(before, all, it.index() + 1);
                    }
                    match Self::load_chapter_directory(entry) {
                        Err(error) => {
                            return Err(error);
                        },
                        Ok(None) => {},
                        Ok(Some(chapter)) => {
                            proof {
                                lemma_chapter_views_insert(self.chapters@, chapter.id.0, chapter);
                            }
                            self.chapters.insert(chapter.id.0, chapter);
                        },
                    }
                }
                assert(all.take(all.len() as int) == all);
                Ok(())
            },
        }
    }

    /// Rebuilds the project stored at `root_path` from its root metadata and
    /// its chapter storage area as they were read.  Fails where the root
    /// metadata is missing or unreadable (`Io`) or malformed (`Parse`), and
    /// with the error of the first chapter that cannot be loaded.
    pub fn load(
        root_path: String,
        root_metadata: FileRead<NovelProject>,
        area: DirRead<ChapterDirEntry>,
    ) -> (loaded: Result<NovelProject, StoreError>)
        ensures
            match loaded {
                Ok(project) => ProjectView::load(root_path@, root_metadata@, area@) == Ok::<
                    ProjectView,
                    StoreErrorView,
                >(project@),
                Err(error) => ProjectView::load(root_path@, root_metadata@, area@) == Err::<
                    ProjectView,
                    StoreErrorView,
                >(error@),
            },
    {
        match root_metadata {
            FileRead::Loaded(stored) => {
                let mut project = stored;
                project.root_path = root_path;
                match project.reload_chapters(area) {
                    Ok(_) => Ok(project),
                    Err(error) => Err(error),
                }
            },
            FileRead::Malformed => Err(
                StoreError::Parse { path: project_file_path(root_path.as_str()) },
            ),
            _ => Err(
                StoreError::Io {
                    path: project_file_path(root_path.as_str()),
                    operation: IoOperation::Read,
                },
            ),
        }
    }
}

} // verus!
