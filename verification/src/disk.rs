//! A model of the disk, and the proof that project and disk stay in step
//! when the changes that an operation asks for are carried out.
//!
//! The disk of the model holds directories and files by their paths; a file
//! holds a document as a value.  Nothing here runs: the model says what the
//! changes to the disk mean, and so what loading finds after them.

use crate::history::{latest_version, lemma_newest_version, newest_version};
use crate::layout::{
    chapter_dir, chapters_dir, characters_file, content_file, drafts_dir, history_dir,
    lemma_version_file_name_roundtrip, metadata_dir, metadata_file, plot_file, project_file,
    snapshot_version, version_file, version_file_name, world_file,
};
use crate::model::{
    content_write, dir_removal, is_fresh_id, lemma_fresh_id, metadata_write, removal_ops,
    snapshot_of, snapshot_ops, takes_snapshot, ProjectView,
};
use crate::paths::{
    history_file, is_entry_name, is_plain, lemma_apart, lemma_chapter_dir, lemma_chapter_files,
    lemma_chapters_dir_plain, lemma_entry_within_chapter_dir, lemma_join_distinct,
    lemma_root_files, lemma_version_file, lemma_within_transitive, within,
};
use crate::project::loading::{
    gives_back, holds_a_chapter_of, holds_chapter, holds_chapters_of, is_held, is_loaded_as,
    is_loaded_from, is_metadata_of, is_root_metadata_of, lemma_load_gives_back,
    lemma_loaded_from_entries,
};
use crate::seqs::lemma_find_first_is_first;
use crate::storage::{ChapterDirEntryView, DirReadView, DocumentView, FileRead, StorageOpView};
use crate::types::{ChapterId, ChapterView, SettingsView, VersionView, VolumeId};
use vstd::prelude::*;

verus! {

/// What a file holds.
pub enum FileView {
    /// The root metadata: the project as it was when the file was written.
    Project(ProjectView),
    /// The character profiles of the settings.
    Characters(SettingsView),
    /// The world settings.
    World(SettingsView),
    /// The plot points.
    Plot(SettingsView),
    /// A chapter's metadata: the chapter as it was when the file was
    /// written, without its text.
    Metadata(ChapterView),
    /// A chapter's text.
    Content(Seq<char>),
    /// A snapshot.
    Snapshot(VersionView),
}

/// A disk: the directories that exist, and the files with what they hold.
#[verifier::ext_equal]
pub struct DiskView {
    pub dirs: Set<Seq<char>>,
    pub files: Map<Seq<char>, FileView>,
}

/// A chapter as its metadata file holds it: without its text.
pub open spec fn stored_chapter(chapter: ChapterView) -> ChapterView {
    ChapterView { content: Seq::empty(), ..chapter }
}

/// A project as its root metadata holds it: every chapter without its text.
pub open spec fn stored_project(project: ProjectView) -> ProjectView {
    ProjectView {
        chapters: project.chapters.map_values(|chapter: ChapterView| stored_chapter(chapter)),
        ..project
    }
}

/// What writing `document` puts into a file, taken from `project` as it is;
/// nothing where the document is of a chapter that the project lacks.
pub open spec fn rendered(project: ProjectView, document: DocumentView) -> Option<FileView> {
    match document {
        DocumentView::Project => Some(FileView::Project(stored_project(project))),
        DocumentView::Characters => Some(FileView::Characters(project.settings)),
        DocumentView::World => Some(FileView::World(project.settings)),
        DocumentView::Plot => Some(FileView::Plot(project.settings)),
        DocumentView::ChapterMetadata(id) => if project.chapters.contains_key(id.0) {
            Some(FileView::Metadata(stored_chapter(project.chapters[id.0])))
        } else {
            None
        },
        DocumentView::ChapterContent(id) => if project.chapters.contains_key(id.0) {
            Some(FileView::Content(project.chapters[id.0].content))
        } else {
            None
        },
        DocumentView::Snapshot(snapshot) => Some(FileView::Snapshot(snapshot)),
    }
}

impl DiskView {
    /// A disk without anything on it.
    pub open spec fn empty() -> DiskView {
        DiskView { dirs: Set::empty(), files: Map::empty() }
    }

    /// Whether there is a directory or a file at `path`.
    pub open spec fn holds(self, path: Seq<char>) -> bool {
        self.dirs.contains(path) || self.files.contains_key(path)
    }

    /// The disk after `op` was carried out for `project`.
    pub open spec fn carry_out(self, project: ProjectView, op: StorageOpView) -> DiskView {
        match op {
            StorageOpView::CreateDir { path } => DiskView {
                dirs: self.dirs.insert(path),
                ..self
            },
            StorageOpView::RemoveDir { path } => DiskView {
                dirs: Set::new(|d: Seq<char>| self.dirs.contains(d) && !within(path, d)),
                files: Map::new(
                    |f: Seq<char>| self.files.contains_key(f) && !within(path, f),
                    |f: Seq<char>| self.files[f],
                ),
            },
            StorageOpView::Write { path, document } => match rendered(project, document) {
                Some(file) => DiskView { files: self.files.insert(path, file), ..self },
                None => self,
            },
        }
    }

    /// The disk after `ops` were carried out for `project`, one after
    /// another.
    pub open spec fn carry_out_all(self, project: ProjectView, ops: Seq<StorageOpView>)
        -> DiskView
        decreases ops.len(),
    {
        if ops.len() == 0 {
            self
        } else {
            self.carry_out_all(project, ops.drop_last()).carry_out(project, ops.last())
        }
    }

    /// Whether the root metadata on disk is that of `project`.
    pub open spec fn root_in_step(self, project: ProjectView) -> bool {
        &&& self.files.contains_key(project_file(project.root_path))
        &&& self.files[project_file(project.root_path)] matches FileView::Project(stored)
        &&& is_root_metadata_of(stored, project)
    }

    /// Whether `file`, found under `name` in the history of a chapter, is a
    /// snapshot of a version before `version`, in the file named for its
    /// version.
    pub open spec fn is_snapshot_before(file: FileView, name: Seq<char>, version: nat) -> bool {
        &&& file matches FileView::Snapshot(snapshot)
        &&& snapshot.version < version
        &&& name == version_file_name(snapshot.version)
    }

    /// Whether the file found under `name` in the history of the chapter
    /// stored in `dir` is a snapshot of a version before `version`, in a
    /// history directory that exists.
    pub open spec fn holds_snapshot_before(self, dir: Seq<char>, name: Seq<char>, version: nat)
        -> bool {
        &&& self.dirs.contains(history_dir(dir))
        &&& Self::is_snapshot_before(self.files[history_file(dir, name)], name, version)
    }

    /// Whether the files of `chapter` are on disk as they should be: its
    /// storage directory exists, its metadata file and its content file
    /// hold what they should, and its history holds snapshots of earlier
    /// versions only.
    pub open spec fn chapter_in_step(self, chapter: ChapterView) -> bool {
        let dir = chapter.dir_path;
        &&& self.dirs.contains(dir)
        &&& self.files.contains_key(metadata_file(dir))
        &&& self.files[metadata_file(dir)] matches FileView::Metadata(stored)
        &&& is_metadata_of(stored, chapter)
        &&& self.files.contains_key(content_file(dir))
        &&& self.files[content_file(dir)] == FileView::Content(chapter.content)
        &&& forall|name: Seq<char>|
            self.files.contains_key(#[trigger] history_file(dir, name))
                ==> self.holds_snapshot_before(dir, name, chapter.current_version)
    }

    /// Whether `path` lies within the storage directory of a chapter of
    /// `project`.
    pub open spec fn is_of_a_chapter(project: ProjectView, path: Seq<char>) -> bool {
        exists|k: u64|
            #![trigger project.chapters[k]]
            project.chapters.contains_key(k) && within(project.chapters[k].dir_path, path)
    }

    /// Whether all that is on disk within the chapter storage area lies
    /// within the storage directory of a chapter of `project`: there is no
    /// directory of a chapter that the project lacks.
    pub open spec fn no_orphans(self, project: ProjectView) -> bool {
        forall|path: Seq<char>|
            #![trigger self.dirs.contains(path)]
            #![trigger self.files.contains_key(path)]
            self.holds(path) && within(chapters_dir(project.root_path), path) && path
                != chapters_dir(project.root_path) ==> Self::is_of_a_chapter(project, path)
    }

    /// Whether the chapter storage area on disk is that of `project`: it
    /// exists, and it holds the chapters of the project and nothing else.
    pub open spec fn chapters_in_step(self, project: ProjectView) -> bool {
        &&& self.dirs.contains(chapters_dir(project.root_path))
        &&& forall|k: u64| #[trigger]
            project.chapters.contains_key(k) ==> self.chapter_in_step(project.chapters[k])
        &&& self.no_orphans(project)
    }

    /// Whether disk and project are in step: the disk holds the project.
    pub open spec fn in_step(self, project: ProjectView) -> bool {
        self.root_in_step(project) && self.chapters_in_step(project)
    }
}

impl ProjectView {
    /// Whether every chapter is stored where a chapter of its identifier is
    /// created: in the chapter storage area, under the name of its
    /// identifier.
    pub open spec fn placed(self) -> bool {
        forall|k: u64| #[trigger]
            self.chapters.contains_key(k) ==> self.chapters[k].dir_path == chapter_dir(
                self.root_path,
                ChapterId(k),
            )
    }

    /// Whether the version of every chapter can be counted up.
    pub open spec fn countable(self) -> bool {
        forall|k: u64| #[trigger]
            self.chapters.contains_key(k) ==> self.chapters[k].current_version < u32::MAX
    }
}

/// Carrying out one list of changes after another is carrying out the two
/// lists as one.
pub proof fn lemma_carry_out_concat(
    disk: DiskView,
    project: ProjectView,
    first: Seq<StorageOpView>,
    second: Seq<StorageOpView>,
)
    ensures
        disk.carry_out_all(project, first + second) == disk.carry_out_all(
            project,
            first,
        ).carry_out_all(project, second),
    decreases second.len(),
{
    if second.len() == 0 {
        assert(first + second =~= first);
    } else {
        lemma_carry_out_concat(disk, project, first, second.drop_last());
        assert((first + second).drop_last() =~= first + second.drop_last());
        assert((first + second).last() == second.last());
    }
}

/// Carrying out a list of one change is carrying out the change.
pub proof fn lemma_carry_out_single(disk: DiskView, project: ProjectView, op: StorageOpView)
    ensures
        disk.carry_out_all(project, seq![op]) == disk.carry_out(project, op),
{
    let ops = seq![op];
    assert(ops.drop_last() =~= Seq::empty());
    assert(disk.carry_out_all(project, ops.drop_last()) == disk);
}

/// The chapters of two projects that agree on what the disk holds of a
/// chapter.
pub open spec fn same_on_disk(before: ChapterView, after: ChapterView) -> bool {
    &&& after.id == before.id
    &&& after.dir_path == before.dir_path
    &&& after.title == before.title
    &&& after.status == before.status
    &&& after.content == before.content
    &&& after.current_version == before.current_version
    &&& after.created_at == before.created_at
    &&& after.modified_at == before.modified_at
}

/// A change to a project that leaves alone what the disk holds of its
/// chapters leaves the chapter storage area in step.
pub proof fn lemma_same_files(disk: DiskView, before: ProjectView, after: ProjectView)
    requires
        disk.chapters_in_step(before),
        after.root_path == before.root_path,
        after.chapters.dom() == before.chapters.dom(),
        forall|k: u64| #[trigger]
            before.chapters.contains_key(k) ==> same_on_disk(
                before.chapters[k],
                after.chapters[k],
            ),
    ensures
        disk.chapters_in_step(after),
        before.placed() ==> after.placed(),
{
    assert forall|k: u64| #[trigger] after.chapters.contains_key(k) implies disk.chapter_in_step(
        after.chapters[k],
    ) by {
        assert(before.chapters.contains_key(k));
        assert(disk.chapter_in_step(before.chapters[k]));
        assert(same_on_disk(before.chapters[k], after.chapters[k]));
    }
    assert forall|path: Seq<char>|
        #![trigger disk.dirs.contains(path)]
        #![trigger disk.files.contains_key(path)]
        disk.holds(path) && within(chapters_dir(after.root_path), path) && path != chapters_dir(
            after.root_path,
        ) implies DiskView::is_of_a_chapter(after, path) by {
        assert(DiskView::is_of_a_chapter(before, path));
        let k = choose|k: u64|
            #![trigger before.chapters[k]]
            before.chapters.contains_key(k) && within(before.chapters[k].dir_path, path);
        assert(same_on_disk(before.chapters[k], after.chapters[k]));
        assert(after.chapters.contains_key(k));
        assert(within(after.chapters[k].dir_path, path));
    }
    if before.placed() {
        assert forall|k: u64| #[trigger] after.chapters.contains_key(k) implies after.chapters[k].dir_path
            == chapter_dir(after.root_path, ChapterId(k)) by {
            assert(before.chapters.contains_key(k));
            assert(same_on_disk(before.chapters[k], after.chapters[k]));
        }
    }
}

/// The paths of a chapter that is stored in its place lie within its
/// storage directory, which lies within the chapter storage area.
pub proof fn lemma_placed_chapter(project: ProjectView, k: u64)
    requires
        project.placed(),
        project.chapters.contains_key(k),
    ensures
        ({
            let dir = project.chapters[k].dir_path;
            let area = chapters_dir(project.root_path);
            &&& dir == chapter_dir(project.root_path, ChapterId(k))
            &&& is_plain(dir)
            &&& within(area, dir)
            &&& dir != area
            &&& within(area, metadata_file(dir))
            &&& within(area, content_file(dir))
            &&& within(area, history_dir(dir))
            &&& metadata_file(dir) != area
            &&& content_file(dir) != area
            &&& history_dir(dir) != area
            &&& forall|name: Seq<char>|
                within(area, #[trigger] history_file(dir, name)) && history_file(dir, name)
                    != area
        }),
{
    let dir = project.chapters[k].dir_path;
    let area = chapters_dir(project.root_path);
    lemma_chapter_dir(project.root_path, ChapterId(k));
    lemma_chapter_files(dir);
    lemma_chapters_dir_plain(project.root_path);
    lemma_within_transitive(area, dir, metadata_file(dir));
    lemma_within_transitive(area, dir, content_file(dir));
    lemma_within_transitive(area, dir, history_dir(dir));
    lemma_inside_differs(area, dir, metadata_file(dir));
    lemma_inside_differs(area, dir, content_file(dir));
    lemma_inside_differs(area, dir, history_dir(dir));
    assert forall|name: Seq<char>|
        within(area, #[trigger] history_file(dir, name)) && history_file(dir, name) != area by {
        lemma_within_transitive(area, dir, history_file(dir, name));
        lemma_inside_differs(area, dir, history_file(dir, name));
    }
}

/// What lies within a directory that lies within another, without being
/// it, is not that other.
proof fn lemma_inside_differs(outer: Seq<char>, inner: Seq<char>, path: Seq<char>)
    requires
        within(outer, inner),
        inner != outer,
        within(inner, path),
    ensures
        path != outer,
{
}

/// Writing a file that lies outside the chapter storage area leaves the
/// area in step.
pub proof fn lemma_write_outside(
    disk: DiskView,
    project: ProjectView,
    path: Seq<char>,
    file: FileView,
)
    requires
        disk.chapters_in_step(project),
        project.placed(),
        !within(chapters_dir(project.root_path), path),
    ensures
        (DiskView { files: disk.files.insert(path, file), ..disk }).chapters_in_step(project),
{
    let after = DiskView { files: disk.files.insert(path, file), ..disk };
    assert forall|k: u64| #[trigger] project.chapters.contains_key(k) implies after.chapter_in_step(
        project.chapters[k],
    ) by {
        lemma_placed_chapter(project, k);
        let chapter = project.chapters[k];
        let dir = chapter.dir_path;
        assert(disk.chapter_in_step(chapter));
        assert forall|name: Seq<char>|
            after.files.contains_key(#[trigger] history_file(dir, name))
                implies after.holds_snapshot_before(dir, name, chapter.current_version) by {
            assert(disk.files.contains_key(history_file(dir, name)));
        }
    }
    assert forall|held: Seq<char>|
        #![trigger after.dirs.contains(held)]
        #![trigger after.files.contains_key(held)]
        after.holds(held) && within(chapters_dir(project.root_path), held) && held
            != chapters_dir(project.root_path) implies DiskView::is_of_a_chapter(
        project,
        held,
    ) by {
        assert(disk.holds(held));
    }
}

/// Persisting a project whose chapter storage area is in step brings disk
/// and project in step.
pub proof fn lemma_save_brings_in_step(disk: DiskView, project: ProjectView)
    requires
        disk.chapters_in_step(project),
        project.placed(),
    ensures
        disk.carry_out_all(project, project.save_ops()).in_step(project),
{
    let root = project.root_path;
    lemma_root_files(root);
    let ops = project.save_ops();
    let d0 = disk;
    let d1 = d0.carry_out(project, ops[0]);
    let d2 = d1.carry_out(project, ops[1]);
    let d3 = d2.carry_out(project, ops[2]);
    let d4 = d3.carry_out(project, ops[3]);
    assert(ops.len() == 4);
    let o3 = ops.drop_last();
    let o2 = o3.drop_last();
    let o1 = o2.drop_last();
    let o0 = o1.drop_last();
    assert(o0.len() == 0);
    assert(o1.last() == ops[0] && o2.last() == ops[1] && o3.last() == ops[2] && ops.last()
        == ops[3]);
    assert(d0.carry_out_all(project, o0) == d0);
    assert(d0.carry_out_all(project, o1) == d1);
    assert(d0.carry_out_all(project, o2) == d2);
    assert(d0.carry_out_all(project, o3) == d3);
    assert(d0.carry_out_all(project, ops) == d4);
    lemma_write_outside(d0, project, project_file(root), FileView::Project(stored_project(project)));
    lemma_write_outside(d1, project, characters_file(root), FileView::Characters(project.settings));
    lemma_write_outside(d2, project, world_file(root), FileView::World(project.settings));
    lemma_write_outside(d3, project, plot_file(root), FileView::Plot(project.settings));
    assert(d4.files[project_file(root)] == FileView::Project(stored_project(project)));
    assert(stored_project(project).chapters.dom() =~= project.chapters.dom());
}

/// Whether every chapter of `project` but the one under `k` has its files
/// on disk as they should be.
pub open spec fn others_in_step(disk: DiskView, project: ProjectView, k: u64) -> bool {
    forall|j: u64| #[trigger]
        project.chapters.contains_key(j) && j != k ==> disk.chapter_in_step(project.chapters[j])
}

/// Whether two disks hold the same outside the directory `dir`.
pub open spec fn same_outside(before: DiskView, after: DiskView, dir: Seq<char>) -> bool {
    forall|path: Seq<char>|
        #![trigger after.dirs.contains(path)]
        #![trigger after.files.contains_key(path)]
        !within(dir, path) ==> after.dirs.contains(path) == before.dirs.contains(path)
            && after.files.contains_key(path) == before.files.contains_key(path) && (
        after.files.contains_key(path) ==> after.files[path] == before.files[path])
}

/// A change to the disk within the storage directory of one chapter leaves
/// the files of the other chapters as they are, and brings no directory of
/// a chapter that the project lacks.
pub proof fn lemma_change_inside(before: DiskView, after: DiskView, project: ProjectView, k: u64)
    requires
        project.placed(),
        project.chapters.contains_key(k),
        others_in_step(before, project, k),
        before.no_orphans(project),
        before.dirs.contains(chapters_dir(project.root_path)),
        same_outside(before, after, project.chapters[k].dir_path),
    ensures
        others_in_step(after, project, k),
        after.no_orphans(project),
        after.dirs.contains(chapters_dir(project.root_path)),
{
    let root = project.root_path;
    let area = chapters_dir(root);
    let dir = project.chapters[k].dir_path;
    lemma_placed_chapter(project, k);
    assert(!within(dir, area)) by {
        if within(dir, area) {
            lemma_within_transitive(area, dir, area);
            assert(dir.len() <= area.len());
            assert(area.len() <= dir.len());
        }
    }
    assert forall|j: u64| #[trigger] project.chapters.contains_key(j) && j != k implies after.chapter_in_step(
        project.chapters[j],
    ) by {
        let other = project.chapters[j];
        lemma_placed_chapter(project, j);
        lemma_chapter_files(other.dir_path);
        assert(before.chapter_in_step(other));
        assert(ChapterId(j) != ChapterId(k));
        lemma_apart(root, ChapterId(j), ChapterId(k), other.dir_path);
        lemma_apart(root, ChapterId(j), ChapterId(k), metadata_file(other.dir_path));
        lemma_apart(root, ChapterId(j), ChapterId(k), content_file(other.dir_path));
        assert(after.dirs.contains(other.dir_path));
        assert(after.files.contains_key(metadata_file(other.dir_path)));
        assert(after.files.contains_key(content_file(other.dir_path)));
        lemma_apart(root, ChapterId(j), ChapterId(k), history_dir(other.dir_path));
        assert forall|name: Seq<char>|
            after.files.contains_key(#[trigger] history_file(other.dir_path, name))
                implies after.holds_snapshot_before(other.dir_path, name, other.current_version) by {
            let file = history_file(other.dir_path, name);
            lemma_apart(root, ChapterId(j), ChapterId(k), file);
            assert(before.files.contains_key(file));
            assert(before.holds_snapshot_before(other.dir_path, name, other.current_version));
            assert(after.files[file] == before.files[file]);
            assert(after.dirs.contains(history_dir(other.dir_path)));
        }
    }
    assert forall|path: Seq<char>|
        #![trigger after.dirs.contains(path)]
        #![trigger after.files.contains_key(path)]
        after.holds(path) && within(area, path) && path != area implies DiskView::is_of_a_chapter(
        project,
        path,
    ) by {
        if within(dir, path) {
            assert(within(project.chapters[k].dir_path, path));
        } else {
            assert(before.holds(path));
        }
    }
    assert(after.dirs.contains(area));
}

/// Persisting a project after a change that leaves alone what the disk
/// holds of its chapters keeps disk and project in step.
pub proof fn lemma_restructuring_keeps_step(
    disk: DiskView,
    before: ProjectView,
    after: ProjectView,
)
    requires
        disk.in_step(before),
        before.placed(),
        after.root_path == before.root_path,
        after.chapters.dom() == before.chapters.dom(),
        forall|k: u64| #[trigger]
            before.chapters.contains_key(k) ==> same_on_disk(
                before.chapters[k],
                after.chapters[k],
            ),
    ensures
        disk.carry_out_all(after, before.save_ops()).in_step(after),
        after.placed(),
{
    lemma_same_files(disk, before, after);
    lemma_save_brings_in_step(disk, after);
    assert(before.save_ops() == after.save_ops());
}

/// Creating a volume keeps disk and project in step.
pub proof fn lemma_create_volume_keeps_step(
    disk: DiskView,
    project: ProjectView,
    id: VolumeId,
    title: Seq<char>,
    now: crate::types::Timestamp,
)
    requires
        disk.in_step(project),
        project.placed(),
    ensures
        disk.carry_out_all(project.create_volume(id, title, now), project.save_ops()).in_step(
            project.create_volume(id, title, now),
        ),
        project.create_volume(id, title, now).placed(),
{
    lemma_restructuring_keeps_step(disk, project, project.create_volume(id, title, now));
}

/// Renaming a volume keeps disk and project in step.
pub proof fn lemma_rename_volume_keeps_step(
    disk: DiskView,
    project: ProjectView,
    id: VolumeId,
    title: Seq<char>,
    now: crate::types::Timestamp,
)
    requires
        disk.in_step(project),
        project.placed(),
    ensures
        disk.carry_out_all(
            project.rename_volume(id, title, now),
            project.rename_volume_ops(id),
        ).in_step(project.rename_volume(id, title, now)),
        project.rename_volume(id, title, now).placed(),
{
    if project.volume_index(id) is Some {
        lemma_restructuring_keeps_step(disk, project, project.rename_volume(id, title, now));
    }
}

/// Reordering the chapters of a volume keeps disk and project in step.
pub proof fn lemma_reorder_keeps_step(
    disk: DiskView,
    project: ProjectView,
    volume_id: VolumeId,
    ids: Seq<ChapterId>,
    now: crate::types::Timestamp,
)
    requires
        disk.in_step(project),
        project.placed(),
    ensures
        project.reorder_chapters_in_volume(volume_id, ids, now) matches Ok(after)
            ==> disk.carry_out_all(after, project.reorder_ops(volume_id)).in_step(after)
            && after.placed(),
{
    if project.reorder_chapters_in_volume(volume_id, ids, now) is Ok && project.volume_index(
        volume_id,
    ) is Some {
        let after = project.reorder_chapters_in_volume(volume_id, ids, now)->Ok_0;
        crate::model::lemma_renumbered(project.chapters, ids);
        lemma_restructuring_keeps_step(disk, project, after);
    }
}

/// Moving a chapter to a volume keeps disk and project in step.
pub proof fn lemma_move_keeps_step(
    disk: DiskView,
    project: ProjectView,
    id: ChapterId,
    target: VolumeId,
    wanted: nat,
    now: crate::types::Timestamp,
)
    requires
        disk.in_step(project),
        project.placed(),
    ensures
        project.move_chapter_to_volume(id, target, wanted, now) matches Ok(after)
            ==> disk.carry_out_all(after, project.save_ops()).in_step(after) && after.placed(),
{
    if project.chapters.contains_key(id.0) {
        let after = project.move_chapter_to_volume(id, target, wanted, now)->Ok_0;
        assert(after.chapters.dom() =~= project.chapters.dom());
        lemma_restructuring_keeps_step(disk, project, after);
    }
}

/// Writing the metadata of a chapter after a change to its title or its
/// status, and persisting the project, keeps disk and project in step.
pub proof fn lemma_metadata_change_keeps_step(
    disk: DiskView,
    before: ProjectView,
    after: ProjectView,
    id: ChapterId,
)
    requires
        disk.in_step(before),
        before.placed(),
        before.keyed(),
        before.chapters.contains_key(id.0),
        after == (ProjectView {
            chapters: before.chapters.insert(id.0, after.chapters[id.0]),
            modified_at: after.modified_at,
            ..before
        }),
        after.chapters[id.0] == (ChapterView {
            title: after.chapters[id.0].title,
            status: after.chapters[id.0].status,
            modified_at: after.chapters[id.0].modified_at,
            ..before.chapters[id.0]
        }),
    ensures
        disk.carry_out_all(after, before.chapter_metadata_ops(id)).in_step(after),
        after.placed(),
{
    let k = id.0;
    let old = before.chapters[k];
    let new = after.chapters[k];
    let dir = old.dir_path;
    assert(old.id == ChapterId(k));
    assert(after.chapters.dom() =~= before.chapters.dom());
    assert(after.placed()) by {
        assert forall|j: u64| #[trigger] after.chapters.contains_key(j) implies after.chapters[j].dir_path
            == chapter_dir(after.root_path, ChapterId(j)) by {
            assert(before.chapters.contains_key(j));
        }
    }
    lemma_placed_chapter(after, k);
    lemma_chapter_files(dir);
    let write = metadata_write(old.id, dir);
    let written = disk.carry_out(after, write);
    assert(rendered(after, DocumentView::ChapterMetadata(old.id)) == Some(
        FileView::Metadata(stored_chapter(new)),
    ));
    assert(written == (DiskView {
        files: disk.files.insert(metadata_file(dir), FileView::Metadata(stored_chapter(new))),
        ..disk
    }));
    assert(others_in_step(disk, after, k)) by {
        assert forall|j: u64| #[trigger] after.chapters.contains_key(j) && j != k implies disk.chapter_in_step(
            after.chapters[j],
        ) by {
            assert(before.chapters.contains_key(j));
        }
    }
    assert(disk.no_orphans(after)) by {
        assert forall|path: Seq<char>|
            #![trigger disk.dirs.contains(path)]
            #![trigger disk.files.contains_key(path)]
            disk.holds(path) && within(chapters_dir(after.root_path), path) && path
                != chapters_dir(after.root_path) implies DiskView::is_of_a_chapter(
            after,
            path,
        ) by {
            assert(DiskView::is_of_a_chapter(before, path));
            let j = choose|j: u64|
                #![trigger before.chapters[j]]
                before.chapters.contains_key(j) && within(before.chapters[j].dir_path, path);
            assert(after.chapters.contains_key(j));
            assert(within(after.chapters[j].dir_path, path));
        }
    }
    assert(same_outside(disk, written, dir));
    lemma_change_inside(disk, written, after, k);
    assert(written.chapter_in_step(new)) by {
        assert(disk.chapter_in_step(old));
        assert forall|name: Seq<char>|
            written.files.contains_key(#[trigger] history_file(dir, name))
                implies written.holds_snapshot_before(dir, name, new.current_version) by {
            assert(disk.files.contains_key(history_file(dir, name)));
        }
    }
    assert(written.chapters_in_step(after)) by {
        assert forall|j: u64| #[trigger] after.chapters.contains_key(j) implies written.chapter_in_step(
            after.chapters[j],
        ) by {}
    }
    lemma_save_brings_in_step(written, after);
    lemma_carry_out_single(disk, after, write);
    lemma_carry_out_concat(disk, after, seq![write], before.save_ops());
    assert(before.save_ops() == after.save_ops());
}

/// Renaming a chapter keeps disk and project in step.
pub proof fn lemma_rename_chapter_keeps_step(
    disk: DiskView,
    project: ProjectView,
    id: ChapterId,
    title: Seq<char>,
    now: crate::types::Timestamp,
)
    requires
        disk.in_step(project),
        project.placed(),
        project.keyed(),
    ensures
        disk.carry_out_all(
            project.rename_chapter(id, title, now),
            project.chapter_metadata_ops(id),
        ).in_step(project.rename_chapter(id, title, now)),
        project.rename_chapter(id, title, now).placed(),
{
    if project.chapters.contains_key(id.0) {
        lemma_metadata_change_keeps_step(disk, project, project.rename_chapter(id, title, now), id);
    }
}

/// Setting the status of a chapter keeps disk and project in step.
pub proof fn lemma_update_chapter_status_keeps_step(
    disk: DiskView,
    project: ProjectView,
    id: ChapterId,
    status: crate::types::ChapterStatus,
    now: crate::types::Timestamp,
)
    requires
        disk.in_step(project),
        project.placed(),
        project.keyed(),
    ensures
        disk.carry_out_all(
            project.update_chapter_status(id, status, now),
            project.chapter_metadata_ops(id),
        ).in_step(project.update_chapter_status(id, status, now)),
        project.update_chapter_status(id, status, now).placed(),
{
    if project.chapters.contains_key(id.0) {
        lemma_metadata_change_keeps_step(
            disk,
            project,
            project.update_chapter_status(id, status, now),
            id,
        );
    }
}

/// A project with one chapter changed has the other chapters in step and
/// no orphans on the disk on which the project was in step before.
proof fn lemma_others_stay(disk: DiskView, before: ProjectView, after: ProjectView, k: u64)
    requires
        disk.chapters_in_step(before),
        after.root_path == before.root_path,
        after.chapters.dom() == before.chapters.dom().insert(k),
        forall|j: u64| #[trigger]
            before.chapters.contains_key(j) && j != k ==> after.chapters[j] == before.chapters[j],
        before.chapters.contains_key(k) ==> after.chapters[k].dir_path
            == before.chapters[k].dir_path,
    ensures
        others_in_step(disk, after, k),
        disk.no_orphans(after),
{
    assert forall|j: u64| #[trigger] after.chapters.contains_key(j) && j != k implies disk.chapter_in_step(
        after.chapters[j],
    ) by {
        assert(before.chapters.contains_key(j));
    }
    assert forall|path: Seq<char>|
        #![trigger disk.dirs.contains(path)]
        #![trigger disk.files.contains_key(path)]
        disk.holds(path) && within(chapters_dir(after.root_path), path) && path != chapters_dir(
            after.root_path,
        ) implies DiskView::is_of_a_chapter(after, path) by {
        assert(DiskView::is_of_a_chapter(before, path));
        let j = choose|j: u64|
            #![trigger before.chapters[j]]
            before.chapters.contains_key(j) && within(before.chapters[j].dir_path, path);
        assert(after.chapters.contains_key(j));
        assert(within(after.chapters[j].dir_path, path));
    }
}

/// Replacing the text of a chapter keeps disk and project in step: the
/// snapshot, where one is taken, is of a version before the chapter's new
/// version.
pub proof fn lemma_update_chapter_content_keeps_step(
    disk: DiskView,
    project: ProjectView,
    id: ChapterId,
    content: Seq<char>,
    summary: Option<Seq<char>>,
    now: crate::types::Timestamp,
)
    requires
        disk.in_step(project),
        project.placed(),
        project.keyed(),
    ensures
        disk.carry_out_all(
            project.update_chapter_content(id, content, now),
            project.update_chapter_content_ops(id, content, summary, now),
        ).in_step(project.update_chapter_content(id, content, now)),
        project.update_chapter_content(id, content, now).placed(),
{
    let after = project.update_chapter_content(id, content, now);
    let ops = project.update_chapter_content_ops(id, content, summary, now);
    if project.chapters.contains_key(id.0) {
        let k = id.0;
        let old = project.chapters[k];
        let new = after.chapters[k];
        let dir = old.dir_path;
        assert(old.id == ChapterId(k));
        assert(after.chapters.dom() =~= project.chapters.dom());
        assert(after.placed()) by {
            assert forall|j: u64| #[trigger] after.chapters.contains_key(j) implies after.chapters[j].dir_path
                == chapter_dir(after.root_path, ChapterId(j)) by {
                assert(project.chapters.contains_key(j));
            }
        }
        lemma_placed_chapter(after, k);
        lemma_chapter_files(dir);
        assert(disk.chapter_in_step(old));
        lemma_others_stay(disk, project, after, k);

        // The snapshot, where one is taken.
        let snapshot = snapshot_of(old, old.content, summary, now);
        let taken = snapshot_ops(dir, snapshot);
        let snapshotted = if takes_snapshot(old, content) {
            disk.carry_out_all(after, taken)
        } else {
            disk
        };
        lemma_version_file(dir, snapshot.version);
        let file = version_file(dir, snapshot.version);
        if takes_snapshot(old, content) {
            let made = disk.carry_out(after, taken[0]);
            assert(taken.drop_last() =~= seq![taken[0]]);
            lemma_carry_out_single(disk, after, taken[0]);
            assert(snapshotted == made.carry_out(after, taken[1]));
            assert(snapshotted == (DiskView {
                dirs: disk.dirs.insert(history_dir(dir)),
                files: disk.files.insert(file, FileView::Snapshot(snapshot)),
            }));
        }
        assert(same_outside(disk, snapshotted, dir));

        // The content and the metadata.
        let writes = seq![content_write(id, dir), metadata_write(old.id, dir)];
        let with_content = snapshotted.carry_out(after, writes[0]);
        let written = with_content.carry_out(after, writes[1]);
        assert(writes.drop_last() =~= seq![writes[0]]);
        lemma_carry_out_single(snapshotted, after, writes[0]);
        assert(snapshotted.carry_out_all(after, writes) == written);
        assert(rendered(after, DocumentView::ChapterContent(id)) == Some(
            FileView::Content(new.content),
        ));
        assert(rendered(after, DocumentView::ChapterMetadata(old.id)) == Some(
            FileView::Metadata(stored_chapter(new)),
        ));
        assert(written == (DiskView {
            files: snapshotted.files.insert(
                content_file(dir),
                FileView::Content(new.content),
            ).insert(metadata_file(dir), FileView::Metadata(stored_chapter(new))),
            ..snapshotted
        }));
        assert(same_outside(disk, written, dir));
        lemma_change_inside(disk, written, after, k);
        assert(written.chapter_in_step(new)) by {
            assert forall|name: Seq<char>|
                written.files.contains_key(#[trigger] history_file(dir, name))
                    implies written.holds_snapshot_before(dir, name, new.current_version) by {
                let path = history_file(dir, name);
                if takes_snapshot(old, content) && path == file {
                    lemma_join_distinct(history_dir(dir), name, version_file_name(snapshot.version));
                } else {
                    assert(disk.files.contains_key(path));
                    assert(DiskView::is_snapshot_before(
                        disk.files[path],
                        name,
                        old.current_version,
                    ));
                }
            }
        }
        assert(written.chapters_in_step(after)) by {
            assert forall|j: u64| #[trigger] after.chapters.contains_key(j) implies written.chapter_in_step(
                after.chapters[j],
            ) by {}
        }
        // The root metadata stays, and still is of the project.
        lemma_root_files(project.root_path);
        assert(!within(dir, project_file(project.root_path))) by {
            if within(dir, project_file(project.root_path)) {
                lemma_within_transitive(
                    chapters_dir(project.root_path),
                    dir,
                    project_file(project.root_path),
                );
            }
        }
        assert(written.root_in_step(after));
        if takes_snapshot(old, content) {
            lemma_carry_out_concat(disk, after, taken, writes);
            assert(ops == taken + writes);
        } else {
            assert(ops == writes);
        }
    }
}

/// Creating a chapter keeps disk and project in step: the chapter gets a
/// storage directory of its own with its files, and its history is empty.
pub proof fn lemma_create_chapter_keeps_step(
    disk: DiskView,
    project: ProjectView,
    title: Seq<char>,
    volume_id: VolumeId,
    now: crate::types::Timestamp,
    n: u64,
)
    requires
        disk.in_step(project),
        project.placed(),
        is_fresh_id(project.chapters, n),
    ensures
        project.create_chapter_in(title, volume_id, now) matches Ok(after)
            ==> disk.carry_out_all(after, project.create_chapter_ops(ChapterId(n))).in_step(after)
            && after.placed(),
{
    if project.create_chapter_in(title, volume_id, now) is Ok {
        let after = project.create_chapter_in(title, volume_id, now)->Ok_0;
        lemma_fresh_id(project.chapters, n);
        let id = ChapterId(n);
        let root = project.root_path;
        let dir = chapter_dir(root, id);
        let new = after.chapters[n];
        assert(new.dir_path == dir);
        assert(after.chapters.dom() =~= project.chapters.dom().insert(n));
        assert(after.placed()) by {
            assert forall|j: u64| #[trigger] after.chapters.contains_key(j) implies after.chapters[j].dir_path
                == chapter_dir(after.root_path, ChapterId(j)) by {
                if j != n {
                    assert(project.chapters.contains_key(j));
                }
            }
        }
        lemma_placed_chapter(after, n);
        lemma_chapter_files(dir);
        lemma_others_stay(disk, project, after, n);
        // Nothing is within the new storage directory before.
        assert forall|path: Seq<char>| within(dir, path) implies !disk.holds(path) by {
            if disk.holds(path) {
                lemma_within_transitive(chapters_dir(root), dir, path);
                assert(disk.dirs.contains(path) || disk.files.contains_key(path));
                assert(DiskView::is_of_a_chapter(project, path));
                let j = choose|j: u64|
                    #![trigger project.chapters[j]]
                    project.chapters.contains_key(j) && within(project.chapters[j].dir_path, path);
                assert(ChapterId(j) != id);
                lemma_apart(root, ChapterId(j), id, path);
            }
        }
        let first = seq![
            StorageOpView::CreateDir { path: dir },
            metadata_write(id, dir),
            content_write(id, dir),
        ];
        let d1 = disk.carry_out(after, first[0]);
        let d2 = d1.carry_out(after, first[1]);
        let d3 = d2.carry_out(after, first[2]);
        let f2 = first.drop_last();
        assert(f2.drop_last() =~= seq![first[0]]);
        lemma_carry_out_single(disk, after, first[0]);
        assert(disk.carry_out_all(after, f2) == d2);
        assert(disk.carry_out_all(after, first) == d3);
        assert(rendered(after, DocumentView::ChapterMetadata(id)) == Some(
            FileView::Metadata(stored_chapter(new)),
        ));
        assert(rendered(after, DocumentView::ChapterContent(id)) == Some(
            FileView::Content(new.content),
        ));
        assert(d3 == (DiskView {
            dirs: disk.dirs.insert(dir),
            files: disk.files.insert(
                metadata_file(dir),
                FileView::Metadata(stored_chapter(new)),
            ).insert(content_file(dir), FileView::Content(new.content)),
        }));
        assert(same_outside(disk, d3, dir));
        lemma_change_inside(disk, d3, after, n);
        assert(d3.chapter_in_step(new)) by {
            assert forall|name: Seq<char>|
                d3.files.contains_key(#[trigger] history_file(dir, name))
                    implies d3.holds_snapshot_before(dir, name, new.current_version) by {
                assert(!disk.holds(history_file(dir, name)));
            }
        }
        assert(d3.chapters_in_step(after)) by {
            assert forall|j: u64| #[trigger] after.chapters.contains_key(j) implies d3.chapter_in_step(
                after.chapters[j],
            ) by {}
        }
        lemma_save_brings_in_step(d3, after);
        lemma_carry_out_concat(disk, after, first, project.save_ops());
        assert(project.save_ops() == after.save_ops());
        assert(project.create_chapter_ops(id) == first + project.save_ops());
    }
}

/// Removing the storage directory of a chapter keeps the chapter storage
/// area in step with the project without that chapter: the directory and
/// all in it are gone, and the other chapters are untouched.
pub proof fn lemma_remove_chapter_dir(disk: DiskView, project: ProjectView, k: u64)
    requires
        disk.chapters_in_step(project),
        project.placed(),
        project.chapters.contains_key(k),
    ensures
        disk.carry_out(project, dir_removal(project.chapters[k])).chapters_in_step(
            ProjectView { chapters: project.chapters.remove(k), ..project },
        ),
        !disk.carry_out(project, dir_removal(project.chapters[k])).holds(
            project.chapters[k].dir_path,
        ),
        (ProjectView { chapters: project.chapters.remove(k), ..project }).placed(),
{
    let root = project.root_path;
    let area = chapters_dir(root);
    let dir = project.chapters[k].dir_path;
    let after = disk.carry_out(project, dir_removal(project.chapters[k]));
    let rest = ProjectView { chapters: project.chapters.remove(k), ..project };
    lemma_placed_chapter(project, k);
    assert(!within(dir, area)) by {
        if within(dir, area) {
            assert(dir.len() <= area.len());
            assert(area.len() <= dir.len());
        }
    }
    assert forall|j: u64| #[trigger] rest.chapters.contains_key(j) implies after.chapter_in_step(
        rest.chapters[j],
    ) by {
        let other = project.chapters[j];
        assert(project.chapters.contains_key(j));
        lemma_placed_chapter(project, j);
        lemma_chapter_files(other.dir_path);
        assert(disk.chapter_in_step(other));
        assert(ChapterId(j) != ChapterId(k));
        lemma_apart(root, ChapterId(j), ChapterId(k), other.dir_path);
        lemma_apart(root, ChapterId(j), ChapterId(k), metadata_file(other.dir_path));
        lemma_apart(root, ChapterId(j), ChapterId(k), content_file(other.dir_path));
        lemma_apart(root, ChapterId(j), ChapterId(k), history_dir(other.dir_path));
        assert forall|name: Seq<char>|
            after.files.contains_key(#[trigger] history_file(other.dir_path, name))
                implies after.holds_snapshot_before(other.dir_path, name, other.current_version) by {
            let file = history_file(other.dir_path, name);
            assert(disk.files.contains_key(file));
            assert(disk.holds_snapshot_before(other.dir_path, name, other.current_version));
        }
    }
    assert forall|path: Seq<char>|
        #![trigger after.dirs.contains(path)]
        #![trigger after.files.contains_key(path)]
        after.holds(path) && within(area, path) && path != area implies DiskView::is_of_a_chapter(
        rest,
        path,
    ) by {
        assert(disk.holds(path));
        assert(DiskView::is_of_a_chapter(project, path));
        let j = choose|j: u64|
            #![trigger project.chapters[j]]
            project.chapters.contains_key(j) && within(project.chapters[j].dir_path, path);
        assert(j != k);
        assert(rest.chapters.contains_key(j));
        assert(within(rest.chapters[j].dir_path, path));
    }
}

/// Deleting a chapter keeps disk and project in step, and leaves nothing
/// of the chapter on disk.
pub proof fn lemma_delete_chapter_keeps_step(
    disk: DiskView,
    project: ProjectView,
    id: ChapterId,
    now: crate::types::Timestamp,
)
    requires
        disk.in_step(project),
        project.placed(),
    ensures
        disk.carry_out_all(project.delete_chapter(id, now), project.delete_chapter_ops(id)).in_step(
            project.delete_chapter(id, now),
        ),
        project.delete_chapter(id, now).placed(),
        project.chapters.contains_key(id.0) ==> !disk.carry_out_all(
            project.delete_chapter(id, now),
            project.delete_chapter_ops(id),
        ).holds(project.chapters[id.0].dir_path),
{
    let after = project.delete_chapter(id, now);
    if project.chapters.contains_key(id.0) {
        let k = id.0;
        let removal = dir_removal(project.chapters[k]);
        let rest = ProjectView { chapters: project.chapters.remove(k), ..project };
        lemma_remove_chapter_dir(disk, project, k);
        let removed = disk.carry_out(project, removal);
        assert(removed == disk.carry_out(after, removal));
        assert(after.chapters.dom() =~= rest.chapters.dom()) by {
            if project.listing_volume(id) is Some {
                let v = project.listing_volume(id)->Some_0;
                crate::model::lemma_renumbered(
                    project.chapters.remove(k),
                    crate::seqs::remove_first(project.volumes[v].chapter_ids, id),
                );
            }
        }
        assert forall|j: u64| #[trigger] rest.chapters.contains_key(j) implies same_on_disk(
            rest.chapters[j],
            after.chapters[j],
        ) by {
            if project.listing_volume(id) is Some {
                let v = project.listing_volume(id)->Some_0;
                crate::model::lemma_renumbered(
                    project.chapters.remove(k),
                    crate::seqs::remove_first(project.volumes[v].chapter_ids, id),
                );
            }
        }
        lemma_same_files(removed, rest, after);
        lemma_save_brings_in_step(removed, after);
        lemma_carry_out_single(disk, after, removal);
        lemma_carry_out_concat(disk, after, seq![removal], project.save_ops());
        assert(project.save_ops() == after.save_ops());
        lemma_saving_adds_root_files(removed, after);
        lemma_placed_chapter(project, k);
        lemma_root_files(project.root_path);
    }
}

/// Persisting a project changes nothing within its chapter storage area.
proof fn lemma_saving_adds_root_files(disk: DiskView, project: ProjectView)
    ensures
        forall|path: Seq<char>|
            within(chapters_dir(project.root_path), path) ==> disk.carry_out_all(
                project,
                project.save_ops(),
            ).holds(path) == disk.holds(path),
{
    let root = project.root_path;
    lemma_root_files(root);
    let ops = project.save_ops();
    let d1 = disk.carry_out(project, ops[0]);
    let d2 = d1.carry_out(project, ops[1]);
    let d3 = d2.carry_out(project, ops[2]);
    let d4 = d3.carry_out(project, ops[3]);
    let o3 = ops.drop_last();
    let o2 = o3.drop_last();
    let o1 = o2.drop_last();
    let o0 = o1.drop_last();
    assert(o0.len() == 0);
    assert(o1.last() == ops[0] && o2.last() == ops[1] && o3.last() == ops[2] && ops.last()
        == ops[3]);
    assert(disk.carry_out_all(project, o0) == disk);
    assert(disk.carry_out_all(project, o1) == d1);
    assert(disk.carry_out_all(project, o2) == d2);
    assert(disk.carry_out_all(project, o3) == d3);
    assert(disk.carry_out_all(project, ops) == d4);
}

/// The project without the chapters that the first `n` of `ids` list.
pub open spec fn without_listed(project: ProjectView, ids: Seq<ChapterId>, n: int) -> ProjectView {
    ProjectView {
        chapters: project.chapters.remove_keys(crate::model::id_numbers(ids.take(n))),
        ..project
    }
}

/// Removing the storage directories of the chapters that a list names
/// keeps the chapter storage area in step with the project without these
/// chapters, and leaves none of these directories behind.
pub proof fn lemma_removals_keep_step(
    disk: DiskView,
    project: ProjectView,
    using: ProjectView,
    ids: Seq<ChapterId>,
    n: int,
)
    requires
        disk.chapters_in_step(project),
        project.placed(),
        0 <= n <= ids.len(),
    ensures
        disk.carry_out_all(using, removal_ops(project.chapters, ids.take(n))).chapters_in_step(
            without_listed(project, ids, n),
        ),
        without_listed(project, ids, n).placed(),
        forall|i: int|
            0 <= i < n && project.chapters.contains_key((#[trigger] ids[i]).0)
                ==> !disk.carry_out_all(using, removal_ops(project.chapters, ids.take(n))).holds(
                project.chapters[ids[i].0].dir_path,
            ),
    decreases n,
{
    let listed = ids.take(n);
    let after = disk.carry_out_all(using, removal_ops(project.chapters, listed));
    if n == 0 {
        assert(crate::model::id_numbers(listed) =~= Set::empty());
        assert(without_listed(project, ids, 0).chapters =~= project.chapters);
        lemma_same_files(disk, project, without_listed(project, ids, 0));
    } else {
        lemma_removals_keep_step(disk, project, using, ids, n - 1);
        let shorter = ids.take(n - 1);
        assert(listed.drop_last() == shorter);
        assert(listed.last() == ids[n - 1]);
        crate::model::lemma_id_numbers_take(ids, n - 1);
        let id = ids[n - 1];
        let before = disk.carry_out_all(using, removal_ops(project.chapters, shorter));
        let kept = without_listed(project, ids, n - 1);
        assert(ChapterId(id.0) == id);
        assert(kept.chapters.contains_key(id.0) == (project.chapters.contains_key(id.0)
            && !shorter.contains(id)));
        if project.chapters.contains_key(id.0) && !shorter.contains(id) {
            let removal = dir_removal(project.chapters[id.0]);
            assert(kept.chapters[id.0] == project.chapters[id.0]);
            lemma_remove_chapter_dir(before, kept, id.0);
            let earlier = removal_ops(project.chapters, shorter);
            assert(removal_ops(project.chapters, listed) == earlier.push(removal));
            assert(earlier.push(removal).drop_last() =~= earlier);
            assert(after == before.carry_out(using, removal));
            assert(before.carry_out(using, removal) == before.carry_out(kept, removal));
            assert(kept.chapters.remove(id.0) =~= without_listed(project, ids, n).chapters);
        } else {
            assert(after == before);
            assert(kept.chapters =~= without_listed(project, ids, n).chapters);
        }
        assert forall|i: int|
            0 <= i < n && project.chapters.contains_key((#[trigger] ids[i]).0)
                implies !after.holds(project.chapters[ids[i].0].dir_path) by {
            if i < n - 1 {
                assert(!before.holds(project.chapters[ids[i].0].dir_path));
            } else if shorter.contains(id) {
                let w = choose|w: int| 0 <= w < shorter.len() && shorter[w] == id;
                assert(ids[w] == id);
                assert(!before.holds(project.chapters[ids[w].0].dir_path));
            }
        }
    }
}

/// Deleting a volume keeps disk and project in step, and leaves none of
/// the storage directories of its chapters on disk.
pub proof fn lemma_delete_volume_keeps_step(
    disk: DiskView,
    project: ProjectView,
    id: VolumeId,
    now: crate::types::Timestamp,
)
    requires
        disk.in_step(project),
        project.placed(),
    ensures
        disk.carry_out_all(project.delete_volume(id, now), project.delete_volume_ops(id)).in_step(
            project.delete_volume(id, now),
        ),
        project.delete_volume(id, now).placed(),
        project.volume_index(id) matches Some(v) ==> forall|i: int|
            0 <= i < project.volumes[v].chapter_ids.len() && project.chapters.contains_key(
                (#[trigger] project.volumes[v].chapter_ids[i]).0,
            ) ==> !disk.carry_out_all(
                project.delete_volume(id, now),
                project.delete_volume_ops(id),
            ).holds(project.chapters[project.volumes[v].chapter_ids[i].0].dir_path),
{
    let after = project.delete_volume(id, now);
    if project.volume_index(id) is Some {
        lemma_find_first_is_first(project.volumes, crate::model::volume_has_id(id));
        let v = project.volume_index(id)->Some_0;
        let ids = project.volumes[v].chapter_ids;
        lemma_removals_keep_step(disk, project, after, ids, ids.len() as int);
        assert(ids.take(ids.len() as int) == ids);
        let removals = removal_ops(project.chapters, ids);
        let removed = disk.carry_out_all(after, removals);
        let rest = without_listed(project, ids, ids.len() as int);
        assert(after.chapters == rest.chapters);
        lemma_same_files(removed, rest, after);
        lemma_save_brings_in_step(removed, after);
        lemma_carry_out_concat(disk, after, removals, project.save_ops());
        assert(project.save_ops() == after.save_ops());
        lemma_saving_adds_root_files(removed, after);
        assert forall|i: int|
            0 <= i < ids.len() && project.chapters.contains_key((#[trigger] ids[i]).0)
                implies !disk.carry_out_all(after, project.delete_volume_ops(id)).holds(
            project.chapters[ids[i].0].dir_path,
        ) by {
            lemma_placed_chapter(project, ids[i].0);
        }
    }
}

/// Laying out a project's directories and persisting it brings disk and
/// project in step, where the disk holds the chapters of the project and
/// no directory of another chapter: so for a new project on a disk that
/// holds nothing.
pub proof fn lemma_initialize_brings_in_step(disk: DiskView, project: ProjectView)
    requires
        project.placed(),
        forall|k: u64| #[trigger]
            project.chapters.contains_key(k) ==> disk.chapter_in_step(project.chapters[k]),
        disk.no_orphans(project),
    ensures
        disk.carry_out_all(project, project.initialize_ops()).in_step(project),
{
    let root = project.root_path;
    let area = chapters_dir(root);
    crate::paths::lemma_root_dirs(root);
    let made = DiskView {
        dirs: disk.dirs.insert(metadata_dir(root)).insert(area).insert(drafts_dir(root)),
        ..disk
    };
    let dirs = seq![
        StorageOpView::CreateDir { path: metadata_dir(root) },
        StorageOpView::CreateDir { path: area },
        StorageOpView::CreateDir { path: drafts_dir(root) },
    ];
    let d1 = disk.carry_out(project, dirs[0]);
    let d2 = d1.carry_out(project, dirs[1]);
    let d3 = d2.carry_out(project, dirs[2]);
    let two = dirs.drop_last();
    assert(two.drop_last() =~= seq![dirs[0]]);
    lemma_carry_out_single(disk, project, dirs[0]);
    assert(disk.carry_out_all(project, two) == d2);
    assert(disk.carry_out_all(project, dirs) == d3);
    assert(d3 == made);
    assert forall|k: u64| #[trigger] project.chapters.contains_key(k) implies made.chapter_in_step(
        project.chapters[k],
    ) by {
        assert(disk.chapter_in_step(project.chapters[k]));
    }
    assert forall|path: Seq<char>|
        #![trigger made.dirs.contains(path)]
        #![trigger made.files.contains_key(path)]
        made.holds(path) && within(area, path) && path != area implies DiskView::is_of_a_chapter(
        project,
        path,
    ) by {
        assert(disk.holds(path));
    }
    lemma_save_brings_in_step(made, project);
    lemma_carry_out_concat(disk, project, dirs, project.save_ops());
}

/// What reading the root metadata of the project at `root` gives.
pub open spec fn read_project(disk: DiskView, root: Seq<char>) -> FileRead<ProjectView> {
    if !disk.files.contains_key(project_file(root)) {
        FileRead::Absent
    } else {
        match disk.files[project_file(root)] {
            FileView::Project(stored) => FileRead::Loaded(stored),
            _ => FileRead::Malformed,
        }
    }
}

/// What reading the metadata file at `path` gives.
pub open spec fn read_metadata(disk: DiskView, path: Seq<char>) -> FileRead<ChapterView> {
    if !disk.files.contains_key(path) {
        FileRead::Absent
    } else {
        match disk.files[path] {
            FileView::Metadata(stored) => FileRead::Loaded(stored),
            _ => FileRead::Malformed,
        }
    }
}

/// What reading the content file at `path` gives.
pub open spec fn read_content(disk: DiskView, path: Seq<char>) -> FileRead<Seq<char>> {
    if !disk.files.contains_key(path) {
        FileRead::Absent
    } else {
        match disk.files[path] {
            FileView::Content(text) => FileRead::Loaded(text),
            _ => FileRead::Malformed,
        }
    }
}

/// Whether `history` is the listing of the history directory of the
/// chapter stored in `dir`: it names the files that are there, or there is
/// no such directory.
pub open spec fn lists_history(disk: DiskView, dir: Seq<char>, history: DirReadView<Seq<char>>)
    -> bool {
    match history {
        DirReadView::Absent => !disk.dirs.contains(history_dir(dir)),
        DirReadView::Unreadable => false,
        DirReadView::Listed(names) => disk.dirs.contains(history_dir(dir)) && forall|
            name: Seq<char>,
        |
            names.contains(name) <==> disk.files.contains_key(#[trigger] history_file(dir, name)),
    }
}

/// Whether `entry` is what is found at `path`, an entry of the chapter
/// storage area.
pub open spec fn is_entry_at(disk: DiskView, entry: ChapterDirEntryView, path: Seq<char>) -> bool {
    &&& disk.holds(path)
    &&& entry.path == path
    &&& entry.is_dir == disk.dirs.contains(path)
    &&& entry.metadata == read_metadata(disk, metadata_file(path))
    &&& entry.content == read_content(disk, content_file(path))
    &&& lists_history(disk, path, entry.history)
}

/// Whether `entries` are what scanning the chapter storage area of the
/// project at `root` finds: every entry is found under its name in the area,
/// and every directory of the area is among the entries.
#[verifier::opaque]
pub open spec fn is_scan_of(disk: DiskView, root: Seq<char>, entries: Seq<ChapterDirEntryView>)
    -> bool {
    &&& forall|i: int|
        0 <= i < entries.len() ==> exists|name: Seq<char>|
            is_entry_name(name) && is_entry_at(
                disk,
                #[trigger] entries[i],
                #[trigger] crate::layout::join(chapters_dir(root), name),
            )
    &&& forall|name: Seq<char>|
        is_entry_name(name) && disk.dirs.contains(
            #[trigger] crate::layout::join(chapters_dir(root), name),
        ) ==> exists|i: int|
            0 <= i < entries.len() && (#[trigger] entries[i]).path == crate::layout::join(
                chapters_dir(root),
                name,
            )
}

/// An entry of the chapter storage area of a disk that is in step with a
/// project is the storage directory of a chapter of the project, with its
/// files.
proof fn lemma_entry_holds_chapter(
    disk: DiskView,
    project: ProjectView,
    entry: ChapterDirEntryView,
    name: Seq<char>,
)
    requires
        disk.in_step(project),
        project.placed(),
        project.countable(),
        is_entry_name(name),
        is_entry_at(disk, entry, crate::layout::join(chapters_dir(project.root_path), name)),
    ensures
        exists|k: u64|
            #![trigger project.chapters[k]]
            project.chapters.contains_key(k) && holds_chapter(entry, project.chapters[k]),
{
    let root = project.root_path;
    let area = chapters_dir(root);
    let path = crate::layout::join(area, name);
    lemma_chapters_dir_plain(root);
    crate::paths::lemma_join_plain(area, name);
    assert(disk.dirs.contains(path) || disk.files.contains_key(path));
    assert(DiskView::is_of_a_chapter(project, path));
    let k = choose|k: u64|
        #![trigger project.chapters[k]]
        project.chapters.contains_key(k) && within(project.chapters[k].dir_path, path);
    let chapter = project.chapters[k];
    lemma_entry_within_chapter_dir(root, ChapterId(k), name);
    assert(path == chapter.dir_path);
    assert(disk.chapter_in_step(chapter));
    assert(latest_version(entry.path, entry.history) is Ok) by {
        match entry.history {
            DirReadView::Listed(names) => {
                lemma_newest_version(names);
                if newest_version(names) is Some {
                    let newest = newest_version(names)->Some_0;
                    let i = choose|i: int|
                        0 <= i < names.len() && snapshot_version(#[trigger] names[i]) == Some(
                            newest,
                        );
                    assert(names.contains(names[i]));
                    assert(disk.files.contains_key(history_file(path, names[i])));
                    assert(disk.holds_snapshot_before(path, names[i], chapter.current_version));
                    let version = disk.files[history_file(path, names[i])]->Snapshot_0.version;
                    lemma_version_file_name_roundtrip(version as u32);
                }
            },
            _ => {},
        }
    }
    assert(holds_chapter(entry, project.chapters[k]));
}

/// Loading the project from a disk that is in step with it gives the
/// project back: its title, its volumes and its chapters are the same,
/// every chapter with its title, its text and its status.
pub proof fn lemma_load_finds_project(
    disk: DiskView,
    project: ProjectView,
    entries: Seq<ChapterDirEntryView>,
)
    requires
        disk.in_step(project),
        project.placed(),
        project.keyed(),
        project.countable(),
        is_scan_of(disk, project.root_path, entries),
    ensures
        ProjectView::load(
            project.root_path,
            read_project(disk, project.root_path),
            DirReadView::Listed(entries),
        ) matches Ok(loaded) && {
            &&& loaded.root_path == project.root_path
            &&& loaded.title == project.title
            &&& loaded.volumes == project.volumes
            &&& loaded.settings == project.settings
            &&& loaded.chapters.dom() == project.chapters.dom()
            &&& forall|k: u64| #[trigger]
                project.chapters.contains_key(k) ==> gives_back(
                    loaded.chapters[k],
                    project.chapters[k],
                )
        },
{
    let root = project.root_path;
    let stored = disk.files[project_file(root)]->Project_0;
    lemma_scan_holds_chapters(disk, project, entries);
    lemma_load_gives_back(project, root, stored, entries);
}

/// What loading makes of the storage directory of a chapter has its
/// files on disk as they should be: its version is greater than that of
/// every snapshot in its history.
proof fn lemma_loaded_chapter_in_step(
    disk: DiskView,
    chapter: ChapterView,
    entry: ChapterDirEntryView,
    back: ChapterView,
)
    requires
        disk.chapter_in_step(chapter),
        chapter.current_version < u32::MAX,
        is_entry_at(disk, entry, chapter.dir_path),
        holds_chapter(entry, chapter),
        is_loaded_as(back, entry),
    ensures
        disk.chapter_in_step(back),
        back.id == chapter.id,
        back.dir_path == chapter.dir_path,
{
    let dir = chapter.dir_path;
    let history = entry.history;
    assert(lists_history(disk, dir, history));
    assert forall|name: Seq<char>|
        disk.files.contains_key(#[trigger] history_file(dir, name))
            implies disk.holds_snapshot_before(dir, name, back.current_version) by {
        assert(disk.holds_snapshot_before(dir, name, chapter.current_version));
        let version = disk.files[history_file(dir, name)]->Snapshot_0.version;
        lemma_version_file_name_roundtrip(version as u32);
        match history {
            DirReadView::Listed(names) => {
                assert(names.contains(name));
                let at = choose|at: int| 0 <= at < names.len() && names[at] == name;
                crate::history::lemma_latest_version_exceeds(dir, names);
                assert(snapshot_version(names[at]) == Some(version as u32));
            },
            _ => {},
        }
    }
}

/// An entry that scanning found is the storage directory of a chapter of
/// the project.
proof fn lemma_scanned_entry(
    disk: DiskView,
    project: ProjectView,
    entries: Seq<ChapterDirEntryView>,
    i: int,
) -> (k: u64)
    requires
        disk.in_step(project),
        project.placed(),
        project.countable(),
        is_scan_of(disk, project.root_path, entries),
        0 <= i < entries.len(),
    ensures
        project.chapters.contains_key(k),
        holds_chapter(entries[i], project.chapters[k]),
        is_entry_at(disk, entries[i], project.chapters[k].dir_path),
{
    reveal(is_scan_of);
    let area = chapters_dir(project.root_path);
    let name = choose|name: Seq<char>|
        is_entry_name(name) && is_entry_at(
            disk,
            #[trigger] entries[i],
            #[trigger] crate::layout::join(area, name),
        );
    lemma_entry_holds_chapter(disk, project, entries[i], name);
    let k = choose|k: u64|
        #![trigger project.chapters[k]]
        project.chapters.contains_key(k) && holds_chapter(entries[i], project.chapters[k]);
    k
}

/// Scanning finds the storage directory of every chapter of the project.
proof fn lemma_chapter_scanned(
    disk: DiskView,
    project: ProjectView,
    entries: Seq<ChapterDirEntryView>,
    k: u64,
) -> (i: int)
    requires
        disk.in_step(project),
        project.placed(),
        project.countable(),
        is_scan_of(disk, project.root_path, entries),
        project.chapters.contains_key(k),
    ensures
        0 <= i < entries.len(),
        holds_chapter(entries[i], project.chapters[k]),
        is_entry_at(disk, entries[i], project.chapters[k].dir_path),
{
    let root = project.root_path;
    let area = chapters_dir(root);
    let id = ChapterId(k);
    let chapter = project.chapters[k];
    let name = crate::layout::chapter_dir_name(id);
    crate::paths::lemma_chapter_dir_name(id);
    assert(disk.chapter_in_step(chapter));
    assert(chapter.dir_path == crate::layout::join(area, name));
    assert(exists|i: int|
        0 <= i < entries.len() && (#[trigger] entries[i]).path == crate::layout::join(area, name))
        by {
        reveal(is_scan_of);
    }
    let i = choose|i: int|
        0 <= i < entries.len() && (#[trigger] entries[i]).path == crate::layout::join(area, name);
    let j = lemma_scanned_entry(disk, project, entries, i);
    if j != k {
        crate::paths::lemma_chapter_dirs_apart(root, ChapterId(j), id);
    }
    i
}

/// What scanning the chapter storage area of a disk that is in step with a
/// project finds are the storage directories of the project's chapters.
proof fn lemma_scan_holds_chapters(
    disk: DiskView,
    project: ProjectView,
    entries: Seq<ChapterDirEntryView>,
)
    requires
        disk.in_step(project),
        project.placed(),
        project.countable(),
        is_scan_of(disk, project.root_path, entries),
    ensures
        holds_chapters_of(entries, project),
{
    assert forall|i: int| 0 <= i < entries.len() implies holds_a_chapter_of(
        #[trigger] entries[i],
        project,
    ) by {
        let k = lemma_scanned_entry(disk, project, entries, i);
        reveal(holds_a_chapter_of);
        assert(project.chapters.contains_key(k) && holds_chapter(entries[i], project.chapters[k]));
    }
    assert forall|k: u64| #[trigger] project.chapters.contains_key(k) implies is_held(
        entries,
        project.chapters[k],
    ) by {
        let i = lemma_chapter_scanned(disk, project, entries, k);
        reveal(is_held);
        assert(0 <= i < entries.len() && holds_chapter(entries[i], project.chapters[k]));
    }
}

/// The chapter that loading has put into the index under `k` has its files
/// on disk as they should be, and is stored where the chapter of the
/// project was.
proof fn lemma_loaded_chapter(
    disk: DiskView,
    project: ProjectView,
    entries: Seq<ChapterDirEntryView>,
    back: ChapterView,
    k: u64,
)
    requires
        disk.in_step(project),
        project.placed(),
        project.keyed(),
        project.countable(),
        is_scan_of(disk, project.root_path, entries),
        project.chapters.contains_key(k),
        is_loaded_from(back, entries),
        back.id == ChapterId(k),
    ensures
        disk.chapter_in_step(back),
        back.dir_path == project.chapters[k].dir_path,
{
    let i = choose|i: int| 0 <= i < entries.len() && is_loaded_as(back, #[trigger] entries[i]);
    let j = lemma_scanned_entry(disk, project, entries, i);
    assert(project.chapters[j].id == ChapterId(j));
    assert(j == k);
    assert(disk.chapter_in_step(project.chapters[k]));
    lemma_loaded_chapter_in_step(disk, project.chapters[k], entries[i], back);
}

/// The chapters that loading has put into the index have their files on
/// disk as they should be, and are stored where the chapters of the project
/// were.
proof fn lemma_loaded_chapters(
    disk: DiskView,
    project: ProjectView,
    entries: Seq<ChapterDirEntryView>,
    loaded: ProjectView,
)
    requires
        disk.in_step(project),
        project.placed(),
        project.keyed(),
        project.countable(),
        is_scan_of(disk, project.root_path, entries),
        loaded.chapters.dom() == project.chapters.dom(),
        forall|k: u64|
            project.chapters.contains_key(k) ==> is_loaded_from(
                #[trigger] loaded.chapters[k],
                entries,
            ),
        forall|k: u64| #[trigger]
            project.chapters.contains_key(k) ==> loaded.chapters[k].id == ChapterId(k),
    ensures
        forall|k: u64| #[trigger]
            loaded.chapters.contains_key(k) ==> disk.chapter_in_step(loaded.chapters[k])
                && loaded.chapters[k].dir_path == project.chapters[k].dir_path,
{
    assert forall|k: u64| #[trigger] loaded.chapters.contains_key(k) implies disk.chapter_in_step(
        loaded.chapters[k],
    ) && loaded.chapters[k].dir_path == project.chapters[k].dir_path by {
        assert(project.chapters.contains_key(k));
        let back = loaded.chapters[k];
        assert(is_loaded_from(back, entries));
        lemma_loaded_chapter(disk, project, entries, back, k);
    }
}

/// Disk and project are in step after loading as they were before: the
/// store can go on from what it has loaded.
pub proof fn lemma_load_keeps_step(
    disk: DiskView,
    project: ProjectView,
    entries: Seq<ChapterDirEntryView>,
)
    requires
        disk.in_step(project),
        project.placed(),
        project.keyed(),
        project.countable(),
        is_scan_of(disk, project.root_path, entries),
    ensures
        ProjectView::load(
            project.root_path,
            read_project(disk, project.root_path),
            DirReadView::Listed(entries),
        ) matches Ok(loaded) && disk.in_step(loaded) && loaded.placed() && loaded.keyed(),
{
    let root = project.root_path;
    let stored = disk.files[project_file(root)]->Project_0;
    assert(read_project(disk, root) == FileRead::Loaded(stored));
    assert(is_root_metadata_of(stored, project));
    lemma_scan_holds_chapters(disk, project, entries);
    lemma_load_gives_back(project, root, stored, entries);
    lemma_loaded_from_entries(project, root, stored, entries);
    let loaded = ProjectView::load(root, FileRead::Loaded(stored), DirReadView::Listed(entries))->Ok_0;
    assert forall|k: u64| #[trigger] project.chapters.contains_key(k) implies loaded.chapters[k].id
        == ChapterId(k) by {
        assert(gives_back(loaded.chapters[k], project.chapters[k]));
    }
    lemma_loaded_chapters(disk, project, entries, loaded);
    lemma_no_orphans_for(disk, project, loaded);
    lemma_assemble(disk, project, loaded, stored);
}

/// A disk is in step with a project that has the root metadata, the places
/// and the files of a project with which the disk is in step.
proof fn lemma_assemble(
    disk: DiskView,
    project: ProjectView,
    loaded: ProjectView,
    stored: ProjectView,
)
    requires
        project.placed(),
        loaded.root_path == project.root_path,
        loaded.chapters.dom() == project.chapters.dom(),
        disk.dirs.contains(chapters_dir(project.root_path)),
        disk.files.contains_key(project_file(project.root_path)),
        disk.files[project_file(project.root_path)] == FileView::Project(stored),
        is_root_metadata_of(stored, project),
        loaded.title == project.title,
        loaded.volumes == project.volumes,
        loaded.settings == project.settings,
        stored.created_at == loaded.created_at,
        disk.no_orphans(loaded),
        forall|k: u64| #[trigger]
            loaded.chapters.contains_key(k) ==> disk.chapter_in_step(loaded.chapters[k])
                && loaded.chapters[k].dir_path == project.chapters[k].dir_path,
        forall|k: u64| #[trigger]
            project.chapters.contains_key(k) ==> loaded.chapters[k].id == ChapterId(k),
    ensures
        disk.in_step(loaded),
        loaded.placed(),
        loaded.keyed(),
{
    assert forall|k: u64| #[trigger] loaded.chapters.contains_key(k) implies loaded.chapters[k].dir_path
        == chapter_dir(loaded.root_path, ChapterId(k)) && loaded.chapters[k].id == ChapterId(
        k,
    ) by {
        assert(project.chapters.contains_key(k));
    }
}

/// A disk without orphans for a project has none for a project with the
/// same chapters in the same places.
proof fn lemma_no_orphans_for(disk: DiskView, project: ProjectView, loaded: ProjectView)
    requires
        disk.no_orphans(project),
        loaded.root_path == project.root_path,
        loaded.chapters.dom() == project.chapters.dom(),
        forall|k: u64| #[trigger]
            project.chapters.contains_key(k) ==> loaded.chapters[k].dir_path
                == project.chapters[k].dir_path,
    ensures
        disk.no_orphans(loaded),
{
    assert forall|path: Seq<char>|
        #![trigger disk.dirs.contains(path)]
        #![trigger disk.files.contains_key(path)]
        disk.holds(path) && within(chapters_dir(loaded.root_path), path) && path != chapters_dir(
            loaded.root_path,
        ) implies DiskView::is_of_a_chapter(loaded, path) by {
        assert(DiskView::is_of_a_chapter(project, path));
        let k = choose|k: u64|
            #![trigger project.chapters[k]]
            project.chapters.contains_key(k) && within(project.chapters[k].dir_path, path);
        assert(loaded.chapters.contains_key(k));
        assert(within(loaded.chapters[k].dir_path, path));
    }
}

/// On a disk that is in step with a project whose chapters are stored in
/// their places, the storage directory of a chapter exists if and only if
/// the project has the chapter.
pub proof fn lemma_directory_iff_chapter(disk: DiskView, project: ProjectView, id: ChapterId)
    requires
        disk.in_step(project),
        project.placed(),
    ensures
        disk.holds(chapter_dir(project.root_path, id)) <==> project.chapters.contains_key(id.0),
{
    let root = project.root_path;
    let dir = chapter_dir(root, id);
    lemma_chapter_dir(root, id);
    if project.chapters.contains_key(id.0) {
        assert(disk.chapter_in_step(project.chapters[id.0]));
        assert(ChapterId(id.0) == id);
    }
    if disk.holds(dir) {
        assert(disk.dirs.contains(dir) || disk.files.contains_key(dir));
        assert(DiskView::is_of_a_chapter(project, dir));
        let k = choose|k: u64|
            #![trigger project.chapters[k]]
            project.chapters.contains_key(k) && within(project.chapters[k].dir_path, dir);
        if ChapterId(k) != id {
            crate::paths::lemma_chapter_dirs_apart(root, ChapterId(k), id);
        }
    }
}

/// Laying out a new project on a disk that holds nothing brings disk and
/// project in step.
pub proof fn lemma_new_project_in_step(
    root_path: Seq<char>,
    title: Seq<char>,
    volume_id: VolumeId,
    settings: SettingsView,
    now: crate::types::Timestamp,
)
    ensures
        ({
            let project = ProjectView::fresh(root_path, title, volume_id, settings, now);
            &&& DiskView::empty().carry_out_all(project, project.initialize_ops()).in_step(project)
            &&& project.placed()
            &&& project.countable()
        }),
{
    let project = ProjectView::fresh(root_path, title, volume_id, settings, now);
    lemma_initialize_brings_in_step(DiskView::empty(), project);
}

} // verus!
