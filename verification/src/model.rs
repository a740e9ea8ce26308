//! The mathematical model of a project: its view, and what each operation of
//! the store makes of it.
//!
//! Every operation of [`crate::project::NovelProject`] is specified by a
//! function of this module that maps the view before the operation to the view
//! after it, and by one that gives the changes to the disk that it asks for.

use crate::layout::{
    chapter_dir, chapters_dir, characters_file, content_file, drafts_dir, history_dir,
    metadata_dir, metadata_file, plot_file, project_file, version_file, world_file,
};
use crate::seqs::{
    find_first, is_last, last_position, lemma_last_position, lemma_last_position_is_last,
    lemma_last_position_unique, remove_first,
};
use crate::storage::{DocumentView, Missing, StorageOpView, StoreErrorView};
use crate::text::{decimal, word_count};
use crate::types::{
    ChapterId, ChapterStatus, ChapterView, SettingsView, Timestamp, VersionView, VolumeId,
    VolumeView,
};
use vstd::prelude::*;

verus! {

/// The view of a project.
#[verifier::ext_equal]
pub struct ProjectView {
    /// Where the project is stored.
    pub root_path: Seq<char>,
    /// The project's title.
    pub title: Seq<char>,
    /// The volumes, in order.
    pub volumes: Seq<VolumeView>,
    /// The chapter index, by the number of each chapter's identifier.
    pub chapters: Map<u64, ChapterView>,
    /// Characters, world and plot.
    pub settings: SettingsView,
    /// Creation time.
    pub created_at: Timestamp,
    /// Last modification time.
    pub modified_at: Timestamp,
}

/// The title of the volume that every new project starts with.
pub open spec fn default_volume_title() -> Seq<char> {
    "Volume 1"@
}

/// The summary of a snapshot for which none was given.
pub open spec fn default_summary() -> Seq<char> {
    "自动保存"@
}

/// The summary of the snapshot taken when `version` is restored.
pub open spec fn restore_summary(version: nat) -> Seq<char> {
    "restored to version "@ + decimal(version)
}

/// A volume as it is created.
pub open spec fn new_volume(id: VolumeId, title: Seq<char>, order: nat, now: Timestamp)
    -> VolumeView {
    VolumeView {
        id,
        title,
        order,
        chapter_ids: Seq::empty(),
        description: Seq::empty(),
        created_at: now,
        modified_at: now,
    }
}

/// `volumes` with each volume's order set to its position.
pub open spec fn renumbered_volumes(volumes: Seq<VolumeView>) -> Seq<VolumeView> {
    Seq::new(volumes.len(), |i: int| VolumeView { order: i as nat, ..volumes[i] })
}

/// `chapters` with the cached order of each chapter that `ids` lists set to
/// the last position at which `ids` lists it.
pub open spec fn renumbered(chapters: Map<u64, ChapterView>, ids: Seq<ChapterId>) -> Map<
    u64,
    ChapterView,
> {
    Map::new(
        |k: u64| chapters.contains_key(k),
        |k: u64|
            if ids.contains(ChapterId(k)) {
                ChapterView { order: last_position(ids, ChapterId(k)) as nat, ..chapters[k] }
            } else {
                chapters[k]
            },
    )
}

/// Renumbering by a list with one more chapter is renumbering by the list
/// and then setting the order of that chapter, if the index holds it.
pub proof fn lemma_renumbered_take(chapters: Map<u64, ChapterView>, ids: Seq<ChapterId>, j: int)
    requires
        0 <= j < ids.len(),
    ensures
        renumbered(chapters, ids.take(j + 1)) == ({
            let before = renumbered(chapters, ids.take(j));
            if before.contains_key(ids[j].0) {
                before.insert(ids[j].0, ChapterView { order: j as nat, ..before[ids[j].0] })
            } else {
                before
            }
        }),
{
    let shorter = ids.take(j);
    let longer = ids.take(j + 1);
    let before = renumbered(chapters, shorter);
    let after = if before.contains_key(ids[j].0) {
        before.insert(ids[j].0, ChapterView { order: j as nat, ..before[ids[j].0] })
    } else {
        before
    };
    assert forall|k: u64| #[trigger] chapters.contains_key(k) implies renumbered(
        chapters,
        longer,
    )[k] == after[k] by {
        let id = ChapterId(k);
        if k == ids[j].0 {
            assert(longer[j] == id);
            assert(is_last(longer, id, j));
            lemma_last_position(longer, id, j);
        } else {
            if shorter.contains(id) {
                let w = choose|w: int| 0 <= w < shorter.len() && shorter[w] == id;
                assert(longer[w] == id);
                lemma_last_position_is_last(shorter, id);
                let p = last_position(shorter, id);
                assert forall|i: int| p < i < longer.len() implies #[trigger] longer[i] != id by {
                    if i < j {
                        assert(shorter[i] != id);
                    }
                }
                assert(longer[p] == shorter[p]);
                assert(is_last(longer, id, p));
                lemma_last_position(longer, id, p);
            }
            if longer.contains(id) {
                let w = choose|w: int| 0 <= w < longer.len() && longer[w] == id;
                assert(shorter[w] == id);
            }
        }
    }
    assert(renumbered(chapters, longer) =~= after);
}

/// Renumbering leaves every chapter what it is but for its order, which for
/// a chapter that a list without duplicates holds is its position there.
pub proof fn lemma_renumbered(chapters: Map<u64, ChapterView>, ids: Seq<ChapterId>)
    ensures
        renumbered(chapters, ids).dom() == chapters.dom(),
        forall|k: u64| #[trigger]
            chapters.contains_key(k) ==> renumbered(chapters, ids)[k] == (ChapterView {
                order: renumbered(chapters, ids)[k].order,
                ..chapters[k]
            }),
        forall|k: u64| #[trigger]
            chapters.contains_key(k) && !ids.contains(ChapterId(k)) ==> renumbered(
                chapters,
                ids,
            )[k] == chapters[k],
        ids.no_duplicates() ==> forall|i: int|
            0 <= i < ids.len() && chapters.contains_key(#[trigger] ids[i].0) ==> renumbered(
                chapters,
                ids,
            )[ids[i].0].order == i,
{
    assert(renumbered(chapters, ids).dom() =~= chapters.dom());
    if ids.no_duplicates() {
        assert forall|i: int|
            0 <= i < ids.len() && chapters.contains_key(#[trigger] ids[i].0) implies renumbered(
            chapters,
            ids,
        )[ids[i].0].order == i by {
            assert(ChapterId(ids[i].0) == ids[i]);
            lemma_last_position_unique(ids, i);
        }
    }
}

/// The removals of the storage directories of the chapters that `ids` lists
/// and `chapters` holds, once each, in the order of `ids`.
pub open spec fn removal_ops(chapters: Map<u64, ChapterView>, ids: Seq<ChapterId>) -> Seq<
    StorageOpView,
>
    decreases ids.len(),
{
    if ids.len() == 0 {
        Seq::empty()
    } else {
        let before = ids.drop_last();
        let id = ids.last();
        if chapters.contains_key(id.0) && !before.contains(id) {
            removal_ops(chapters, before).push(dir_removal(chapters[id.0]))
        } else {
            removal_ops(chapters, before)
        }
    }
}

/// The numbers of the identifiers in `ids`.
pub open spec fn id_numbers(ids: Seq<ChapterId>) -> Set<u64> {
    Set::new(|k: u64| ids.contains(ChapterId(k)))
}

/// Listing one more chapter adds its number to the numbers listed.
pub proof fn lemma_id_numbers_take(ids: Seq<ChapterId>, j: int)
    requires
        0 <= j < ids.len(),
    ensures
        id_numbers(ids.take(j + 1)) == id_numbers(ids.take(j)).insert(ids[j].0),
{
    let shorter = ids.take(j);
    let longer = ids.take(j + 1);
    assert forall|k: u64|
        id_numbers(longer).contains(k) == id_numbers(shorter).insert(ids[j].0).contains(k) by {
        let id = ChapterId(k);
        if longer.contains(id) {
            let w = choose|w: int| 0 <= w < longer.len() && longer[w] == id;
            if w < j {
                assert(shorter[w] == id);
            }
        }
        if shorter.contains(id) {
            let w = choose|w: int| 0 <= w < shorter.len() && shorter[w] == id;
            assert(longer[w] == id);
        }
        if k == ids[j].0 {
            assert(longer[j] == id);
        }
    }
    assert(id_numbers(longer) =~= id_numbers(shorter).insert(ids[j].0));
}

/// Whether `n` is the number of the identifier that the next chapter gets:
/// the least number from the count of chapters on that no chapter has.
pub open spec fn is_fresh_id(chapters: Map<u64, ChapterView>, n: u64) -> bool {
    &&& chapters.len() <= n
    &&& !chapters.contains_key(n)
    &&& forall|m: u64| chapters.len() <= m < n ==> #[trigger] chapters.contains_key(m)
}

/// Only one number is that of the identifier that the next chapter gets.
pub proof fn lemma_fresh_id(chapters: Map<u64, ChapterView>, n: u64)
    requires
        is_fresh_id(chapters, n),
    ensures
        fresh_id(chapters) == ChapterId(n),
{
    let m = choose|m: u64| is_fresh_id(chapters, m);
    assert(is_fresh_id(chapters, m));
    if m < n {
        assert(chapters.contains_key(m));
    }
    if n < m {
        assert(chapters.contains_key(n));
    }
}

/// A finite set that holds every number from `lo` up to `hi` has at least
/// `hi - lo` elements.
pub proof fn lemma_run_fits(numbers: Set<u64>, lo: u64, hi: u64)
    requires
        numbers.finite(),
        lo <= hi,
        forall|m: u64| lo <= m < hi ==> #[trigger] numbers.contains(m),
    ensures
        hi - lo <= numbers.len(),
    decreases hi - lo,
{
    if lo < hi {
        let top = (hi - 1) as u64;
        assert(numbers.contains(top));
        lemma_run_fits(numbers.remove(top), lo, top);
    }
}

/// Where the chapters are at most half as many as there are numbers, the
/// next chapter can get an identifier.
pub proof fn lemma_fresh_id_exists(chapters: Map<u64, ChapterView>)
    requires
        chapters.dom().finite(),
        2 * chapters.len() <= u64::MAX,
    ensures
        exists|n: u64| is_fresh_id(chapters, n),
{
    lemma_fresh_id_below(chapters, chapters.len() as u64);
}

/// Where every number from the count of chapters up to `n` is taken, a
/// number from `n` on is that of the next identifier.
proof fn lemma_fresh_id_below(chapters: Map<u64, ChapterView>, n: u64)
    requires
        chapters.dom().finite(),
        2 * chapters.len() <= u64::MAX,
        chapters.len() <= n,
        forall|m: u64| chapters.len() <= m < n ==> #[trigger] chapters.contains_key(m),
    ensures
        exists|k: u64| is_fresh_id(chapters, k),
    decreases 2 * chapters.len() - n,
{
    lemma_run_fits(chapters.dom(), chapters.len() as u64, n);
    if chapters.contains_key(n) {
        lemma_run_fits(chapters.dom(), chapters.len() as u64, (n + 1) as u64);
        lemma_fresh_id_below(chapters, (n + 1) as u64);
    } else {
        assert(is_fresh_id(chapters, n));
    }
}

/// The identifier that the next chapter gets.
pub open spec fn fresh_id(chapters: Map<u64, ChapterView>) -> ChapterId {
    ChapterId(choose|n: u64| is_fresh_id(chapters, n))
}

/// A chapter as it is created.
pub open spec fn new_chapter(
    id: ChapterId,
    title: Seq<char>,
    order: nat,
    volume_id: VolumeId,
    dir_path: Seq<char>,
    now: Timestamp,
) -> ChapterView {
    ChapterView {
        id,
        title,
        order,
        volume_id,
        dir_path,
        content: Seq::empty(),
        word_count: 0,
        status: ChapterStatus::NotStarted,
        current_version: 0,
        created_at: now,
        modified_at: now,
    }
}

/// Whether replacing the text of `chapter` by `content` puts the text so far
/// into the history: it does unless that text is empty or the same.
pub open spec fn takes_snapshot(chapter: ChapterView, content: Seq<char>) -> bool {
    chapter.content.len() > 0 && chapter.content != content
}

/// The snapshot that records `content` as the text of `chapter` at its
/// current version.
pub open spec fn snapshot_of(
    chapter: ChapterView,
    content: Seq<char>,
    summary: Option<Seq<char>>,
    now: Timestamp,
) -> VersionView {
    VersionView {
        version: chapter.current_version,
        content,
        word_count: chapter.word_count,
        summary: match summary {
            Some(s) => s,
            None => default_summary(),
        },
        timestamp: now,
    }
}

/// `chapter` with its text replaced by `content`.
pub open spec fn with_content(chapter: ChapterView, content: Seq<char>, now: Timestamp)
    -> ChapterView {
    ChapterView {
        content,
        word_count: word_count(content),
        modified_at: now,
        current_version: chapter.current_version + 1,
        ..chapter
    }
}

/// The write of the metadata file of the chapter `id`, stored in `dir_path`.
pub open spec fn metadata_write(id: ChapterId, dir_path: Seq<char>) -> StorageOpView {
    StorageOpView::Write {
        path: metadata_file(dir_path),
        document: DocumentView::ChapterMetadata(id),
    }
}

/// The write of the content file of the chapter `id`, stored in `dir_path`.
pub open spec fn content_write(id: ChapterId, dir_path: Seq<char>) -> StorageOpView {
    StorageOpView::Write {
        path: content_file(dir_path),
        document: DocumentView::ChapterContent(id),
    }
}

/// The removal of a chapter's storage directory.
pub open spec fn dir_removal(chapter: ChapterView) -> StorageOpView {
    StorageOpView::RemoveDir { path: chapter.dir_path }
}

/// The two changes that put a snapshot into the history of the chapter stored
/// in `dir_path`.
pub open spec fn snapshot_ops(dir_path: Seq<char>, snapshot: VersionView) -> Seq<StorageOpView> {
    seq![
        StorageOpView::CreateDir { path: history_dir(dir_path) },
        StorageOpView::Write {
            path: version_file(dir_path, snapshot.version),
            document: DocumentView::Snapshot(snapshot),
        },
    ]
}

/// The property of a volume to have the identifier `id`.
pub open spec fn volume_has_id(id: VolumeId) -> spec_fn(VolumeView) -> bool {
    |v: VolumeView| v.id == id
}

/// The property of a volume to list the chapter `id`.
pub open spec fn volume_lists(id: ChapterId) -> spec_fn(VolumeView) -> bool {
    |v: VolumeView| v.chapter_ids.contains(id)
}

/// The property of a volume to have the identifier `volume_id` and to list
/// the chapter `id`.
pub open spec fn volume_holds(id: ChapterId, volume_id: VolumeId) -> spec_fn(VolumeView) -> bool {
    |v: VolumeView| v.id == volume_id && v.chapter_ids.contains(id)
}

impl ProjectView {
    /// A new project: one empty default volume, no chapters.
    pub open spec fn fresh(
        root_path: Seq<char>,
        title: Seq<char>,
        volume_id: VolumeId,
        settings: SettingsView,
        now: Timestamp,
    ) -> ProjectView {
        ProjectView {
            root_path,
            title,
            volumes: seq![new_volume(volume_id, default_volume_title(), 0, now)],
            chapters: Map::empty(),
            settings,
            created_at: now,
            modified_at: now,
        }
    }

    /// The position of the first volume with identifier `id`.
    pub open spec fn volume_index(self, id: VolumeId) -> Option<int> {
        find_first(self.volumes, volume_has_id(id))
    }

    /// The position of the first volume that lists the chapter `id`.
    pub open spec fn listing_volume(self, id: ChapterId) -> Option<int> {
        find_first(self.volumes, volume_lists(id))
    }

    /// The writes of the three settings documents.
    pub open spec fn settings_ops(self) -> Seq<StorageOpView> {
        seq![
            StorageOpView::Write {
                path: characters_file(self.root_path),
                document: DocumentView::Characters,
            },
            StorageOpView::Write {
                path: world_file(self.root_path),
                document: DocumentView::World,
            },
            StorageOpView::Write { path: plot_file(self.root_path), document: DocumentView::Plot },
        ]
    }

    /// The writes that persist the project: its root metadata, then the
    /// settings documents.
    pub open spec fn save_ops(self) -> Seq<StorageOpView> {
        seq![
            StorageOpView::Write {
                path: project_file(self.root_path),
                document: DocumentView::Project,
            },
        ] + self.settings_ops()
    }

    /// The changes that lay out the project's directories and persist it.
    pub open spec fn initialize_ops(self) -> Seq<StorageOpView> {
        seq![
            StorageOpView::CreateDir { path: metadata_dir(self.root_path) },
            StorageOpView::CreateDir { path: chapters_dir(self.root_path) },
            StorageOpView::CreateDir { path: drafts_dir(self.root_path) },
        ] + self.save_ops()
    }

    /// The project with a new, empty volume `id` at the end.
    pub open spec fn create_volume(self, id: VolumeId, title: Seq<char>, now: Timestamp)
        -> ProjectView {
        ProjectView {
            volumes: self.volumes.push(new_volume(id, title, self.volumes.len(), now)),
            modified_at: now,
            ..self
        }
    }

    /// The project without the first volume `id` and without the chapters
    /// that it lists; the remaining volumes are renumbered.  Unchanged where
    /// there is no such volume.
    pub open spec fn delete_volume(self, id: VolumeId, now: Timestamp) -> ProjectView {
        match self.volume_index(id) {
            None => self,
            Some(v) => ProjectView {
                volumes: renumbered_volumes(self.volumes.remove(v)),
                chapters: self.chapters.remove_keys(id_numbers(self.volumes[v].chapter_ids)),
                modified_at: now,
                ..self
            },
        }
    }

    /// The changes to the disk that deleting the volume `id` asks for.
    pub open spec fn delete_volume_ops(self, id: VolumeId) -> Seq<StorageOpView> {
        match self.volume_index(id) {
            None => Seq::empty(),
            Some(v) => removal_ops(self.chapters, self.volumes[v].chapter_ids) + self.save_ops(),
        }
    }

    /// The project with the first volume `id` renamed.  Unchanged where there
    /// is no such volume.
    pub open spec fn rename_volume(self, id: VolumeId, title: Seq<char>, now: Timestamp)
        -> ProjectView {
        match self.volume_index(id) {
            None => self,
            Some(v) => ProjectView {
                volumes: self.volumes.update(
                    v,
                    VolumeView { title, modified_at: now, ..self.volumes[v] },
                ),
                modified_at: now,
                ..self
            },
        }
    }

    /// The changes to the disk that renaming the volume `id` asks for.
    pub open spec fn rename_volume_ops(self, id: VolumeId) -> Seq<StorageOpView> {
        match self.volume_index(id) {
            None => Seq::empty(),
            Some(_) => self.save_ops(),
        }
    }

    /// The project with a new chapter at the end of the first volume
    /// `volume_id`, or the error where there is no such volume.
    pub open spec fn create_chapter_in(self, title: Seq<char>, volume_id: VolumeId, now: Timestamp)
        -> Result<ProjectView, StoreErrorView> {
        match self.volume_index(volume_id) {
            None => Err(StoreErrorView::NotFound(Missing::Volume(volume_id))),
            Some(v) => {
                let id = fresh_id(self.chapters);
                let volume = self.volumes[v];
                let chapter = new_chapter(
                    id,
                    title,
                    volume.chapter_ids.len(),
                    volume_id,
                    chapter_dir(self.root_path, id),
                    now,
                );
                Ok(
                    ProjectView {
                        volumes: self.volumes.update(
                            v,
                            VolumeView {
                                chapter_ids: volume.chapter_ids.push(id),
                                modified_at: now,
                                ..volume
                            },
                        ),
                        chapters: self.chapters.insert(id.0, chapter),
                        modified_at: now,
                        ..self
                    },
                )
            },
        }
    }

    /// The changes to the disk that creating the chapter `id` asks for.
    pub open spec fn create_chapter_ops(self, id: ChapterId) -> Seq<StorageOpView> {
        let dir = chapter_dir(self.root_path, id);
        seq![
            StorageOpView::CreateDir { path: dir },
            metadata_write(id, dir),
            content_write(id, dir),
        ] + self.save_ops()
    }

    /// The project without the chapter `id`: it leaves the index and the
    /// first volume that lists it, whose remaining chapters are renumbered.
    /// Unchanged where the index has no such chapter.
    pub open spec fn delete_chapter(self, id: ChapterId, now: Timestamp) -> ProjectView {
        if !self.chapters.contains_key(id.0) {
            self
        } else {
            let chapters = self.chapters.remove(id.0);
            match self.listing_volume(id) {
                None => ProjectView { chapters, modified_at: now, ..self },
                Some(v) => {
                    let ids = remove_first(self.volumes[v].chapter_ids, id);
                    ProjectView {
                        volumes: self.volumes.update(
                            v,
                            VolumeView { chapter_ids: ids, ..self.volumes[v] },
                        ),
                        chapters: renumbered(chapters, ids),
                        modified_at: now,
                        ..self
                    }
                },
            }
        }
    }

    /// The changes to the disk that deleting the chapter `id` asks for.
    pub open spec fn delete_chapter_ops(self, id: ChapterId) -> Seq<StorageOpView> {
        if !self.chapters.contains_key(id.0) {
            Seq::empty()
        } else {
            seq![dir_removal(self.chapters[id.0])] + self.save_ops()
        }
    }

    /// The project with the chapter `id` replaced by `chapter`, which was
    /// changed at `now`.
    pub open spec fn with_chapter(self, id: ChapterId, chapter: ChapterView, now: Timestamp)
        -> ProjectView {
        ProjectView { chapters: self.chapters.insert(id.0, chapter), modified_at: now, ..self }
    }

    /// The project with the chapter `id` renamed.  Unchanged where the index
    /// has no such chapter.
    pub open spec fn rename_chapter(self, id: ChapterId, title: Seq<char>, now: Timestamp)
        -> ProjectView {
        if !self.chapters.contains_key(id.0) {
            self
        } else {
            self.with_chapter(
                id,
                ChapterView { title, modified_at: now, ..self.chapters[id.0] },
                now,
            )
        }
    }

    /// The changes to the disk that renaming a chapter or setting its status
    /// asks for: the chapter's metadata, then the project.
    pub open spec fn chapter_metadata_ops(self, id: ChapterId) -> Seq<StorageOpView> {
        if !self.chapters.contains_key(id.0) {
            Seq::empty()
        } else {
            let chapter = self.chapters[id.0];
            seq![metadata_write(chapter.id, chapter.dir_path)] + self.save_ops()
        }
    }

    /// The project with the status of the chapter `id` set.  Unchanged where
    /// the index has no such chapter.
    pub open spec fn update_chapter_status(self, id: ChapterId, status: ChapterStatus, now: Timestamp)
        -> ProjectView {
        if !self.chapters.contains_key(id.0) {
            self
        } else {
            self.with_chapter(
                id,
                ChapterView { status, modified_at: now, ..self.chapters[id.0] },
                now,
            )
        }
    }

    /// The project with the text of the chapter `id` replaced and its
    /// version counted up.  Unchanged where the index has no such chapter.
    pub open spec fn update_chapter_content(self, id: ChapterId, content: Seq<char>, now: Timestamp)
        -> ProjectView {
        if !self.chapters.contains_key(id.0) {
            self
        } else {
            self.with_chapter(id, with_content(self.chapters[id.0], content, now), now)
        }
    }

    /// The changes to the disk that replacing the text of the chapter `id`
    /// asks for: the snapshot of the text so far where one is taken, then the
    /// chapter's content and metadata.  The project's root metadata is not
    /// written.
    pub open spec fn update_chapter_content_ops(
        self,
        id: ChapterId,
        content: Seq<char>,
        summary: Option<Seq<char>>,
        now: Timestamp,
    ) -> Seq<StorageOpView> {
        if !self.chapters.contains_key(id.0) {
            Seq::empty()
        } else {
            let chapter = self.chapters[id.0];
            let writes = seq![
                content_write(id, chapter.dir_path),
                metadata_write(chapter.id, chapter.dir_path),
            ];
            if takes_snapshot(chapter, content) {
                snapshot_ops(
                    chapter.dir_path,
                    snapshot_of(chapter, chapter.content, summary, now),
                ) + writes
            } else {
                writes
            }
        }
    }

    /// Whether the chapter `id` can be put into an order of the chapters of
    /// the volume `volume_id`: the index has it, and it belongs to that
    /// volume.
    pub open spec fn belongs_to(self, id: ChapterId, volume_id: VolumeId) -> bool {
        self.chapters.contains_key(id.0) && self.chapters[id.0].volume_id == volume_id
    }

    /// The property of a chapter not to belong to the volume `volume_id`.
    pub open spec fn is_foreign(self, volume_id: VolumeId) -> spec_fn(ChapterId) -> bool {
        |id: ChapterId| !self.belongs_to(id, volume_id)
    }

    /// The position of the first chapter in `ids` that does not belong to
    /// the volume `volume_id`.
    pub open spec fn first_foreign(self, ids: Seq<ChapterId>, volume_id: VolumeId) -> Option<
        int,
    > {
        find_first(ids, self.is_foreign(volume_id))
    }

    /// The project with `ids` as the chapters of the first volume
    /// `volume_id`, each of them with its position as its cached order; the
    /// error where one of them does not belong to the volume.  Unchanged
    /// where there is no such volume.
    pub open spec fn reorder_chapters_in_volume(
        self,
        volume_id: VolumeId,
        ids: Seq<ChapterId>,
        now: Timestamp,
    ) -> Result<ProjectView, StoreErrorView> {
        match self.volume_index(volume_id) {
            None => Ok(self),
            Some(v) => match self.first_foreign(ids, volume_id) {
                Some(i) => Err(StoreErrorView::InvalidArgument(ids[i])),
                None => Ok(
                    ProjectView {
                        volumes: self.volumes.update(
                            v,
                            VolumeView { chapter_ids: ids, modified_at: now, ..self.volumes[v] },
                        ),
                        chapters: renumbered(self.chapters, ids),
                        modified_at: now,
                        ..self
                    },
                ),
            },
        }
    }

    /// The changes to the disk that reordering the volume `volume_id` asks
    /// for.
    pub open spec fn reorder_ops(self, volume_id: VolumeId) -> Seq<StorageOpView> {
        match self.volume_index(volume_id) {
            None => Seq::empty(),
            Some(_) => self.save_ops(),
        }
    }

    /// The position of the first volume `volume_id` that lists the chapter
    /// `id`.
    pub open spec fn source_volume(self, id: ChapterId, volume_id: VolumeId) -> Option<int> {
        find_first(self.volumes, volume_holds(id, volume_id))
    }

    /// The volumes after the chapter `id` has left the volume `source`.
    pub open spec fn volumes_without(self, id: ChapterId, source: VolumeId) -> Seq<VolumeView> {
        match self.source_volume(id, source) {
            None => self.volumes,
            Some(v) => self.volumes.update(
                v,
                VolumeView {
                    chapter_ids: remove_first(self.volumes[v].chapter_ids, id),
                    ..self.volumes[v]
                },
            ),
        }
    }

    /// The position at which a chapter moved to `position` in a list of
    /// `len` chapters comes to stand: `position`, or the end where `position`
    /// lies beyond it.
    pub open spec fn clamped(position: nat, len: nat) -> int {
        if position <= len {
            position as int
        } else {
            len as int
        }
    }

    /// The project with the chapter `id` taken out of its volume and put
    /// into the first volume `target` at `position`, or at the end where
    /// `position` lies beyond it; the error where the index has no such
    /// chapter.  The cached orders stay as they are.
    pub open spec fn move_chapter_to_volume(
        self,
        id: ChapterId,
        target: VolumeId,
        position: nat,
        now: Timestamp,
    ) -> Result<ProjectView, StoreErrorView> {
        if !self.chapters.contains_key(id.0) {
            Err(StoreErrorView::NotFound(Missing::Chapter(id)))
        } else {
            let chapter = self.chapters[id.0];
            let without = self.volumes_without(id, chapter.volume_id);
            let volumes = match find_first(without, volume_has_id(target)) {
                None => without,
                Some(t) => without.update(
                    t,
                    VolumeView {
                        chapter_ids: without[t].chapter_ids.insert(
                            Self::clamped(position, without[t].chapter_ids.len()),
                            id,
                        ),
                        ..without[t]
                    },
                ),
            };
            Ok(
                ProjectView {
                    volumes,
                    chapters: self.chapters.insert(
                        id.0,
                        ChapterView { volume_id: target, ..chapter },
                    ),
                    modified_at: now,
                    ..self
                },
            )
        }
    }

    /// The chapter that the index holds for an identifier, if any.
    pub open spec fn lookup(self) -> spec_fn(ChapterId) -> Option<ChapterView> {
        |id: ChapterId|
            if self.chapters.contains_key(id.0) {
                Some(self.chapters[id.0])
            } else {
                None
            }
    }

    /// The chapters that the first volume `volume_id` lists and the index
    /// holds, in the volume's order.
    pub open spec fn chapters_for_volume(self, volume_id: VolumeId) -> Seq<ChapterView> {
        match self.volume_index(volume_id) {
            None => Seq::empty(),
            Some(v) => self.volumes[v].chapter_ids.filter_map(self.lookup()),
        }
    }

    /// The order of the volume that `chapter` belongs to, or 0 where there
    /// is no such volume.
    pub open spec fn volume_order_of(self, chapter: ChapterView) -> nat {
        match self.volume_index(chapter.volume_id) {
            None => 0,
            Some(v) => self.volumes[v].order,
        }
    }

    /// Whether `a` comes before `b`, or together with it, where chapters
    /// are ordered by their volume's order first and their own order second.
    pub open spec fn in_reading_order(self, a: ChapterView, b: ChapterView) -> bool {
        let va = self.volume_order_of(a);
        let vb = self.volume_order_of(b);
        va < vb || (va == vb && a.order <= b.order)
    }
}

} // verus!
