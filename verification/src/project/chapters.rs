//! Operations on chapters.

use crate::invariants::{
    lemma_create_chapter_keeps_consistency, lemma_delete_chapter_keeps_consistency,
    lemma_move_chapter_keeps_links, lemma_rename_chapter_keeps_consistency,
    lemma_reorder_keeps_consistency, lemma_update_chapter_status_keeps_consistency,
};
use crate::layout::{chapter_dir_path, content_file_path, metadata_file_path};
use crate::model::{
    dir_removal, fresh_id, is_fresh_id, lemma_fresh_id, lemma_renumbered_take, lemma_run_fits,
    metadata_write, renumbered, volume_has_id, volume_holds, volume_lists, ProjectView,
};
use crate::project::{find_chapter_id, NovelProject};
use crate::seqs::{lemma_find_first, position};
use crate::storage::{
    lemma_views_update, views, Document, Missing, StorageOp, StoreError, StoreErrorView,
};
use crate::types::{Chapter, ChapterId, ChapterStatus, Timestamp, VolumeId};
use vstd::prelude::*;

verus! {

/// Whether `ids` lists each chapter of the first volume `volume_id` of
/// `project` once.
pub open spec fn is_permutation_of_volume(
    project: ProjectView,
    volume_id: VolumeId,
    ids: Seq<ChapterId>,
) -> bool {
    project.volume_index(volume_id) matches Some(v) ==> ids.no_duplicates() && ids.to_set()
        == project.volumes[v].chapter_ids.to_set()
}

/// Whether `created` and the project `after` are what creating a chapter in
/// the first volume `volume_id` of the project `before` gives.
pub open spec fn is_created(
    before: ProjectView,
    after: ProjectView,
    created: Result<(ChapterId, Vec<StorageOp>), StoreError>,
    title: Seq<char>,
    volume_id: VolumeId,
    now: Timestamp,
) -> bool {
    match created {
        Ok((id, ops)) => {
            &&& before.create_chapter_in(title, volume_id, now) == Ok::<
                ProjectView,
                StoreErrorView,
            >(after)
            &&& id == fresh_id(before.chapters)
            &&& views(ops@) == before.create_chapter_ops(id)
            &&& before.consistent() ==> after.consistent()
        },
        Err(error) => {
            &&& after == before
            &&& before.create_chapter_in(title, volume_id, now) == Err::<
                ProjectView,
                StoreErrorView,
            >(error@)
        },
    }
}

impl NovelProject {
    /// The write of the metadata file of `chapter` in the directory
    /// `dir_path`.
    pub fn save_chapter_metadata(chapter: &Chapter, dir_path: &str) -> (op: StorageOp)
        ensures
            op@ == metadata_write(chapter.id, dir_path@),
    {
        StorageOp::Write {
            path: metadata_file_path(dir_path),
            document: Document::ChapterMetadata(chapter.id),
        }
    }

    /// The removal of the storage directory of `chapter`.
    pub fn delete_chapter_files(chapter: &Chapter) -> (op: StorageOp)
        ensures
            op@ == dir_removal(chapter@),
    {
        StorageOp::RemoveDir { path: chapter.dir_path.clone() }
    }

    /// Picks the identifier of the next chapter.
    fn next_chapter_id(&self) -> (id: ChapterId)
        requires
            2 * self.chapters@.len() <= u64::MAX,
        ensures
            id == fresh_id(self@.chapters),
            is_fresh_id(self@.chapters, id.0),
    {
        broadcast use vstd::std_specs::hash::group_hash_axioms;

        let count = self.chapters.len();
        let ghost index = self@.chapters;
        assert(index.dom() =~= self.chapters@.dom());
        let mut n: u64 = count as u64;
        while self.chapters.contains_key(&n)
            invariant
                index == self@.chapters,
                index.dom() == self.chapters@.dom(),
                index.dom().finite(),
                count == index.len(),
                2 * count <= u64::MAX,
                count <= n <= 2 * count,
                forall|m: u64| count <= m < n ==> #[trigger] index.contains_key(m),
            decreases 2 * count - n,
        {
            proof {
                lemma_run_fits(index.dom(), count as u64, (n + 1) as u64);
            }
            n = n + 1;
        }
        proof {
            lemma_fresh_id(index, n);
        }
        ChapterId(n)
    }

    /// The volume that a new chapter goes to: the one given, or else the
    /// project's first.
    pub open spec fn target_volume(&self, volume_id: Option<VolumeId>) -> Option<VolumeId> {
        match volume_id {
            Some(id) => Some(id),
            None => if self.volumes@.len() > 0 {
                Some(self.volumes@[0].id)
            } else {
                None
            },
        }
    }

    /// Creates an empty chapter at the end of the given volume, or of the
    /// first volume where none is given.  Returns the new chapter's
    /// identifier and the changes to the disk that store it, or `NotFound`
    /// where there is no such volume, and then changes nothing.
    pub fn create_chapter(&mut self, title: String, volume_id: Option<VolumeId>, now: Timestamp)
        -> (created: Result<(ChapterId, Vec<StorageOp>), StoreError>)
        requires
            2 * old(self).chapters@.len() <= u64::MAX,
        ensures
            old(self).target_volume(volume_id) matches Some(target) ==> is_created(
                old(self)@,
                final(self)@,
                created,
                title@,
                target,
                now,
            ),
            old(self).target_volume(volume_id) is None ==> final(self)@ == old(self)@ && (
            created matches Err(error) && error@ matches StoreErrorView::NotFound(
                Missing::Volume(_),
            )),
    {
        let target = match volume_id {
            Some(id) => id,
            None => {
                if self.volumes.len() > 0 {
                    self.volumes[0].id
                } else {
                    VolumeId::default()
                }
            },
        };
        proof {
            if self.target_volume(volume_id) is None {
                assert forall|j: int| 0 <= j < self@.volumes.len() implies !volume_has_id(target)(
                    #[trigger] self@.volumes[j],
                ) by {}
            }
        }
        self.create_chapter_in(title, target, now)
    }

    /// Creates an empty chapter at the end of the first volume `volume_id`.
    /// Returns the new chapter's identifier and the changes to the disk that
    /// store it, or `NotFound` where there is no such volume, and then
    /// changes nothing.
    pub fn create_chapter_in(&mut self, title: String, volume_id: VolumeId, now: Timestamp) -> (created:
        Result<(ChapterId, Vec<StorageOp>), StoreError>)
        requires
            2 * old(self).chapters@.len() <= u64::MAX,
        ensures
            is_created(old(self)@, final(self)@, created, title@, volume_id, now),
    {
        broadcast use vstd::std_specs::hash::group_hash_axioms;

        let ghost before = self@;
        let v = match self.find_volume(volume_id) {
            Some(v) => v,
            None => {
                return Err(StoreError::NotFound(Missing::Volume(volume_id)));
            },
        };
        let id = self.next_chapter_id();
        proof {
            if before.consistent() {
                lemma_create_chapter_keeps_consistency(before, title@, volume_id, now, id.0);
            }
        }
        let order = self.volumes[v].chapter_ids.len();
        let dir = chapter_dir_path(self.root_path.as_str(), id);
        let mut ops: Vec<StorageOp> = Vec::new();
        ops.push(StorageOp::CreateDir { path: dir.clone() });
        let chapter = Chapter {
            id,
            title,
            order,
            volume_id,
            dir_path: dir,
            content: String::new(),
            word_count: 0,
            status: ChapterStatus::NotStarted,
            current_version: 0,
            created_at: now,
            modified_at: now,
        };
        ops.push(Self::save_chapter_metadata(&chapter, chapter.dir_path.as_str()));
        ops.push(
            StorageOp::Write {
                path: content_file_path(chapter.dir_path.as_str()),
                document: Document::ChapterContent(id),
            },
        );
        self.chapters.insert(id.0, chapter);
        self.volumes[v].chapter_ids.push(id);
        self.volumes[v].modified_at = now;
        self.modified_at = now;
        proof {
            let expected = before.create_chapter_in(title@, volume_id, now)->Ok_0;
            assert(self@ =~~= expected);
        }
        self.push_save_ops(&mut ops);
        assert(views(ops@) =~~= before.create_chapter_ops(id));
        Ok((id, ops))
    }

    /// Sets the cached order of each chapter that the volume at position `v`
    /// lists to its position in the list.
    pub(crate) fn renumber_volume(&mut self, v: usize)
        requires
            v < old(self).volumes@.len(),
        ensures
            final(self)@ == (ProjectView {
                chapters: renumbered(old(self)@.chapters, old(self)@.volumes[v as int].chapter_ids),
                ..old(self)@
            }),
    {
        broadcast use vstd::std_specs::hash::group_hash_axioms;

        let ghost before = self@;
        let ghost ids = before.volumes[v as int].chapter_ids;
        let count = self.volumes[v].chapter_ids.len();
        let mut j: usize = 0;
        while j < count
            invariant
                j <= count == ids.len(),
                v < self.volumes@.len(),
                ids == self.volumes@[v as int].chapter_ids@,
                self@ == (ProjectView {
                    chapters: renumbered(before.chapters, ids.take(j as int)),
                    ..before
                }),
            decreases count - j,
        {
            let id = self.volumes[v].chapter_ids[j];
            proof {
                lemma_renumbered_take(before.chapters, ids, j as int);
            }
            match self.chapters.remove(&id.0) {
                Some(mut chapter) => {
                    chapter.order = j;
                    self.chapters.insert(id.0, chapter);
                },
                None => {},
            }
            j = j + 1;
        }
        assert(ids.take(ids.len() as int) == ids);
    }

    /// Finds the first volume that lists the chapter `id`, and the chapter's
    /// first position in that volume's list.
    fn find_listing_volume(&self, id: ChapterId) -> (found: Option<(usize, usize)>)
        ensures
            match found {
                Some((v, at)) => {
                    &&& v < self.volumes@.len()
                    &&& self@.listing_volume(id) == Some(v as int)
                    &&& at < self.volumes@[v as int].chapter_ids@.len()
                    &&& position(self.volumes@[v as int].chapter_ids@, id) == Some(at as int)
                },
                None => self@.listing_volume(id) is None,
            },
    {
        let ghost volumes = self@.volumes;
        let mut v: usize = 0;
        while v < self.volumes.len()
            invariant
                v <= self.volumes@.len(),
                volumes == self@.volumes,
                forall|j: int| 0 <= j < v ==> !volume_lists(id)(#[trigger] volumes[j]),
            decreases self.volumes.len() - v,
        {
            match find_chapter_id(&self.volumes[v].chapter_ids, id) {
                Some(at) => {
                    proof {
                        lemma_find_first(volumes, volume_lists(id), v as int);
                    }
                    return Some((v, at));
                },
                None => {},
            }
            v = v + 1;
        }
        None
    }

    /// Finds the first volume `volume_id` that lists the chapter `id`, and
    /// the chapter's first position in that volume's list.
    fn find_holding_volume(&self, id: ChapterId, volume_id: VolumeId) -> (found: Option<
        (usize, usize),
    >)
        ensures
            match found {
                Some((v, at)) => {
                    &&& v < self.volumes@.len()
                    &&& self@.source_volume(id, volume_id) == Some(v as int)
                    &&& at < self.volumes@[v as int].chapter_ids@.len()
                    &&& position(self.volumes@[v as int].chapter_ids@, id) == Some(at as int)
                },
                None => self@.source_volume(id, volume_id) is None,
            },
    {
        let ghost volumes = self@.volumes;
        let mut v: usize = 0;
        while v < self.volumes.len()
            invariant
                v <= self.volumes@.len(),
                volumes == self@.volumes,
                forall|j: int| 0 <= j < v ==> !volume_holds(id, volume_id)(#[trigger] volumes[j]),
            decreases self.volumes.len() - v,
        {
            if self.volumes[v].id == volume_id {
                match find_chapter_id(&self.volumes[v].chapter_ids, id) {
                    Some(at) => {
                        proof {
                            lemma_find_first(volumes, volume_holds(id, volume_id), v as int);
                        }
                        return Some((v, at));
                    },
                    None => {},
                }
            }
            v = v + 1;
        }
        None
    }

    /// Deletes the chapter `id`: it leaves the index and the first volume
    /// that lists it, whose remaining chapters are renumbered.  Returns the
    /// removal of its storage directory and the writes that persist the
    /// project.  Does nothing where the index has no such chapter.
    pub fn delete_chapter(&mut self, id: ChapterId, now: Timestamp) -> (ops: Vec<StorageOp>)
        ensures
            final(self)@ == old(self)@.delete_chapter(id, now),
            views(ops@) == old(self)@.delete_chapter_ops(id),
            old(self)@.consistent() ==> final(self)@.consistent(),
    {
        broadcast use vstd::std_specs::hash::group_hash_axioms;

        proof {
            if self@.consistent() {
                lemma_delete_chapter_keeps_consistency(self@, id, now);
            }
        }

        let ghost before = self@;
        let ghost index = self.chapters@;
        let mut ops: Vec<StorageOp> = Vec::new();
        match self.chapters.remove(&id.0) {
            None => {
                assert(self.chapters@ =~= index);
            },
            Some(chapter) => {
                match self.find_listing_volume(id) {
                    Some((v, at)) => {
                        self.volumes[v].chapter_ids.remove(at);
                        self.renumber_volume(v);
                    },
                    None => {},
                }
                ops.push(Self::delete_chapter_files(&chapter));
                self.modified_at = now;
                assert(self@ =~~= before.delete_chapter(id, now));
                self.push_save_ops(&mut ops);
            },
        }
        ops
    }

    /// Renames the chapter `id`.  Returns the write of its metadata and the
    /// writes that persist the project.  Does nothing where the index has no
    /// such chapter.
    pub fn rename_chapter(&mut self, id: ChapterId, new_title: String, now: Timestamp) -> (ops: Vec<
        StorageOp,
    >)
        ensures
            final(self)@ == old(self)@.rename_chapter(id, new_title@, now),
            views(ops@) == old(self)@.chapter_metadata_ops(id),
            old(self)@.consistent() ==> final(self)@.consistent(),
    {
        broadcast use vstd::std_specs::hash::group_hash_axioms;

        proof {
            if self@.consistent() {
                lemma_rename_chapter_keeps_consistency(self@, id, new_title@, now);
            }
        }
        let ghost index = self.chapters@;
        let mut ops: Vec<StorageOp> = Vec::new();
        match self.chapters.remove(&id.0) {
            None => {
                assert(self.chapters@ =~= index);
            },
            Some(mut chapter) => {
                chapter.title = new_title;
                chapter.modified_at = now;
                ops.push(Self::save_chapter_metadata(&chapter, chapter.dir_path.as_str()));
                self.chapters.insert(id.0, chapter);
                self.modified_at = now;
                self.push_save_ops(&mut ops);
            },
        }
        ops
    }

    /// Sets the status of the chapter `id`.  Returns the write of its
    /// metadata and the writes that persist the project.  Does nothing where
    /// the index has no such chapter.
    pub fn update_chapter_status(&mut self, id: ChapterId, status: ChapterStatus, now: Timestamp)
        -> (ops: Vec<StorageOp>)
        ensures
            final(self)@ == old(self)@.update_chapter_status(id, status, now),
            views(ops@) == old(self)@.chapter_metadata_ops(id),
            old(self)@.consistent() ==> final(self)@.consistent(),
    {
        broadcast use vstd::std_specs::hash::group_hash_axioms;

        proof {
            if self@.consistent() {
                lemma_update_chapter_status_keeps_consistency(self@, id, status, now);
            }
        }
        let ghost index = self.chapters@;
        let mut ops: Vec<StorageOp> = Vec::new();
        match self.chapters.remove(&id.0) {
            None => {
                assert(self.chapters@ =~= index);
            },
            Some(mut chapter) => {
                chapter.status = status;
                chapter.modified_at = now;
                ops.push(Self::save_chapter_metadata(&chapter, chapter.dir_path.as_str()));
                self.chapters.insert(id.0, chapter);
                self.modified_at = now;
                self.push_save_ops(&mut ops);
            },
        }
        ops
    }

    /// Finds the first chapter in `ids` that the index does not hold or that
    /// belongs to another volume than `volume_id`.
    fn find_foreign(&self, ids: &Vec<ChapterId>, volume_id: VolumeId) -> (found: Option<usize>)
        ensures
            match found {
                Some(i) => i < ids@.len() && self@.first_foreign(ids@, volume_id) == Some(i as int),
                None => self@.first_foreign(ids@, volume_id) is None,
            },
    {
        broadcast use vstd::std_specs::hash::group_hash_axioms;

        let ghost foreign = self@.is_foreign(volume_id);
        let mut i: usize = 0;
        while i < ids.len()
            invariant
                i <= ids@.len(),
                foreign == self@.is_foreign(volume_id),
                forall|j: int| 0 <= j < i ==> !foreign(#[trigger] ids@[j]),
            decreases ids.len() - i,
        {
            let id = ids[i];
            let ghost index = self.chapters@;
            let belongs = match self.chapters.get(&id.0) {
                Some(chapter) => chapter.volume_id == volume_id,
                None => false,
            };
            if !belongs {
                proof {
                    lemma_find_first(ids@, foreign, i as int);
                }
                return Some(i);
            }
            i = i + 1;
        }
        None
    }

    /// Makes `new_order` the chapter list of the first volume `volume_id`
    /// and sets the cached order of each of these chapters to its position.
    /// Returns the writes that persist the project.  Fails with
    /// `InvalidArgument`, naming the first chapter that the index does not
    /// hold or that belongs to another volume, and then changes nothing.
    /// Does nothing where there is no such volume.
    pub fn reorder_chapters_in_volume(
        &mut self,
        volume_id: VolumeId,
        new_order: Vec<ChapterId>,
        now: Timestamp,
    ) -> (reordered: Result<Vec<StorageOp>, StoreError>)
        ensures
            match reordered {
                Ok(ops) => {
                    &&& old(self)@.reorder_chapters_in_volume(volume_id, new_order@, now) == Ok::<
                        ProjectView,
                        StoreErrorView,
                    >(final(self)@)
                    &&& views(ops@) == old(self)@.reorder_ops(volume_id)
                    &&& old(self)@.consistent() && is_permutation_of_volume(
                        old(self)@,
                        volume_id,
                        new_order@,
                    ) ==> final(self)@.consistent()
                },
                Err(error) => {
                    &&& final(self)@ == old(self)@
                    &&& old(self)@.reorder_chapters_in_volume(volume_id, new_order@, now) == Err::<
                        ProjectView,
                        StoreErrorView,
                    >(error@)
                },
            },
    {
        let ghost before = self@;
        proof {
            if before.consistent() && is_permutation_of_volume(before, volume_id, new_order@) {
                lemma_reorder_keeps_consistency(before, volume_id, new_order@, now);
            }
        }
        let v = match self.find_volume(volume_id) {
            Some(v) => v,
            None => {
                let ops: Vec<StorageOp> = Vec::new();
                return Ok(ops);
            },
        };
        match self.find_foreign(&new_order, volume_id) {
            Some(i) => {
                return Err(StoreError::InvalidArgument(new_order[i]));
            },
            None => {},
        }
        let ghost volumes = self.volumes@;
        let ghost ids = new_order@;
        self.volumes[v].chapter_ids = new_order;
        self.renumber_volume(v);
        let ghost renumbered_volumes = self.volumes@;
        assert(views(renumbered_volumes).len() == views(volumes).len());
        self.volumes[v].modified_at = now;
        self.modified_at = now;
        proof {
            lemma_views_update(renumbered_volumes, v as int, self.volumes@[v as int]);
            let expected = before.reorder_chapters_in_volume(volume_id, ids, now)->Ok_0;
            assert(self@ =~~= expected);
        }
        Ok(self.save_metadata())
    }

    /// Takes the chapter `chapter_id` out of its volume and puts it into the
    /// first volume `target_volume_id` at `target_position`, or at the end
    /// where that lies beyond it.  Returns the writes that persist the
    /// project, or `NotFound` where the index has no such chapter.
    ///
    /// The cached orders of the chapters of both volumes stay as they are:
    /// until the volumes are reordered, they may differ from the chapters'
    /// positions.
    pub fn move_chapter_to_volume(
        &mut self,
        chapter_id: ChapterId,
        target_volume_id: VolumeId,
        target_position: usize,
        now: Timestamp,
    ) -> (moved: Result<Vec<StorageOp>, StoreError>)
        ensures
            match moved {
                Ok(ops) => {
                    &&& old(self)@.move_chapter_to_volume(
                        chapter_id,
                        target_volume_id,
                        target_position as nat,
                        now,
                    ) == Ok::<ProjectView, StoreErrorView>(final(self)@)
                    &&& views(ops@) == old(self)@.save_ops()
                    &&& old(self)@.consistent() && old(self)@.volume_index(target_volume_id) is Some
                        ==> final(self)@.linked()
                },
                Err(error) => {
                    &&& final(self)@ == old(self)@
                    &&& error@ == StoreErrorView::NotFound(Missing::Chapter(chapter_id))
                    &&& !old(self)@.chapters.contains_key(chapter_id.0)
                },
            },
    {
        broadcast use vstd::std_specs::hash::group_hash_axioms;

        let ghost before = self@;
        proof {
            if before.consistent() && before.volume_index(target_volume_id) is Some
                && before.chapters.contains_key(chapter_id.0) {
                lemma_move_chapter_keeps_links(
                    before,
                    chapter_id,
                    target_volume_id,
                    target_position as nat,
                    now,
                );
            }
        }
        let mut chapter = match self.chapters.remove(&chapter_id.0) {
            Some(chapter) => chapter,
            None => {
                return Err(StoreError::NotFound(Missing::Chapter(chapter_id)));
            },
        };
        let source = chapter.volume_id;
        chapter.volume_id = target_volume_id;
        self.chapters.insert(chapter_id.0, chapter);
        match self.find_holding_volume(chapter_id, source) {
            Some((v, at)) => {
                let ghost volumes = self.volumes@;
                self.volumes[v].chapter_ids.remove(at);
            },
            None => {},
        }
        assert(self@.volumes =~~= before.volumes_without(chapter_id, source));
        match self.find_volume(target_volume_id) {
            Some(t) => {
                let ghost volumes = self.volumes@;
                let len = self.volumes[t].chapter_ids.len();
                let at = if target_position < len {
                    target_position
                } else {
                    len
                };
                self.volumes[t].chapter_ids.insert(at, chapter_id);
            },
            None => {},
        }
        self.modified_at = now;
        proof {
            let expected = before.move_chapter_to_volume(
                chapter_id,
                target_volume_id,
                target_position as nat,
                now,
            )->Ok_0;
            assert(self@ =~~= expected);
        }
        Ok(self.save_metadata())
    }
}

} // verus!
