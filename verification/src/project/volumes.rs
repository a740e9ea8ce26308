//! Operations on volumes.

use crate::ident::is_random_uuid;
use crate::invariants::{
    lemma_create_volume_keeps_consistency, lemma_delete_volume_keeps_consistency,
    lemma_rename_volume_keeps_consistency,
};
use crate::model::{id_numbers, removal_ops, ProjectView};
use crate::project::{chapter_views, lemma_chapter_views_remove, NovelProject};
use crate::storage::{lemma_views_update, views, StorageOp};
use crate::types::{Timestamp, Volume, VolumeId, VolumeView};
use vstd::prelude::*;

verus! {

impl NovelProject {
    /// Adds an empty volume at the end, with an identifier drawn at random,
    /// and returns that identifier with the writes that persist the project.
    pub fn create_volume(&mut self, title: String, now: Timestamp) -> (created: (
        VolumeId,
        Vec<StorageOp>,
    ))
        ensures
            is_random_uuid(created.0.0),
            final(self)@ == old(self)@.create_volume(created.0, title@, now),
            views(created.1@) == old(self)@.save_ops(),
            old(self)@.consistent() && old(self)@.volume_index(created.0) is None
                ==> final(self)@.consistent(),
    {
        let id = VolumeId::default();
        let ops = self.create_volume_with_id(id, title, now);
        (id, ops)
    }

    /// Adds an empty volume `id` at the end and returns the writes that
    /// persist the project.
    pub fn create_volume_with_id(&mut self, id: VolumeId, title: String, now: Timestamp) -> (ops:
        Vec<StorageOp>)
        ensures
            final(self)@ == old(self)@.create_volume(id, title@, now),
            views(ops@) == old(self)@.save_ops(),
            old(self)@.consistent() && old(self)@.volume_index(id) is None
                ==> final(self)@.consistent(),
    {
        proof {
            if self@.consistent() && self@.volume_index(id) is None {
                lemma_create_volume_keeps_consistency(self@, id, title@, now);
            }
        }
        let order = self.volumes.len();
        let volume = Volume {
            id,
            title,
            order,
            chapter_ids: Vec::new(),
            description: String::new(),
            created_at: now,
            modified_at: now,
        };
        self.volumes.push(volume);
        self.modified_at = now;
        assert(self@ =~~= old(self)@.create_volume(id, title@, now));
        self.save_metadata()
    }

    /// Deletes the first volume `id` with every chapter that it lists, and
    /// renumbers the volumes that remain.  Returns the removals of the
    /// chapters' storage directories and the writes that persist the project.
    /// Does nothing where there is no such volume.
    #[verifier::loop_isolation(false)]
    pub fn delete_volume(&mut self, id: VolumeId, now: Timestamp) -> (ops: Vec<StorageOp>)
        ensures
            final(self)@ == old(self)@.delete_volume(id, now),
            views(ops@) == old(self)@.delete_volume_ops(id),
            old(self)@.consistent() ==> final(self)@.consistent(),
    {
        broadcast use vstd::std_specs::hash::group_hash_axioms;

        proof {
            if self@.consistent() {
                lemma_delete_volume_keeps_consistency(self@, id, now);
            }
        }

        let mut ops: Vec<StorageOp> = Vec::new();
        let ghost before = self@;
        match self.find_volume(id) {
            None => {},
            Some(v) => {
                let volume = self.volumes.remove(v);
                let ghost ids = volume.chapter_ids@;
                let ghost rest = before.volumes.remove(v as int);
                let mut j: usize = 0;
                while j < volume.chapter_ids.len()
                    invariant
                        j <= ids.len(),
                        self@ == (ProjectView {
                            volumes: rest,
                            chapters: before.chapters.remove_keys(id_numbers(ids.take(j as int))),
                            ..before
                        }),
                        views(ops@) == removal_ops(before.chapters, ids.take(j as int)),
                    decreases ids.len() - j,
                {
                    let chapter_id = volume.chapter_ids[j];
                    proof {
                        let next = ids.take(j + 1);
                        assert(next.drop_last() == ids.take(j as int));
                    }
                    let ghost index = self.chapters@;
                    let ghost removed = id_numbers(ids.take(j as int));
                    assert(removed.contains(chapter_id.0) == ids.take(j as int).contains(
                        chapter_id,
                    ));
                    assert(chapter_views(index).contains_key(chapter_id.0) ==> chapter_views(
                        index,
                    )[chapter_id.0] == before.chapters[chapter_id.0]);
                    assert(index.contains_key(chapter_id.0) == (before.chapters.contains_key(
                        chapter_id.0,
                    ) && !removed.contains(chapter_id.0))) by {
                        assert(chapter_views(index).contains_key(chapter_id.0)
                            == index.contains_key(chapter_id.0));
                    }
                    match self.chapters.remove(&chapter_id.0) {
                        Some(chapter) => {
                            ops.push(StorageOp::RemoveDir { path: chapter.dir_path });
                        },
                        None => {},
                    }
                    proof {
                        lemma_chapter_views_remove(index, chapter_id.0);
                    }
                    j = j + 1;
                }
                assert(ids.take(ids.len() as int) == ids);
                let ghost chapters = self@.chapters;
                let mut k: usize = 0;
                while k < self.volumes.len()
                    invariant
                        k <= rest.len(),
                        self.volumes@.len() == rest.len(),
                        self@ == (ProjectView {
                            volumes: Seq::new(
                                rest.len(),
                                |i: int|
                                    if i < k {
                                        VolumeView { order: i as nat, ..rest[i] }
                                    } else {
                                        rest[i]
                                    },
                            ),
                            chapters,
                            ..before
                        }),
                    decreases rest.len() - k,
                {
                    let ghost renumbered = self.volumes@;
                    assert(views(renumbered)[k as int] == rest[k as int]);
                    self.volumes[k].order = k;
                    proof {
                        lemma_views_update(renumbered, k as int, self.volumes@[k as int]);
                    }
                    k = k + 1;
                }
                self.modified_at = now;
                assert(self@ =~~= before.delete_volume(id, now));
                self.push_save_ops(&mut ops);
            },
        }
        ops
    }

    /// Renames the first volume `id` and returns the writes that persist the
    /// project.  Does nothing where there is no such volume.
    pub fn rename_volume(&mut self, id: VolumeId, new_title: String, now: Timestamp) -> (ops: Vec<
        StorageOp,
    >)
        ensures
            final(self)@ == old(self)@.rename_volume(id, new_title@, now),
            views(ops@) == old(self)@.rename_volume_ops(id),
            old(self)@.consistent() ==> final(self)@.consistent(),
    {
        proof {
            if self@.consistent() {
                lemma_rename_volume_keeps_consistency(self@, id, new_title@, now);
            }
        }
        match self.find_volume(id) {
            None => {
                let ops: Vec<StorageOp> = Vec::new();
                ops
            },
            Some(v) => {
                self.volumes[v].title = new_title;
                self.volumes[v].modified_at = now;
                self.modified_at = now;
                assert(self@ =~~= old(self)@.rename_volume(id, new_title@, now));
                self.save_metadata()
            },
        }
    }
}

} // verus!
