//! The invariants of a project and the operations that keep them.
//!
//! A project is *consistent* where its volumes and its index fit together:
//! every chapter stands under its own identifier, belongs to one volume and is
//! listed there once and nowhere else; the cached order of a chapter is its
//! position in its volume's list, the order of a volume its position among the
//! volumes; and the cached word count of a chapter is that of its text.

use crate::model::{
    dir_removal, is_fresh_id, lemma_fresh_id, lemma_renumbered, removal_ops, renumbered,
    volume_has_id, volume_holds, volume_lists, ProjectView,
};
use crate::storage::StoreErrorView;
use crate::seqs::{equals, find_first, is_first, lemma_find_first_is_first, position, remove_first};
use crate::text::word_count;
use crate::types::{
    ChapterId, ChapterStatus, ChapterView, SettingsView, Timestamp, VolumeId, VolumeView,
};
use vstd::prelude::*;

verus! {

impl ProjectView {
    /// Every chapter stands in the index under its own identifier.
    pub open spec fn keyed(self) -> bool {
        forall|k: u64| #[trigger] self.chapters.contains_key(k) ==> self.chapters[k].id == ChapterId(k)
    }

    /// No two volumes have the same identifier.
    pub open spec fn volumes_distinct(self) -> bool {
        forall|v: int, w: int|
            0 <= v < w < self.volumes.len() ==> (#[trigger] self.volumes[v]).id != (
            #[trigger] self.volumes[w]).id
    }

    /// The order of every volume is its position: the orders are 0, 1, 2
    /// and so on without a gap.
    pub open spec fn volumes_numbered(self) -> bool {
        forall|v: int| 0 <= v < self.volumes.len() ==> (#[trigger] self.volumes[v]).order == v
    }

    /// Every chapter that a volume lists is in the index and belongs to
    /// that volume.
    pub open spec fn listed_chapters_owned(self) -> bool {
        forall|v: int, j: int|
            #![trigger self.volumes[v].chapter_ids[j]]
            0 <= v < self.volumes.len() && 0 <= j < self.volumes[v].chapter_ids.len()
                ==> self.belongs_to(self.volumes[v].chapter_ids[j], self.volumes[v].id)
    }

    /// Whether the chapter that the index has under `k` is listed by a
    /// volume that it belongs to.
    pub open spec fn is_listed(self, k: u64) -> bool {
        exists|v: int, j: int|
            #![trigger self.volumes[v].chapter_ids[j]]
            0 <= v < self.volumes.len() && 0 <= j < self.volumes[v].chapter_ids.len()
                && self.volumes[v].id == self.chapters[k].volume_id
                && self.volumes[v].chapter_ids[j] == ChapterId(k)
    }

    /// Every chapter of the index is listed by a volume that it belongs to.
    pub open spec fn owned_chapters_listed(self) -> bool {
        forall|k: u64| #[trigger] self.chapters.contains_key(k) ==> self.is_listed(k)
    }

    /// No volume lists a chapter twice.
    pub open spec fn lists_without_duplicates(self) -> bool {
        forall|v: int|
            0 <= v < self.volumes.len() ==> (#[trigger] self.volumes[v]).chapter_ids.no_duplicates()
    }

    /// The cached order of every listed chapter is its position in the list.
    pub open spec fn orders_cached(self) -> bool {
        forall|v: int, j: int|
            #![trigger self.volumes[v].chapter_ids[j]]
            0 <= v < self.volumes.len() && 0 <= j < self.volumes[v].chapter_ids.len()
                && self.chapters.contains_key(self.volumes[v].chapter_ids[j].0)
                ==> self.chapters[self.volumes[v].chapter_ids[j].0].order == j
    }

    /// The cached word count of every chapter is that of its text.
    pub open spec fn words_counted(self) -> bool {
        forall|k: u64| #[trigger]
            self.chapters.contains_key(k) ==> self.chapters[k].word_count == word_count(
                self.chapters[k].content,
            )
    }

    /// Volumes and index fit together, whatever the cached orders of the
    /// chapters are.
    pub open spec fn linked(self) -> bool {
        &&& self.keyed()
        &&& self.volumes_distinct()
        &&& self.volumes_numbered()
        &&& self.listed_chapters_owned()
        &&& self.owned_chapters_listed()
        &&& self.lists_without_duplicates()
        &&& self.words_counted()
    }

    /// Volumes and index fit together, and the cached order of every
    /// chapter is its position.
    pub open spec fn consistent(self) -> bool {
        self.linked() && self.orders_cached()
    }

    /// The chapters of the index that belong to the volume `volume_id`.
    pub open spec fn owned_by(self, volume_id: VolumeId) -> Set<ChapterId> {
        Set::new(|id: ChapterId| self.belongs_to(id, volume_id))
    }
}

/// In a linked project a chapter is listed by one volume only.
pub proof fn lemma_listed_once(project: ProjectView, v: int, j: int, w: int, i: int)
    requires
        project.linked(),
        0 <= v < project.volumes.len(),
        0 <= w < project.volumes.len(),
        0 <= j < project.volumes[v].chapter_ids.len(),
        0 <= i < project.volumes[w].chapter_ids.len(),
        project.volumes[v].chapter_ids[j] == project.volumes[w].chapter_ids[i],
    ensures
        v == w,
        j == i,
{
    let id = project.volumes[v].chapter_ids[j];
    assert(project.belongs_to(id, project.volumes[v].id));
    assert(project.belongs_to(project.volumes[w].chapter_ids[i], project.volumes[w].id));
    if v < w {
        assert(project.volumes[v].id != project.volumes[w].id);
    }
    if w < v {
        assert(project.volumes[w].id != project.volumes[v].id);
    }
    assert(project.volumes[v].chapter_ids.no_duplicates());
}

/// In a linked project the first volume with an identifier is the only one
/// with it.
pub proof fn lemma_volume_index(project: ProjectView, v: int)
    requires
        project.volumes_distinct(),
        0 <= v < project.volumes.len(),
    ensures
        project.volume_index(project.volumes[v].id) == Some(v),
{
    let id = project.volumes[v].id;
    assert(volume_has_id(id)(project.volumes[v]));
    assert forall|j: int| 0 <= j < v implies !volume_has_id(id)(#[trigger] project.volumes[j]) by {
        assert(project.volumes[j].id != project.volumes[v].id);
    }
    assert(is_first(project.volumes, volume_has_id(id), v));
    crate::seqs::lemma_find_first(project.volumes, volume_has_id(id), v);
}

/// In a linked project every volume lists the chapters that belong to it,
/// each once: it lists as many chapters as belong to it.
pub proof fn lemma_volume_lists_its_chapters(project: ProjectView, v: int)
    requires
        project.linked(),
        0 <= v < project.volumes.len(),
    ensures
        project.volumes[v].chapter_ids.to_set() == project.owned_by(project.volumes[v].id),
        project.volumes[v].chapter_ids.len() == project.owned_by(project.volumes[v].id).len(),
{
    let ids = project.volumes[v].chapter_ids;
    let owned = project.owned_by(project.volumes[v].id);
    assert forall|id: ChapterId| ids.to_set().contains(id) == owned.contains(id) by {
        if ids.contains(id) {
            let j = choose|j: int| 0 <= j < ids.len() && ids[j] == id;
            assert(project.belongs_to(project.volumes[v].chapter_ids[j], project.volumes[v].id));
        }
        if owned.contains(id) {
            assert(project.chapters.contains_key(id.0));
            assert(project.is_listed(id.0));
            let (w, i) = choose|w: int, i: int|
                #![trigger project.volumes[w].chapter_ids[i]]
                0 <= w < project.volumes.len() && 0 <= i < project.volumes[w].chapter_ids.len()
                    && project.volumes[w].id == project.chapters[id.0].volume_id
                    && project.volumes[w].chapter_ids[i] == ChapterId(id.0);
            if w < v {
                assert(project.volumes[w].id != project.volumes[v].id);
            }
            if v < w {
                assert(project.volumes[v].id != project.volumes[w].id);
            }
            assert(ids[i] == id);
        }
    }
    assert(ids.to_set() =~= owned);
    ids.unique_seq_to_set();
}

/// A new project is consistent.
pub proof fn lemma_fresh_is_consistent(
    root_path: Seq<char>,
    title: Seq<char>,
    volume_id: VolumeId,
    settings: SettingsView,
    now: Timestamp,
)
    ensures
        ProjectView::fresh(root_path, title, volume_id, settings, now).consistent(),
{
}

/// Where two projects have the same lists and every chapter of the one is
/// a chapter of the other with the same owner, what is listed in the one is
/// listed in the other.
proof fn lemma_still_listed(before: ProjectView, after: ProjectView, k: u64)
    requires
        before.is_listed(k),
        after.volumes.len() == before.volumes.len(),
        forall|v: int|
            0 <= v < before.volumes.len() ==> (#[trigger] after.volumes[v]).id
                == before.volumes[v].id && after.volumes[v].chapter_ids
                == before.volumes[v].chapter_ids,
        after.chapters[k].volume_id == before.chapters[k].volume_id,
    ensures
        after.is_listed(k),
{
    let (v, j) = choose|v: int, j: int|
        #![trigger before.volumes[v].chapter_ids[j]]
        0 <= v < before.volumes.len() && 0 <= j < before.volumes[v].chapter_ids.len()
            && before.volumes[v].id == before.chapters[k].volume_id
            && before.volumes[v].chapter_ids[j] == ChapterId(k);
    assert(after.volumes[v].id == before.volumes[v].id);
    assert(after.volumes[v].chapter_ids[j] == ChapterId(k));
}

/// Adding a volume with an identifier that no volume has keeps a project
/// consistent.
pub proof fn lemma_create_volume_keeps_consistency(
    project: ProjectView,
    id: VolumeId,
    title: Seq<char>,
    now: Timestamp,
)
    requires
        project.consistent(),
        project.volume_index(id) is None,
    ensures
        project.create_volume(id, title, now).consistent(),
{
    let after = project.create_volume(id, title, now);
    let n = project.volumes.len() as int;
    lemma_find_first_is_first(project.volumes, volume_has_id(id));
    assert forall|v: int| 0 <= v < n implies #[trigger] after.volumes[v] == project.volumes[v] by {}
    assert forall|v: int, w: int| 0 <= v < w < after.volumes.len() implies (
    #[trigger] after.volumes[v]).id != (#[trigger] after.volumes[w]).id by {
        if w < n {
            assert(project.volumes[v].id != project.volumes[w].id);
        } else {
            assert(!volume_has_id(id)(project.volumes[v]));
        }
    }
    assert forall|v: int, j: int|
        #![trigger after.volumes[v].chapter_ids[j]]
        0 <= v < after.volumes.len() && 0 <= j < after.volumes[v].chapter_ids.len()
            implies after.belongs_to(after.volumes[v].chapter_ids[j], after.volumes[v].id)
        && (after.chapters.contains_key(after.volumes[v].chapter_ids[j].0)
        ==> after.chapters[after.volumes[v].chapter_ids[j].0].order == j) by {
        assert(after.volumes[v] == project.volumes[v]);
        assert(project.belongs_to(project.volumes[v].chapter_ids[j], project.volumes[v].id));
    }
    assert forall|k: u64| #[trigger] after.chapters.contains_key(k) implies after.is_listed(k) by {
        assert(project.is_listed(k));
        let (v, j) = choose|v: int, j: int|
            #![trigger project.volumes[v].chapter_ids[j]]
            0 <= v < project.volumes.len() && 0 <= j < project.volumes[v].chapter_ids.len()
                && project.volumes[v].id == project.chapters[k].volume_id
                && project.volumes[v].chapter_ids[j] == ChapterId(k);
        assert(after.volumes[v] == project.volumes[v]);
        assert(after.volumes[v].chapter_ids[j] == ChapterId(k));
    }
    assert forall|v: int| 0 <= v < after.volumes.len() implies (
    #[trigger] after.volumes[v]).chapter_ids.no_duplicates() by {
        if v < n {
            assert(after.volumes[v] == project.volumes[v]);
        }
    }
    assert forall|v: int| 0 <= v < after.volumes.len() implies (
    #[trigger] after.volumes[v]).order == v by {
        if v < n {
            assert(after.volumes[v] == project.volumes[v]);
        }
    }
}

/// Renaming a volume keeps a project consistent.
pub proof fn lemma_rename_volume_keeps_consistency(
    project: ProjectView,
    id: VolumeId,
    title: Seq<char>,
    now: Timestamp,
)
    requires
        project.consistent(),
    ensures
        project.rename_volume(id, title, now).consistent(),
{
    let after = project.rename_volume(id, title, now);
    lemma_find_first_is_first(project.volumes, volume_has_id(id));
    lemma_same_lists_keep_consistency(project, after);
}

/// A project stays consistent where the volumes keep their identifiers,
/// orders and lists, and the chapters their identifiers, owners and orders,
/// and the word counts fit the texts.
pub proof fn lemma_same_lists_keep_consistency(before: ProjectView, after: ProjectView)
    requires
        before.consistent(),
        after.volumes.len() == before.volumes.len(),
        forall|v: int|
            0 <= v < before.volumes.len() ==> (#[trigger] after.volumes[v]).id
                == before.volumes[v].id && after.volumes[v].chapter_ids
                == before.volumes[v].chapter_ids && after.volumes[v].order
                == before.volumes[v].order,
        after.chapters.dom() == before.chapters.dom(),
        forall|k: u64| #[trigger]
            before.chapters.contains_key(k) ==> after.chapters[k].id == before.chapters[k].id
                && after.chapters[k].volume_id == before.chapters[k].volume_id
                && after.chapters[k].order == before.chapters[k].order,
        after.words_counted(),
    ensures
        after.consistent(),
{
    assert forall|k: u64| #[trigger] after.chapters.contains_key(k) implies after.chapters[k].id
        == ChapterId(k) && after.is_listed(k) by {
        assert(before.chapters.contains_key(k));
        lemma_still_listed(before, after, k);
    }
    assert forall|v: int, w: int| 0 <= v < w < after.volumes.len() implies (
    #[trigger] after.volumes[v]).id != (#[trigger] after.volumes[w]).id by {
        assert(before.volumes[v].id != before.volumes[w].id);
    }
    assert forall|v: int| 0 <= v < after.volumes.len() implies (
    #[trigger] after.volumes[v]).order == v && after.volumes[v].chapter_ids.no_duplicates() by {
        assert(before.volumes[v].order == v);
    }
    assert forall|v: int, j: int|
        #![trigger after.volumes[v].chapter_ids[j]]
        0 <= v < after.volumes.len() && 0 <= j < after.volumes[v].chapter_ids.len()
            implies after.belongs_to(after.volumes[v].chapter_ids[j], after.volumes[v].id)
        && (after.chapters.contains_key(after.volumes[v].chapter_ids[j].0)
        ==> after.chapters[after.volumes[v].chapter_ids[j].0].order == j) by {
        assert(after.volumes[v].chapter_ids == before.volumes[v].chapter_ids);
        let id = before.volumes[v].chapter_ids[j];
        assert(before.belongs_to(id, before.volumes[v].id));
        assert(before.chapters.contains_key(id.0));
    }
}

/// Renaming a chapter keeps a project consistent.
pub proof fn lemma_rename_chapter_keeps_consistency(
    project: ProjectView,
    id: ChapterId,
    title: Seq<char>,
    now: Timestamp,
)
    requires
        project.consistent(),
    ensures
        project.rename_chapter(id, title, now).consistent(),
{
    let after = project.rename_chapter(id, title, now);
    if project.chapters.contains_key(id.0) {
        assert(after.chapters.dom() =~= project.chapters.dom());
        lemma_same_lists_keep_consistency(project, after);
    }
}

/// Setting the status of a chapter keeps a project consistent.
pub proof fn lemma_update_chapter_status_keeps_consistency(
    project: ProjectView,
    id: ChapterId,
    status: ChapterStatus,
    now: Timestamp,
)
    requires
        project.consistent(),
    ensures
        project.update_chapter_status(id, status, now).consistent(),
{
    let after = project.update_chapter_status(id, status, now);
    if project.chapters.contains_key(id.0) {
        assert(after.chapters.dom() =~= project.chapters.dom());
        lemma_same_lists_keep_consistency(project, after);
    }
}

/// Replacing the text of a chapter keeps a project consistent.
pub proof fn lemma_update_chapter_content_keeps_consistency(
    project: ProjectView,
    id: ChapterId,
    content: Seq<char>,
    now: Timestamp,
)
    requires
        project.consistent(),
    ensures
        project.update_chapter_content(id, content, now).consistent(),
{
    let after = project.update_chapter_content(id, content, now);
    if project.chapters.contains_key(id.0) {
        assert(after.chapters.dom() =~= project.chapters.dom());
        lemma_same_lists_keep_consistency(project, after);
    }
}

/// Deleting a volume keeps a project consistent, and leaves no chapter
/// behind that belonged to the volume; the chapters that remain are as they
/// were.
pub proof fn lemma_delete_volume_keeps_consistency(
    project: ProjectView,
    id: VolumeId,
    now: Timestamp,
)
    requires
        project.consistent(),
    ensures
        project.delete_volume(id, now).consistent(),
        project.volume_index(id) is Some ==> forall|k: u64| #[trigger]
            project.delete_volume(id, now).chapters.contains_key(k) ==> project.delete_volume(
                id,
                now,
            ).chapters[k].volume_id != id,
        forall|k: u64| #[trigger]
            project.delete_volume(id, now).chapters.contains_key(k)
                ==> project.chapters.contains_key(k) && project.delete_volume(
                id,
                now,
            ).chapters[k] == project.chapters[k],
{
    let after = project.delete_volume(id, now);
    lemma_find_first_is_first(project.volumes, volume_has_id(id));
    if project.volume_index(id) is Some {
        let v = project.volume_index(id)->Some_0;
        let ids = project.volumes[v].chapter_ids;
        assert(volume_has_id(id)(project.volumes[v]));
        assert forall|w: int| 0 <= w < after.volumes.len() implies #[trigger] after.volumes[w] == (
        VolumeView {
            order: w as nat,
            ..project.volumes[if w < v {
                w
            } else {
                w + 1
            }]
        }) by {}
        assert forall|k: u64| #[trigger] after.chapters.contains_key(k) implies (
        project.chapters.contains_key(k) && !ids.contains(ChapterId(k)) && after.chapters[k]
            == project.chapters[k]) by {}
        assert forall|a: int, b: int| 0 <= a < b < after.volumes.len() implies (
        #[trigger] after.volumes[a]).id != (#[trigger] after.volumes[b]).id by {
            let sa = if a < v { a } else { a + 1 };
            let sb = if b < v { b } else { b + 1 };
            assert(project.volumes[sa].id != project.volumes[sb].id);
        }
        assert forall|w: int| 0 <= w < after.volumes.len() implies (
        #[trigger] after.volumes[w]).chapter_ids.no_duplicates() by {
            let sw = if w < v { w } else { w + 1 };
            assert(project.volumes[sw].chapter_ids.no_duplicates());
        }
        assert forall|w: int, j: int|
            #![trigger after.volumes[w].chapter_ids[j]]
            0 <= w < after.volumes.len() && 0 <= j < after.volumes[w].chapter_ids.len()
                implies after.belongs_to(after.volumes[w].chapter_ids[j], after.volumes[w].id)
            && (after.chapters.contains_key(after.volumes[w].chapter_ids[j].0)
            ==> after.chapters[after.volumes[w].chapter_ids[j].0].order == j) by {
            let sw = if w < v { w } else { w + 1 };
            let listed = project.volumes[sw].chapter_ids[j];
            assert(project.belongs_to(listed, project.volumes[sw].id));
            assert(ChapterId(listed.0) == listed);
            if ids.contains(listed) {
                let i = choose|i: int| 0 <= i < ids.len() && ids[i] == listed;
                lemma_listed_once(project, sw, j, v, i);
            }
            assert(after.chapters.contains_key(listed.0));
        }
        assert forall|k: u64| #[trigger] after.chapters.contains_key(k) implies after.is_listed(
            k,
        ) && after.chapters[k].volume_id != id by {
            assert(project.is_listed(k));
            let (w, j) = choose|w: int, j: int|
                #![trigger project.volumes[w].chapter_ids[j]]
                0 <= w < project.volumes.len() && 0 <= j < project.volumes[w].chapter_ids.len()
                    && project.volumes[w].id == project.chapters[k].volume_id
                    && project.volumes[w].chapter_ids[j] == ChapterId(k);
            if w == v {
                assert(ids[j] == ChapterId(k));
                assert(false);
            }
            let aw = if w < v { w } else { w - 1 };
            assert(after.volumes[aw].chapter_ids[j] == ChapterId(k));
            if w < v {
                assert(project.volumes[w].id != project.volumes[v].id);
            } else {
                assert(project.volumes[v].id != project.volumes[w].id);
            }
        }
    }
}

/// Creating a chapter in a volume keeps a project consistent.
pub proof fn lemma_create_chapter_keeps_consistency(
    project: ProjectView,
    title: Seq<char>,
    volume_id: VolumeId,
    now: Timestamp,
    n: u64,
)
    requires
        project.consistent(),
        is_fresh_id(project.chapters, n),
    ensures
        match project.create_chapter_in(title, volume_id, now) {
            Ok(after) => after.consistent(),
            Err(_) => project.volume_index(volume_id) is None,
        },
{
    lemma_find_first_is_first(project.volumes, volume_has_id(volume_id));
    lemma_fresh_id(project.chapters, n);
    if project.volume_index(volume_id) is Some {
        let v = project.volume_index(volume_id)->Some_0;
        let after = project.create_chapter_in(title, volume_id, now)->Ok_0;
        let id = ChapterId(n);
        let ids = project.volumes[v].chapter_ids;
        assert(volume_has_id(volume_id)(project.volumes[v]));
        assert forall|w: int| 0 <= w < after.volumes.len() && w != v implies #[trigger] after.volumes[w]
            == project.volumes[w] by {}
        assert(after.volumes[v].chapter_ids == ids.push(id));
        assert(!ids.contains(id)) by {
            if ids.contains(id) {
                let j = choose|j: int| 0 <= j < ids.len() && ids[j] == id;
                assert(project.belongs_to(project.volumes[v].chapter_ids[j], project.volumes[v].id));
            }
        }
        assert forall|a: int, b: int| 0 <= a < b < after.volumes.len() implies (
        #[trigger] after.volumes[a]).id != (#[trigger] after.volumes[b]).id by {
            assert(project.volumes[a].id != project.volumes[b].id);
        }
        assert forall|w: int| 0 <= w < after.volumes.len() implies (
        #[trigger] after.volumes[w]).chapter_ids.no_duplicates() && after.volumes[w].order
            == w by {
            assert(project.volumes[w].chapter_ids.no_duplicates());
            assert(project.volumes[w].order == w);
            if w == v {
                assert forall|a: int, b: int|
                    0 <= a < ids.push(id).len() && 0 <= b < ids.push(id).len() && a
                        != b implies ids.push(id)[a] != ids.push(id)[b] by {
                    if a < ids.len() && b < ids.len() {
                        assert(ids[a] != ids[b]);
                    } else if a < ids.len() {
                        assert(ids[a] != id);
                    } else {
                        assert(ids[b] != id);
                    }
                }
            }
        }
        assert forall|w: int, j: int|
            #![trigger after.volumes[w].chapter_ids[j]]
            0 <= w < after.volumes.len() && 0 <= j < after.volumes[w].chapter_ids.len()
                implies after.belongs_to(after.volumes[w].chapter_ids[j], after.volumes[w].id)
            && (after.chapters.contains_key(after.volumes[w].chapter_ids[j].0)
            ==> after.chapters[after.volumes[w].chapter_ids[j].0].order == j) by {
            if w == v && j == ids.len() {
            } else {
                let listed = project.volumes[w].chapter_ids[j];
                assert(after.volumes[w].chapter_ids[j] == listed);
                assert(project.belongs_to(listed, project.volumes[w].id));
                assert(listed.0 != n);
            }
        }
        assert forall|k: u64| #[trigger] after.chapters.contains_key(k) implies after.is_listed(
            k,
        ) && after.chapters[k].id == ChapterId(k) by {
            if k == n {
                assert(after.volumes[v].chapter_ids[ids.len() as int] == ChapterId(k));
            } else {
                assert(project.is_listed(k));
                let (w, j) = choose|w: int, j: int|
                    #![trigger project.volumes[w].chapter_ids[j]]
                    0 <= w < project.volumes.len() && 0 <= j < project.volumes[w].chapter_ids.len()
                        && project.volumes[w].id == project.chapters[k].volume_id
                        && project.volumes[w].chapter_ids[j] == ChapterId(k);
                assert(after.volumes[w].chapter_ids[j] == ChapterId(k));
            }
        }
        assert(word_count(Seq::<char>::empty()) == 0);
    }
}

/// In a consistent project the first volume that lists a chapter of the
/// index is the volume that the chapter belongs to.
pub proof fn lemma_listing_volume(project: ProjectView, id: ChapterId)
    requires
        project.linked(),
        project.chapters.contains_key(id.0),
    ensures
        project.listing_volume(id) matches Some(v) && 0 <= v < project.volumes.len()
            && project.volumes[v].id == project.chapters[id.0].volume_id
            && project.volumes[v].chapter_ids.contains(id) && project.source_volume(
            id,
            project.chapters[id.0].volume_id,
        ) == Some(v),
{
    let source = project.chapters[id.0].volume_id;
    assert(project.is_listed(id.0));
    let (w, j) = choose|w: int, j: int|
        #![trigger project.volumes[w].chapter_ids[j]]
        0 <= w < project.volumes.len() && 0 <= j < project.volumes[w].chapter_ids.len()
            && project.volumes[w].id == project.chapters[id.0].volume_id
            && project.volumes[w].chapter_ids[j] == ChapterId(id.0);
    assert(ChapterId(id.0) == id);
    assert(project.volumes[w].chapter_ids.contains(id));
    assert(volume_lists(id)(project.volumes[w]));
    assert(volume_holds(id, source)(project.volumes[w]));
    lemma_find_first_is_first(project.volumes, volume_lists(id));
    lemma_find_first_is_first(project.volumes, volume_holds(id, source));
    let v = project.listing_volume(id)->Some_0;
    assert(volume_lists(id)(project.volumes[v]));
    let i = choose|i: int|
        0 <= i < project.volumes[v].chapter_ids.len() && project.volumes[v].chapter_ids[i] == id;
    lemma_listed_once(project, v, i, w, j);
    let u = project.source_volume(id, source)->Some_0;
    assert(volume_holds(id, source)(project.volumes[u]));
    let h = choose|h: int|
        0 <= h < project.volumes[u].chapter_ids.len() && project.volumes[u].chapter_ids[h] == id;
    lemma_listed_once(project, u, h, w, j);
}

/// Deleting a chapter keeps a project consistent: the chapters that stay in
/// its volume have the orders 0, 1, 2 and so on without a gap.
pub proof fn lemma_delete_chapter_keeps_consistency(
    project: ProjectView,
    id: ChapterId,
    now: Timestamp,
)
    requires
        project.consistent(),
    ensures
        project.delete_chapter(id, now).consistent(),
        !project.delete_chapter(id, now).chapters.contains_key(id.0),
{
    let after = project.delete_chapter(id, now);
    if project.chapters.contains_key(id.0) {
        lemma_listing_volume(project, id);
        let v = project.listing_volume(id)->Some_0;
        let ids = project.volumes[v].chapter_ids;
        lemma_find_first_is_first(ids, equals(id));
        let at = position(ids, id)->Some_0;
        assert(equals(id)(ids[at]));
        let rest = ids.remove(at);
        assert(rest == remove_first(ids, id));
        let index = project.chapters.remove(id.0);
        assert(project.volumes[v].chapter_ids.no_duplicates());
        crate::seqs::lemma_remove_unique(ids, at);
        lemma_renumbered(index, rest);
        assert(after.chapters == renumbered(index, rest));
        assert(after.volumes[v].chapter_ids == rest);
        assert forall|w: int| 0 <= w < after.volumes.len() && w != v implies #[trigger] after.volumes[w]
            == project.volumes[w] by {}
        assert forall|k: u64| #[trigger] after.chapters.contains_key(k) implies k != id.0
            && project.chapters.contains_key(k) && after.chapters[k] == (ChapterView {
            order: after.chapters[k].order,
            ..project.chapters[k]
        }) by {
            assert(index.contains_key(k));
        }
        assert forall|a: int, b: int| 0 <= a < b < after.volumes.len() implies (
        #[trigger] after.volumes[a]).id != (#[trigger] after.volumes[b]).id by {
            assert(project.volumes[a].id != project.volumes[b].id);
        }
        assert forall|w: int| 0 <= w < after.volumes.len() implies (
        #[trigger] after.volumes[w]).chapter_ids.no_duplicates() && after.volumes[w].order
            == w by {
            assert(project.volumes[w].chapter_ids.no_duplicates());
            assert(project.volumes[w].order == w);
        }
        assert forall|w: int, j: int|
            #![trigger after.volumes[w].chapter_ids[j]]
            0 <= w < after.volumes.len() && 0 <= j < after.volumes[w].chapter_ids.len()
                implies after.belongs_to(after.volumes[w].chapter_ids[j], after.volumes[w].id)
            && (after.chapters.contains_key(after.volumes[w].chapter_ids[j].0)
            ==> after.chapters[after.volumes[w].chapter_ids[j].0].order == j) by {
            let listed = after.volumes[w].chapter_ids[j];
            assert(ChapterId(listed.0) == listed);
            if w == v {
                let sj = if j < at { j } else { j + 1 };
                assert(rest[j] == ids[sj]);
                assert(project.belongs_to(project.volumes[v].chapter_ids[sj], project.volumes[v].id));
                assert(ids[sj] != ids[at]);
                assert(index.contains_key(listed.0));
                assert(after.chapters.contains_key(listed.0));
            } else {
                assert(project.belongs_to(project.volumes[w].chapter_ids[j], project.volumes[w].id));
                if listed == id {
                    lemma_listed_once(project, w, j, v, at);
                }
                assert(index.contains_key(listed.0));
                assert(after.chapters.contains_key(listed.0));
                if rest.contains(listed) {
                    let i = choose|i: int| 0 <= i < rest.len() && rest[i] == listed;
                    let si = if i < at { i } else { i + 1 };
                    assert(rest[i] == ids[si]);
                    lemma_listed_once(project, w, j, v, si);
                }
                assert(after.chapters[listed.0] == index[listed.0]);
                assert(project.chapters[listed.0].order == j);
            }
        }
        assert forall|k: u64| #[trigger] after.chapters.contains_key(k) implies after.is_listed(
            k,
        ) by {
            assert(project.is_listed(k));
            let (w, j) = choose|w: int, j: int|
                #![trigger project.volumes[w].chapter_ids[j]]
                0 <= w < project.volumes.len() && 0 <= j < project.volumes[w].chapter_ids.len()
                    && project.volumes[w].id == project.chapters[k].volume_id
                    && project.volumes[w].chapter_ids[j] == ChapterId(k);
            if w == v {
                assert(ids[j] != id);
                assert(rest.contains(ChapterId(k)));
                let i = choose|i: int| 0 <= i < rest.len() && rest[i] == ChapterId(k);
                assert(after.volumes[v].chapter_ids[i] == ChapterId(k));
            } else {
                assert(after.volumes[w].chapter_ids[j] == ChapterId(k));
            }
        }
    }
}

/// Putting the chapters of a volume into another order keeps a project
/// consistent, where the new order lists each of them once.
pub proof fn lemma_reorder_keeps_consistency(
    project: ProjectView,
    volume_id: VolumeId,
    ids: Seq<ChapterId>,
    now: Timestamp,
)
    requires
        project.consistent(),
        project.volume_index(volume_id) matches Some(v) ==> ids.no_duplicates() && ids.to_set()
            == project.volumes[v].chapter_ids.to_set(),
    ensures
        project.reorder_chapters_in_volume(volume_id, ids, now) matches Ok(after)
            && after.consistent(),
{
    lemma_find_first_is_first(project.volumes, volume_has_id(volume_id));
    if project.volume_index(volume_id) is Some {
        let v = project.volume_index(volume_id)->Some_0;
        let old_ids = project.volumes[v].chapter_ids;
        assert(volume_has_id(volume_id)(project.volumes[v]));
        assert forall|i: int| 0 <= i < ids.len() implies project.belongs_to(
            #[trigger] ids[i],
            volume_id,
        ) && old_ids.contains(ids[i]) by {
            assert(ids.to_set().contains(ids[i]));
            assert(old_ids.to_set().contains(ids[i]));
            let j = choose|j: int| 0 <= j < old_ids.len() && old_ids[j] == ids[i];
            assert(project.belongs_to(project.volumes[v].chapter_ids[j], project.volumes[v].id));
        }
        lemma_find_first_is_first(ids, project.is_foreign(volume_id));
        assert(project.first_foreign(ids, volume_id) is None) by {
            if project.first_foreign(ids, volume_id) is Some {
                let i = project.first_foreign(ids, volume_id)->Some_0;
                assert(project.is_foreign(volume_id)(ids[i]));
                assert(project.belongs_to(ids[i], volume_id));
            }
        }
        let after = project.reorder_chapters_in_volume(volume_id, ids, now)->Ok_0;
        lemma_renumbered(project.chapters, ids);
        assert(after.chapters == renumbered(project.chapters, ids));
        assert(after.volumes[v].chapter_ids == ids);
        assert forall|w: int| 0 <= w < after.volumes.len() && w != v implies #[trigger] after.volumes[w]
            == project.volumes[w] by {}
        assert forall|k: u64| #[trigger] after.chapters.contains_key(k) implies
            project.chapters.contains_key(k) && after.chapters[k] == (ChapterView {
            order: after.chapters[k].order,
            ..project.chapters[k]
        }) by {}
        assert forall|a: int, b: int| 0 <= a < b < after.volumes.len() implies (
        #[trigger] after.volumes[a]).id != (#[trigger] after.volumes[b]).id by {
            assert(project.volumes[a].id != project.volumes[b].id);
        }
        assert forall|w: int| 0 <= w < after.volumes.len() implies (
        #[trigger] after.volumes[w]).chapter_ids.no_duplicates() && after.volumes[w].order
            == w by {
            assert(project.volumes[w].chapter_ids.no_duplicates());
            assert(project.volumes[w].order == w);
        }
        assert forall|w: int, j: int|
            #![trigger after.volumes[w].chapter_ids[j]]
            0 <= w < after.volumes.len() && 0 <= j < after.volumes[w].chapter_ids.len()
                implies after.belongs_to(after.volumes[w].chapter_ids[j], after.volumes[w].id)
            && (after.chapters.contains_key(after.volumes[w].chapter_ids[j].0)
            ==> after.chapters[after.volumes[w].chapter_ids[j].0].order == j) by {
            let listed = after.volumes[w].chapter_ids[j];
            assert(ChapterId(listed.0) == listed);
            if w == v {
                assert(project.belongs_to(ids[j], volume_id));
                assert(after.chapters.contains_key(listed.0));
            } else {
                assert(project.belongs_to(project.volumes[w].chapter_ids[j], project.volumes[w].id));
                assert(after.chapters.contains_key(listed.0));
                if ids.contains(listed) {
                    let i = choose|i: int| 0 <= i < ids.len() && ids[i] == listed;
                    assert(old_ids.contains(ids[i]));
                    let h = choose|h: int| 0 <= h < old_ids.len() && old_ids[h] == listed;
                    lemma_listed_once(project, w, j, v, h);
                }
                assert(after.chapters[listed.0] == project.chapters[listed.0]);
                assert(project.chapters[listed.0].order == j);
            }
        }
        assert forall|k: u64| #[trigger] after.chapters.contains_key(k) implies after.is_listed(
            k,
        ) by {
            assert(project.is_listed(k));
            let (w, j) = choose|w: int, j: int|
                #![trigger project.volumes[w].chapter_ids[j]]
                0 <= w < project.volumes.len() && 0 <= j < project.volumes[w].chapter_ids.len()
                    && project.volumes[w].id == project.chapters[k].volume_id
                    && project.volumes[w].chapter_ids[j] == ChapterId(k);
            if w == v {
                assert(old_ids.to_set().contains(old_ids[j]));
                assert(ids.to_set().contains(ChapterId(k)));
                let i = choose|i: int| 0 <= i < ids.len() && ids[i] == ChapterId(k);
                assert(after.volumes[v].chapter_ids[i] == ChapterId(k));
            } else {
                assert(after.volumes[w].chapter_ids[j] == ChapterId(k));
            }
        }
    }
}

/// Moving a chapter to a volume that exists keeps volumes and index
/// fitting together; the cached orders may come to differ from the
/// positions.  The chapter then belongs to the target volume and is listed
/// there, and where the position that was asked for lies beyond the end of
/// the target volume's list, the chapter is the last of that list.
pub proof fn lemma_move_chapter_keeps_links(
    project: ProjectView,
    id: ChapterId,
    target: VolumeId,
    wanted: nat,
    now: Timestamp,
)
    requires
        project.consistent(),
        project.chapters.contains_key(id.0),
        project.volume_index(target) is Some,
    ensures
        project.move_chapter_to_volume(id, target, wanted, now) matches Ok(after) && {
            &&& after.linked()
            &&& after.volume_index(target) == project.volume_index(target)
            &&& after.belongs_to(id, target)
            &&& after.volumes[project.volume_index(target)->Some_0].chapter_ids.contains(id)
            &&& wanted >= project.volumes_without(
                id,
                project.chapters[id.0].volume_id,
            )[project.volume_index(target)->Some_0].chapter_ids.len()
                ==> after.volumes[project.volume_index(target)->Some_0].chapter_ids.last() == id
        },
{
    let after = project.move_chapter_to_volume(id, target, wanted, now)->Ok_0;
    let source = project.chapters[id.0].volume_id;
    lemma_listing_volume(project, id);
    let s = project.source_volume(id, source)->Some_0;
    let ids = project.volumes[s].chapter_ids;
    assert(project.volumes[s].chapter_ids.no_duplicates());
    lemma_find_first_is_first(ids, equals(id));
    let at = position(ids, id)->Some_0;
    assert(equals(id)(ids[at]));
    let rest = ids.remove(at);
    assert(rest == remove_first(ids, id));
    crate::seqs::lemma_remove_unique(ids, at);
    let without = project.volumes_without(id, source);
    assert(without.len() == project.volumes.len());
    assert(without[s].chapter_ids == rest);
    assert forall|w: int| 0 <= w < without.len() implies (#[trigger] without[w]).id
        == project.volumes[w].id && without[w].order == project.volumes[w].order && (w != s
        ==> without[w] == project.volumes[w]) by {}
    lemma_find_first_is_first(project.volumes, volume_has_id(target));
    let t = project.volume_index(target)->Some_0;
    assert(volume_has_id(target)(project.volumes[t]));
    assert(volume_has_id(target)(without[t]));
    assert forall|w: int| 0 <= w < t implies !volume_has_id(target)(#[trigger] without[w]) by {
        assert(!volume_has_id(target)(project.volumes[w]));
    }
    assert(is_first(without, volume_has_id(target), t));
    crate::seqs::lemma_find_first(without, volume_has_id(target), t);
    let held = without[t].chapter_ids;
    let slot = ProjectView::clamped(wanted, held.len());
    let moved = held.insert(slot, id);
    assert(after.volumes[t].chapter_ids == moved);
    assert(after.volumes.len() == project.volumes.len());
    assert forall|w: int| 0 <= w < after.volumes.len() implies (#[trigger] after.volumes[w]).id
        == project.volumes[w].id && after.volumes[w].order == project.volumes[w].order && (w != t
        ==> after.volumes[w] == without[w]) by {}
    assert forall|i: int| 0 <= i < moved.len() implies #[trigger] moved[i] == (if i < slot {
        held[i]
    } else if i == slot {
        id
    } else {
        held[i - 1]
    }) by {}
    assert(moved[slot] == id);
    assert(!held.contains(id)) by {
        if held.contains(id) {
            let i = choose|i: int| 0 <= i < held.len() && held[i] == id;
            if t == s {
            } else {
                lemma_listed_once(project, t, i, s, at);
            }
        }
    }
    crate::project::queries::lemma_insert_fresh(held, slot, id);
    assert(after.volume_index(target) == Some(t)) by {
        assert(volume_has_id(target)(after.volumes[t]));
        assert forall|w: int| 0 <= w < t implies !volume_has_id(target)(
            #[trigger] after.volumes[w],
        ) by {
            assert(!volume_has_id(target)(project.volumes[w]));
        }
        assert(is_first(after.volumes, volume_has_id(target), t));
        crate::seqs::lemma_find_first(after.volumes, volume_has_id(target), t);
    }
    assert forall|a: int, b: int| 0 <= a < b < after.volumes.len() implies (
    #[trigger] after.volumes[a]).id != (#[trigger] after.volumes[b]).id by {
        assert(project.volumes[a].id != project.volumes[b].id);
    }
    assert forall|w: int| 0 <= w < after.volumes.len() implies (
    #[trigger] after.volumes[w]).chapter_ids.no_duplicates() && after.volumes[w].order == w by {
        assert(project.volumes[w].chapter_ids.no_duplicates());
        assert(project.volumes[w].order == w);
    }
    // What a volume lists after the move, it listed before, but for the
    // chapter that moved.
    assert forall|w: int, j: int|
        #![trigger after.volumes[w].chapter_ids[j]]
        0 <= w < after.volumes.len() && 0 <= j < after.volumes[w].chapter_ids.len()
            implies after.belongs_to(after.volumes[w].chapter_ids[j], after.volumes[w].id) by {
        let listed = after.volumes[w].chapter_ids[j];
        if listed == id {
            if w != t {
                assert(after.volumes[w] == without[w]);
                if w == s {
                    assert(rest.contains(id));
                } else {
                    lemma_listed_once(project, w, j, s, at);
                }
            }
        } else {
            if w == t {
                let hj = if j < slot { j } else { j - 1 };
                assert(moved[j] == held[hj]);
                if t == s {
                    let sj = if hj < at { hj } else { hj + 1 };
                    assert(rest[hj] == ids[sj]);
                    assert(project.belongs_to(
                        project.volumes[s].chapter_ids[sj],
                        project.volumes[s].id,
                    ));
                } else {
                    assert(project.belongs_to(
                        project.volumes[t].chapter_ids[hj],
                        project.volumes[t].id,
                    ));
                }
            } else if w == s {
                let sj = if j < at { j } else { j + 1 };
                assert(rest[j] == ids[sj]);
                assert(project.belongs_to(
                    project.volumes[s].chapter_ids[sj],
                    project.volumes[s].id,
                ));
            } else {
                assert(project.belongs_to(
                    project.volumes[w].chapter_ids[j],
                    project.volumes[w].id,
                ));
            }
        }
    }
    assert forall|k: u64| #[trigger] after.chapters.contains_key(k) implies after.is_listed(k)
        && after.chapters[k].id == ChapterId(k) by {
        if k == id.0 {
            assert(ChapterId(k) == id);
            assert(after.volumes[t].chapter_ids[slot] == ChapterId(k));
        } else {
            assert(project.is_listed(k));
            let (w, j) = choose|w: int, j: int|
                #![trigger project.volumes[w].chapter_ids[j]]
                0 <= w < project.volumes.len() && 0 <= j < project.volumes[w].chapter_ids.len()
                    && project.volumes[w].id == project.chapters[k].volume_id
                    && project.volumes[w].chapter_ids[j] == ChapterId(k);
            let listed = ChapterId(k);
            assert(listed != id);
            // The list of the volume at `w` still holds the chapter.
            let kept = without[w].chapter_ids;
            assert(kept.contains(listed)) by {
                if w == s {
                    assert(ids.contains(listed));
                } else {
                    assert(kept[j] == listed);
                }
            }
            let i = choose|i: int| 0 <= i < kept.len() && kept[i] == listed;
            if w == t {
                let mi = if i < slot { i } else { i + 1 };
                assert(moved[mi] == held[i]);
                assert(after.volumes[w].chapter_ids[mi] == listed);
            } else {
                assert(after.volumes[w].chapter_ids[i] == listed);
            }
        }
    }
    assert(after.volumes[t].chapter_ids.contains(id));
    if wanted >= held.len() {
        assert(slot == held.len());
        assert(moved.last() == id);
    }
}

/// Deleting a volume of a consistent project removes the storage
/// directory of every chapter that the volume lists, once each and in the
/// order of the list, and then persists the project.
pub proof fn lemma_delete_volume_removes_directories(project: ProjectView, id: VolumeId)
    requires
        project.linked(),
        project.volume_index(id) is Some,
    ensures
        project.delete_volume_ops(id) == project.volumes[project.volume_index(
            id,
        )->Some_0].chapter_ids.map_values(|listed: ChapterId| dir_removal(project.chapters[listed.0]))
            + project.save_ops(),
{
    lemma_find_first_is_first(project.volumes, volume_has_id(id));
    let v = project.volume_index(id)->Some_0;
    let ids = project.volumes[v].chapter_ids;
    assert(project.volumes[v].chapter_ids.no_duplicates());
    assert forall|j: int| 0 <= j < ids.len() implies project.chapters.contains_key(
        (#[trigger] ids[j]).0,
    ) by {
        assert(project.belongs_to(project.volumes[v].chapter_ids[j], project.volumes[v].id));
    }
    lemma_removal_ops(project.chapters, ids, ids.len() as int);
    assert(ids.take(ids.len() as int) == ids);
}

/// The removals listed for chapters that the index holds, none of them
/// twice, are one for each of them.
proof fn lemma_removal_ops(chapters: Map<u64, ChapterView>, ids: Seq<ChapterId>, n: int)
    requires
        ids.no_duplicates(),
        forall|j: int| 0 <= j < ids.len() ==> chapters.contains_key((#[trigger] ids[j]).0),
        0 <= n <= ids.len(),
    ensures
        removal_ops(chapters, ids.take(n)) == ids.take(n).map_values(
            |listed: ChapterId| dir_removal(chapters[listed.0]),
        ),
    decreases n,
{
    let removal = |listed: ChapterId| dir_removal(chapters[listed.0]);
    if n == 0 {
        assert(removal_ops(chapters, ids.take(n)) =~= ids.take(n).map_values(removal));
    } else {
        lemma_removal_ops(chapters, ids, n - 1);
        let longer = ids.take(n);
        let shorter = ids.take(n - 1);
        assert(longer.drop_last() == shorter);
        assert(longer.last() == ids[n - 1]);
        assert(!shorter.contains(ids[n - 1])) by {
            if shorter.contains(ids[n - 1]) {
                let j = choose|j: int| 0 <= j < shorter.len() && shorter[j] == ids[n - 1];
                assert(ids[j] == ids[n - 1]);
            }
        }
        assert(removal_ops(chapters, longer) =~= longer.map_values(removal));
    }
}

/// Reordering a volume with a list that names a chapter which the index
/// does not hold, or which belongs to another volume, fails with
/// `InvalidArgument` and names the first such chapter of the list.
pub proof fn lemma_reorder_rejects_foreign(
    project: ProjectView,
    volume_id: VolumeId,
    ids: Seq<ChapterId>,
    i: int,
    now: Timestamp,
)
    requires
        project.volume_index(volume_id) is Some,
        0 <= i < ids.len(),
        !project.belongs_to(ids[i], volume_id),
    ensures
        project.reorder_chapters_in_volume(volume_id, ids, now) matches Err(
            StoreErrorView::InvalidArgument(foreign),
        ) && ids.contains(foreign) && !project.belongs_to(foreign, volume_id),
{
    assert(project.is_foreign(volume_id)(ids[i]));
    lemma_find_first_is_first(ids, project.is_foreign(volume_id));
    let first = project.first_foreign(ids, volume_id)->Some_0;
    assert(project.is_foreign(volume_id)(ids[first]));
}

/// A chapter moved to a position beyond the end of the target volume's
/// list becomes the last chapter of that list.
pub proof fn lemma_move_beyond_end_appends(
    project: ProjectView,
    id: ChapterId,
    target: VolumeId,
    wanted: nat,
    now: Timestamp,
)
    requires
        project.chapters.contains_key(id.0),
        find_first(
            project.volumes_without(id, project.chapters[id.0].volume_id),
            volume_has_id(target),
        ) matches Some(t) && wanted >= project.volumes_without(
            id,
            project.chapters[id.0].volume_id,
        )[t].chapter_ids.len(),
    ensures
        project.move_chapter_to_volume(id, target, wanted, now) matches Ok(after) && ({
            let without = project.volumes_without(id, project.chapters[id.0].volume_id);
            let t = find_first(without, volume_has_id(target))->Some_0;
            after.volumes[t].chapter_ids == without[t].chapter_ids.push(id)
        }),
{
    let without = project.volumes_without(id, project.chapters[id.0].volume_id);
    lemma_find_first_is_first(without, volume_has_id(target));
    let t = find_first(without, volume_has_id(target))->Some_0;
    let held = without[t].chapter_ids;
    assert(held.insert(held.len() as int, id) =~= held.push(id));
}

} // verus!
