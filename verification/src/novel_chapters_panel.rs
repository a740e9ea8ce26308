//! The state of the chapter tree: the project that is shown, which volumes
//! are unfolded, what is selected, and what is being renamed.
//!
//! The tree neither draws anything nor touches the disk.  What it asks of the
//! disk is what the project asks for.

use crate::layout::{content_file, content_file_path};
use crate::model::ProjectView;

use crate::project::{chapter_views, NovelProject};
use crate::seqs::{find_first, lemma_find_first};
use crate::storage::{views, StorageOp, StoreError};
use crate::text::{is_blank, lemma_blank_trims_to_nothing, trim};
use crate::types::{Chapter, ChapterId, ChapterStatus, Timestamp, VolumeId, VolumeView};
use vstd::prelude::*;

verus! {

/// What is selected in the tree.
#[derive(Clone, Copy, Debug, PartialEq, Eq, Structural)]
pub enum SelectedItem {
    Chapter(ChapterId),
    Volume(VolumeId),
}

/// What is being renamed.  A volume is told by the first chapter that it
/// lists, or by the chapter 0 where it lists none.
#[derive(Clone, Debug)]
pub struct EditingItem {
    pub item_id: ChapterId,
    pub original_title: String,
    pub is_volume: bool,
}

/// The view of an [`EditingItem`].
#[verifier::ext_equal]
pub struct EditingView {
    pub item_id: ChapterId,
    pub original_title: Seq<char>,
    pub is_volume: bool,
}

impl View for EditingItem {
    type V = EditingView;

    open spec fn view(&self) -> EditingView {
        EditingView {
            item_id: self.item_id,
            original_title: self.original_title@,
            is_volume: self.is_volume,
        }
    }
}

/// The chapter tree.
#[derive(Clone, Debug)]
pub struct NovelChaptersPanel {
    /// The project that is shown.
    pub project: Option<NovelProject>,
    /// The volumes that are unfolded.
    pub expanded_volumes: Vec<VolumeId>,
    /// What is selected.
    pub selected_item: Option<SelectedItem>,
    /// What is being renamed.
    pub editing_item: Option<EditingItem>,
}

/// The view of a [`NovelChaptersPanel`].
#[verifier::ext_equal]
pub struct ChaptersPanelView {
    pub project: Option<ProjectView>,
    pub expanded_volumes: Seq<VolumeId>,
    pub selected_item: Option<SelectedItem>,
    pub editing_item: Option<EditingView>,
}

impl View for NovelChaptersPanel {
    type V = ChaptersPanelView;

    open spec fn view(&self) -> ChaptersPanelView {
        ChaptersPanelView {
            project: match self.project {
                Some(project) => Some(project@),
                None => None,
            },
            expanded_volumes: self.expanded_volumes@,
            selected_item: self.selected_item,
            editing_item: match self.editing_item {
                Some(editing) => Some(editing@),
                None => None,
            },
        }
    }
}

/// The label under which a status is shown.
pub open spec fn status_text(status: ChapterStatus) -> Seq<char> {
    match status {
        ChapterStatus::NotStarted => "未开始"@,
        ChapterStatus::InProgress => "进行中"@,
        ChapterStatus::Draft => "草稿"@,
        ChapterStatus::Review => "审核"@,
        ChapterStatus::Complete => "完成"@,
    }
}

/// The title that a chapter gets when it is created in the tree.
pub open spec fn new_chapter_title() -> Seq<char> {
    "新章节"@
}

/// The title that a volume gets when it is created in the tree.
pub open spec fn new_volume_title() -> Seq<char> {
    "新卷"@
}

/// The identifiers of `volumes`, in order.
pub open spec fn volume_ids(volumes: Seq<VolumeView>) -> Seq<VolumeId> {
    volumes.map_values(|volume: VolumeView| volume.id)
}

/// `expanded` with each identifier of `ids` that it lacks added at the end.
pub open spec fn expanded_with(expanded: Seq<VolumeId>, ids: Seq<VolumeId>) -> Seq<VolumeId>
    decreases ids.len(),
{
    if ids.len() == 0 {
        expanded
    } else {
        let before = expanded_with(expanded, ids.drop_last());
        if before.contains(ids.last()) {
            before
        } else {
            before.push(ids.last())
        }
    }
}

/// `expanded` without the volume `id`, wherever it stands.
pub open spec fn folded(expanded: Seq<VolumeId>, id: VolumeId) -> Seq<VolumeId>
    decreases expanded.len(),
{
    if expanded.len() == 0 {
        Seq::empty()
    } else {
        let before = folded(expanded.drop_last(), id);
        if expanded.last() == id {
            before
        } else {
            before.push(expanded.last())
        }
    }
}

/// The property of a volume to list `first` as its first chapter.
pub open spec fn begins_with(first: ChapterId) -> spec_fn(VolumeView) -> bool {
    |volume: VolumeView| volume.chapter_ids.len() > 0 && volume.chapter_ids[0] == first
}

/// The chapter that tells a volume when the volume is renamed.
pub open spec fn telling_chapter(volume: VolumeView) -> ChapterId {
    if volume.chapter_ids.len() > 0 {
        volume.chapter_ids[0]
    } else {
        ChapterId(0)
    }
}

impl ChaptersPanelView {
    /// Whether something was typed that renames what is being renamed: a
    /// title that is not blank and not the title so far.
    pub open spec fn renames(editing: EditingView, title: Seq<char>) -> bool {
        !is_blank(title) && title != editing.original_title
    }

    /// The renaming that starts for what is selected, if one starts.
    pub open spec fn started_rename(self) -> Option<EditingView> {
        match (self.selected_item, self.project) {
            (Some(SelectedItem::Chapter(id)), Some(project)) => if project.chapters.contains_key(
                id.0,
            ) {
                Some(
                    EditingView {
                        item_id: id,
                        original_title: project.chapters[id.0].title,
                        is_volume: false,
                    },
                )
            } else {
                None
            },
            (Some(SelectedItem::Volume(id)), Some(project)) => match project.volume_index(id) {
                Some(v) => Some(
                    EditingView {
                        item_id: telling_chapter(project.volumes[v]),
                        original_title: project.volumes[v].title,
                        is_volume: true,
                    },
                ),
                None => None,
            },
            _ => None,
        }
    }

    /// The path of the content file of the selected chapter.
    pub open spec fn selected_content_file(self) -> Option<Seq<char>> {
        match (self.selected_item, self.project) {
            (Some(SelectedItem::Chapter(id)), Some(project)) => if project.chapters.contains_key(
                id.0,
            ) {
                Some(content_file(project.chapters[id.0].dir_path))
            } else {
                None
            },
            _ => None,
        }
    }

    /// Whether the project that is shown has a chapter in a volume.
    pub open spec fn has_content(self) -> bool {
        match self.project {
            Some(project) => exists|v: int|
                0 <= v < project.volumes.len() && (#[trigger] project.volumes[v]).chapter_ids.len()
                    > 0,
            None => false,
        }
    }
}

impl NovelChaptersPanel {
    /// A tree that shows no project.
    pub fn new() -> (panel: NovelChaptersPanel)
        ensures
            panel@ == (ChaptersPanelView {
                project: None,
                expanded_volumes: Seq::empty(),
                selected_item: None,
                editing_item: None,
            }),
    {
        NovelChaptersPanel {
            project: None,
            expanded_volumes: Vec::new(),
            selected_item: None,
            editing_item: None,
        }
    }

    /// Shows the project that loading gave and unfolds its volumes; selects
    /// one of its chapters, if it has any.  Does nothing where loading
    /// failed.
    pub fn load_project(&mut self, loaded: Result<NovelProject, StoreError>)
        ensures
            match loaded {
                Ok(project) => {
                    &&& final(self)@.project == Some(project@)
                    &&& final(self)@.expanded_volumes == old(self)@.expanded_volumes + volume_ids(
                        project@.volumes,
                    )
                    &&& final(self)@.editing_item == old(self)@.editing_item
                    &&& if project@.chapters.len() == 0 {
                        final(self)@.selected_item == old(self)@.selected_item
                    } else {
                        exists|k: u64|
                            #![trigger project@.chapters[k]]
                            project@.chapters.contains_key(k) && final(self)@.selected_item == Some(
                                SelectedItem::Chapter(project@.chapters[k].id),
                            )
                    }
                },
                Err(_) => final(self)@ == old(self)@,
            },
    {
        broadcast use vstd::std_specs::hash::group_hash_axioms;

        match loaded {
            Err(_) => {},
            Ok(project) => {
                let ghost before = self.expanded_volumes@;
                let ghost ids = volume_ids(project@.volumes);
                let mut v: usize = 0;
                while v < project.volumes.len()
                    invariant
                        v <= project.volumes@.len(),
                        ids == volume_ids(project@.volumes),
                        self.expanded_volumes@ =~= before + ids.take(v as int),
                        self.selected_item == old(self).selected_item,
                        self.editing_item == old(self).editing_item,
                    decreases project.volumes.len() - v,
                {
                    self.expanded_volumes.push(project.volumes[v].id);
                    v = v + 1;
                }
                let numbers = project.chapter_numbers();
                if numbers.len() > 0 {
                    let k = numbers[0];
                    let ghost index = project.chapters@;
                    assert(chapter_views(index).contains_key(k) == index.contains_key(k));
                    assert(index.contains_key(k) ==> chapter_views(index)[k] == index[k]@);
                    match project.chapters.get(&k) {
                        Some(chapter) => {
                            self.selected_item = Some(SelectedItem::Chapter(chapter.id));
                        },
                        None => {},
                    }
                    assert(project@.chapters.len() > 0);
                } else {
                    assert(project@.chapters.dom() =~= Set::empty());
                }
                self.project = Some(project);
            },
        }
    }

    /// The chapters of a volume of the project that is shown, in the
    /// volume's order; none where no project is shown.
    pub fn get_chapters_for_volume(&self, volume_id: VolumeId) -> (chapters: Vec<&Chapter>)
        ensures
            views(chapters@) == match self@.project {
                Some(project) => project.chapters_for_volume(volume_id),
                None => Seq::empty(),
            },
    {
        match &self.project {
            Some(project) => project.get_chapters_for_volume(volume_id),
            None => {
                let chapters: Vec<&Chapter> = Vec::new();
                chapters
            },
        }
    }

    /// Tells whether a volume is unfolded.
    pub fn is_volume_expanded(&self, volume_id: VolumeId) -> (expanded: bool)
        ensures
            expanded == self@.expanded_volumes.contains(volume_id),
    {
        let mut i: usize = 0;
        while i < self.expanded_volumes.len()
            invariant
                i <= self.expanded_volumes@.len(),
                forall|j: int| 0 <= j < i ==> self.expanded_volumes@[j] != volume_id,
            decreases self.expanded_volumes.len() - i,
        {
            if self.expanded_volumes[i] == volume_id {
                return true;
            }
            i = i + 1;
        }
        false
    }

    /// Folds a volume that is unfolded, and unfolds one that is folded.
    pub fn toggle_volume_expanded(&mut self, volume_id: VolumeId)
        ensures
            final(self)@ == (ChaptersPanelView {
                expanded_volumes: if old(self)@.expanded_volumes.contains(volume_id) {
                    folded(old(self)@.expanded_volumes, volume_id)
                } else {
                    old(self)@.expanded_volumes.push(volume_id)
                },
                ..old(self)@
            }),
    {
        if self.is_volume_expanded(volume_id) {
            let ghost all = self.expanded_volumes@;
            let mut kept: Vec<VolumeId> = Vec::new();
            let mut i: usize = 0;
            while i < self.expanded_volumes.len()
                invariant
                    i <= all.len(),
                    all == self.expanded_volumes@,
                    kept@ == folded(all.take(i as int), volume_id),
                decreases self.expanded_volumes.len() - i,
            {
                let id = self.expanded_volumes[i];
                proof {
                    let next = all.take(i + 1);
                    assert(next.drop_last() =~= all.take(i as int));
                }
                if id != volume_id {
                    kept.push(id);
                }
                i = i + 1;
            }
            assert(all.take(i as int) =~= all);
            self.expanded_volumes = kept;
        } else {
            self.expanded_volumes.push(volume_id);
        }
    }

    /// Folds all volumes.
    pub fn collapse_all(&mut self)
        ensures
            final(self)@ == (ChaptersPanelView { expanded_volumes: Seq::empty(), ..old(self)@ }),
    {
        self.expanded_volumes = Vec::new();
    }

    /// Unfolds all volumes of the project that is shown.
    pub fn expand_all(&mut self)
        ensures
            final(self)@ == (ChaptersPanelView {
                expanded_volumes: match old(self)@.project {
                    Some(project) => expanded_with(
                        old(self)@.expanded_volumes,
                        volume_ids(project.volumes),
                    ),
                    None => old(self)@.expanded_volumes,
                },
                ..old(self)@
            }),
    {
        let ghost before = self@;
        let ghost ids = match before.project {
            Some(project) => volume_ids(project.volumes),
            None => Seq::empty(),
        };
        let mut v: usize = 0;
        loop
            invariant
                v <= ids.len(),
                self.project == old(self).project,
                before == old(self)@,
                ids == match before.project {
                    Some(project) => volume_ids(project.volumes),
                    None => Seq::empty(),
                },
                self@ == (ChaptersPanelView {
                    expanded_volumes: expanded_with(before.expanded_volumes, ids.take(v as int)),
                    ..before
                }),
            ensures
                v == ids.len(),
            decreases ids.len() - v,
        {
            let id = match &self.project {
                Some(project) => {
                    if v < project.volumes.len() {
                        project.volumes[v].id
                    } else {
                        break ;
                    }
                },
                None => {
                    break ;
                },
            };
            proof {
                let next = ids.take(v + 1);
                assert(next.drop_last() =~= ids.take(v as int));
            }
            if !self.is_volume_expanded(id) {
                self.expanded_volumes.push(id);
            }
            v = v + 1;
        }
        assert(ids.take(v as int) =~= ids);
    }

    /// Creates a chapter in the first volume of the project that is shown,
    /// selects it and unfolds its volume.  Returns the changes to the disk
    /// that store the chapter.  Does nothing where no project is shown or
    /// the project has no volume.
    pub fn create_chapter(&mut self, now: Timestamp) -> (ops: Vec<StorageOp>)
        requires
            old(self)@.project matches Some(project) ==> 2 * project.chapters.len() <= u64::MAX,
        ensures
            match old(self)@.project {
                Some(project) if project.volumes.len() > 0 => {
                    let target = project.volumes[0].id;
                    &&& final(self)@.project matches Some(after)
                    &&& project.create_chapter_in(new_chapter_title(), target, now) == Ok::<
                        ProjectView,
                        crate::storage::StoreErrorView,
                    >(after)
                    &&& views(ops@) == project.create_chapter_ops(
                        crate::model::fresh_id(project.chapters),
                    )
                    &&& final(self)@.selected_item == Some(
                        SelectedItem::Chapter(crate::model::fresh_id(project.chapters)),
                    )
                    &&& final(self)@.expanded_volumes == expanded_with(
                        old(self)@.expanded_volumes,
                        seq![target],
                    )
                    &&& final(self)@.editing_item == old(self)@.editing_item
                },
                _ => final(self)@ == old(self)@ && ops@.len() == 0,
            },
    {
        let ghost before = self@;
        let target = match &self.project {
            Some(project) => {
                if project.volumes.len() > 0 {
                    Some(project.volumes[0].id)
                } else {
                    None
                }
            },
            None => None,
        };
        let target = match target {
            Some(target) => target,
            None => {
                return Vec::new();
            },
        };
        let ghost shown = before.project->Some_0;
        let created = match &mut self.project {
            Some(project) => {
                proof {
                    assert(chapter_views(project.chapters@).dom() =~= project.chapters@.dom());
                }
                project.create_chapter_in(String::from_str("新章节"), target, now)
            },
            None => {
                return Vec::new();
            },
        };
        match created {
            Ok((id, ops)) => {
                self.selected_item = Some(SelectedItem::Chapter(id));
                proof {
                    let one = seq![target];
                    assert(expanded_with(before.expanded_volumes, one.drop_last())
                        == before.expanded_volumes);
                }
                if !self.is_volume_expanded(target) {
                    self.expanded_volumes.push(target);
                }
                ops
            },
            Err(_) => {
                assert(false);
                Vec::new()
            },
        }
    }

    /// Creates a volume in the project that is shown, selects it and
    /// unfolds it.  Returns the writes that persist the project.  Does
    /// nothing where no project is shown.
    pub fn create_volume(&mut self, now: Timestamp) -> (ops: Vec<StorageOp>)
        ensures
            match old(self)@.project {
                Some(project) => {
                    &&& final(self)@.selected_item matches Some(SelectedItem::Volume(id))
                    &&& final(self)@.project == Some(
                        project.create_volume(id, new_volume_title(), now),
                    )
                    &&& final(self)@.expanded_volumes == old(self)@.expanded_volumes.push(id)
                    &&& final(self)@.editing_item == old(self)@.editing_item
                    &&& views(ops@) == project.save_ops()
                },
                None => final(self)@ == old(self)@ && ops@.len() == 0,
            },
    {
        match &mut self.project {
            Some(project) => {
                let (id, ops) = project.create_volume(String::from_str("新卷"), now);
                self.selected_item = Some(SelectedItem::Volume(id));
                self.expanded_volumes.push(id);
                ops
            },
            None => Vec::new(),
        }
    }

    /// Deletes what is selected from the project that is shown, and
    /// selects nothing.  Returns the changes to the disk that go with it.
    /// Does nothing where nothing is selected or no project is shown.
    pub fn delete_selected(&mut self, now: Timestamp) -> (ops: Vec<StorageOp>)
        ensures
            match (old(self)@.selected_item, old(self)@.project) {
                (Some(SelectedItem::Chapter(id)), Some(project)) => {
                    &&& final(self)@ == (ChaptersPanelView {
                        project: Some(project.delete_chapter(id, now)),
                        selected_item: None,
                        ..old(self)@
                    })
                    &&& views(ops@) == project.delete_chapter_ops(id)
                },
                (Some(SelectedItem::Volume(id)), Some(project)) => {
                    &&& final(self)@ == (ChaptersPanelView {
                        project: Some(project.delete_volume(id, now)),
                        selected_item: None,
                        ..old(self)@
                    })
                    &&& views(ops@) == project.delete_volume_ops(id)
                },
                _ => final(self)@ == old(self)@ && ops@.len() == 0,
            },
    {
        let selected = match self.selected_item {
            Some(selected) => selected,
            None => {
                return Vec::new();
            },
        };
        match &mut self.project {
            Some(project) => {
                let ops = match selected {
                    SelectedItem::Chapter(id) => project.delete_chapter(id, now),
                    SelectedItem::Volume(id) => project.delete_volume(id, now),
                };
                self.selected_item = None;
                ops
            },
            None => Vec::new(),
        }
    }

    /// Starts renaming what is selected.  Does nothing where nothing is
    /// selected, or what is selected is not in the project that is shown.
    pub fn start_rename(&mut self)
        ensures
            final(self)@ == (ChaptersPanelView {
                editing_item: match old(self)@.started_rename() {
                    Some(editing) => Some(editing),
                    None => old(self)@.editing_item,
                },
                ..old(self)@
            }),
    {
        broadcast use vstd::std_specs::hash::group_hash_axioms;

        let editing = match (&self.selected_item, &self.project) {
            (Some(SelectedItem::Chapter(id)), Some(project)) => {
                match project.chapters.get(&id.0) {
                    Some(chapter) => Some(
                        EditingItem {
                            item_id: *id,
                            original_title: chapter.title.clone(),
                            is_volume: false,
                        },
                    ),
                    None => None,
                }
            },
            (Some(SelectedItem::Volume(id)), Some(project)) => {
                match project.find_volume(*id) {
                    Some(v) => {
                        let volume = &project.volumes[v];
                        let first = if volume.chapter_ids.len() > 0 {
                            volume.chapter_ids[0]
                        } else {
                            ChapterId(0)
                        };
                        Some(
                            EditingItem {
                                item_id: first,
                                original_title: volume.title.clone(),
                                is_volume: true,
                            },
                        )
                    },
                    None => None,
                }
            },
            _ => None,
        };
        match editing {
            Some(editing) => {
                self.editing_item = Some(editing);
            },
            None => {},
        }
    }

    /// Finds the first volume whose first chapter is `first`.
    fn find_volume_beginning_with(project: &NovelProject, first: ChapterId) -> (found: Option<
        VolumeId,
    >)
        ensures
            match found {
                Some(id) => find_first(project@.volumes, begins_with(first)) matches Some(v)
                    && project@.volumes[v].id == id,
                None => find_first(project@.volumes, begins_with(first)) is None,
            },
    {
        let ghost volumes = project@.volumes;
        let mut v: usize = 0;
        while v < project.volumes.len()
            invariant
                v <= project.volumes@.len(),
                volumes == project@.volumes,
                forall|j: int| 0 <= j < v ==> !begins_with(first)(#[trigger] volumes[j]),
            decreases project.volumes.len() - v,
        {
            let volume = &project.volumes[v];
            if volume.chapter_ids.len() > 0 && volume.chapter_ids[0] == first {
                proof {
                    lemma_find_first(volumes, begins_with(first), v as int);
                }
                return Some(volume.id);
            }
            v = v + 1;
        }
        None
    }

    /// Ends the renaming with the title that was typed.  Where the title is
    /// not blank and not the title so far, renames the chapter, or the first
    /// volume that begins with the chapter that tells the volume.  Returns
    /// the changes to the disk that go with it.
    pub fn complete_rename(&mut self, new_title: String, now: Timestamp) -> (ops: Vec<StorageOp>)
        ensures
            final(self)@.editing_item is None,
            final(self)@.expanded_volumes == old(self)@.expanded_volumes,
            final(self)@.selected_item == old(self)@.selected_item,
            match (old(self)@.editing_item, old(self)@.project) {
                (Some(editing), Some(project)) if ChaptersPanelView::renames(
                    editing,
                    new_title@,
                ) => {
                    if !editing.is_volume {
                        &&& final(self)@.project == Some(
                            project.rename_chapter(editing.item_id, new_title@, now),
                        )
                        &&& views(ops@) == project.chapter_metadata_ops(editing.item_id)
                    } else {
                        match find_first(project.volumes, begins_with(editing.item_id)) {
                            Some(v) => {
                                &&& final(self)@.project == Some(
                                    project.rename_volume(project.volumes[v].id, new_title@, now),
                                )
                                &&& views(ops@) == project.rename_volume_ops(project.volumes[v].id)
                            },
                            None => {
                                &&& final(self)@.project matches Some(after)
                                &&& exists|id: VolumeId|
                                    after == #[trigger] project.rename_volume(id, new_title@, now)
                                        && views(ops@) == project.rename_volume_ops(id)
                            },
                        }
                    }
                },
                _ => final(self)@.project == old(self)@.project && ops@.len() == 0,
            },
    {
        let editing = match self.editing_item.take() {
            Some(editing) => editing,
            None => {
                return Vec::new();
            },
        };
        let typed = trim(new_title.as_str());
        proof {
            lemma_blank_trims_to_nothing(new_title@);
        }
        if typed.as_str().is_empty() || new_title == editing.original_title {
            return Vec::new();
        }
        match &mut self.project {
            Some(project) => {
                if editing.is_volume {
                    let id = match Self::find_volume_beginning_with(project, editing.item_id) {
                        Some(id) => id,
                        None => VolumeId::default(),
                    };
                    project.rename_volume(id, new_title, now)
                } else {
                    project.rename_chapter(editing.item_id, new_title, now)
                }
            },
            None => Vec::new(),
        }
    }

    /// The path of the content file of the selected chapter, which is
    /// opened for it.
    pub fn open_selected_chapter(&self) -> (path: Option<String>)
        ensures
            path.deep_view() == self@.selected_content_file(),
    {
        broadcast use vstd::std_specs::hash::group_hash_axioms;

        match (&self.selected_item, &self.project) {
            (Some(SelectedItem::Chapter(id)), Some(project)) => {
                match project.chapters.get(&id.0) {
                    Some(chapter) => Some(content_file_path(chapter.dir_path.as_str())),
                    None => None,
                }
            },
            _ => None,
        }
    }

    /// The number of chapters of the project that is shown.
    pub fn chapter_count(&self) -> (count: usize)
        ensures
            count == match self@.project {
                Some(project) => project.chapters.len(),
                None => 0,
            },
    {
        broadcast use vstd::std_specs::hash::group_hash_axioms;

        match &self.project {
            Some(project) => {
                assert(chapter_views(project.chapters@).dom() =~= project.chapters@.dom());
                project.chapters.len()
            },
            None => 0,
        }
    }

    /// The label under which a status is shown.
    pub fn status_label(status: ChapterStatus) -> (label: &'static str)
        ensures
            label@ == status_text(status),
    {
        match status {
            ChapterStatus::NotStarted => "未开始",
            ChapterStatus::InProgress => "进行中",
            ChapterStatus::Draft => "草稿",
            ChapterStatus::Review => "审核",
            ChapterStatus::Complete => "完成",
        }
    }

    /// Tells whether the project that is shown has a chapter in a volume.
    pub fn has_content(&self) -> (shown: bool)
        ensures
            shown == self@.has_content(),
    {
        match &self.project {
            Some(project) => {
                let mut v: usize = 0;
                while v < project.volumes.len()
                    invariant
                        v <= project.volumes@.len(),
                        self@.project == Some(project@),
                        forall|j: int|
                            0 <= j < v ==> (#[trigger] project@.volumes[j]).chapter_ids.len() == 0,
                    decreases project.volumes.len() - v,
                {
                    if project.volumes[v].chapter_ids.len() > 0 {
                        proof {
                            let shown = self@.project->Some_0;
                            assert(shown.volumes[v as int].chapter_ids.len() > 0);
                        }
                        return true;
                    }
                    v = v + 1;
                }
                false
            },
            None => false,
        }
    }
}

} // verus!
