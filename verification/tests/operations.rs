use novel_chapter::text::count_words;
use novel_chapter::{
    ChapterId, ChapterStatus, Document, Missing, NovelProject, StorageOp, StoreError, Timestamp,
    VolumeId,
};

fn at(secs: u64) -> Timestamp {
    Timestamp { secs, nanos: 0 }
}

fn project() -> NovelProject {
    NovelProject::with_default_volume("/n".to_string(), "Novel".to_string(), VolumeId(1), at(1))
}

/// A short name for each change to the disk.
fn brief(ops: &[StorageOp]) -> Vec<String> {
    ops.iter()
        .map(|op| match op {
            StorageOp::CreateDir { path } => format!("mkdir {}", path),
            StorageOp::RemoveDir { path } => format!("rmdir {}", path),
            StorageOp::Write { path, document } => match document {
                Document::Project => format!("project {}", path),
                Document::Characters => format!("characters {}", path),
                Document::World => format!("world {}", path),
                Document::Plot => format!("plot {}", path),
                Document::ChapterMetadata(id) => format!("metadata#{} {}", id.0, path),
                Document::ChapterContent(id) => format!("content#{} {}", id.0, path),
                Document::Snapshot(version) => format!("snapshot#{} {}", version.version, path),
            },
        })
        .collect()
}

fn save() -> Vec<String> {
    vec![
        "project /n/.novel/project.json".to_string(),
        "characters /n/.novel/characters.json".to_string(),
        "world /n/.novel/world.json".to_string(),
        "plot /n/.novel/plot.json".to_string(),
    ]
}

fn with_save(mut first: Vec<&str>) -> Vec<String> {
    let mut all: Vec<String> = first.drain(..).map(|s| s.to_string()).collect();
    all.extend(save());
    all
}

/// Panics unless volumes and index fit together and every cached order is
/// the position.
fn assert_consistent(project: &NovelProject) {
    for (position, volume) in project.volumes.iter().enumerate() {
        assert_eq!(volume.order, position, "volume order");
        let same = project.volumes.iter().filter(|v| v.id == volume.id).count();
        assert_eq!(same, 1, "volume identifiers differ");
        let owned = project.chapters.values().filter(|c| c.volume_id == volume.id).count();
        assert_eq!(volume.chapter_ids.len(), owned, "as many listed as owned");
        for (index, id) in volume.chapter_ids.iter().enumerate() {
            let chapter = project.chapters.get(&id.0).expect("listed chapter is in the index");
            assert_eq!(chapter.volume_id, volume.id, "listed chapter belongs to the volume");
            assert_eq!(chapter.order, index, "cached order is the position");
            let listed = volume.chapter_ids.iter().filter(|other| *other == id).count();
            assert_eq!(listed, 1, "listed once");
        }
    }
    for (key, chapter) in &project.chapters {
        assert_eq!(chapter.id, ChapterId(*key), "chapter stands under its identifier");
        assert_eq!(chapter.word_count, count_words(&chapter.content), "word count");
        let listing = project
            .volumes
            .iter()
            .filter(|v| v.id == chapter.volume_id && v.chapter_ids.contains(&chapter.id))
            .count();
        assert_eq!(listing, 1, "chapter is listed by its volume");
    }
}

fn chapter_ids(project: &NovelProject, volume: usize) -> Vec<u64> {
    project.volumes[volume].chapter_ids.iter().map(|id| id.0).collect()
}

#[test]
fn a_new_project_has_one_empty_default_volume() {
    let project = project();
    assert_eq!(project.root_path, "/n");
    assert_eq!(project.title, "Novel");
    assert_eq!(project.volumes.len(), 1);
    assert_eq!(project.volumes[0].id, VolumeId(1));
    assert_eq!(project.volumes[0].title, "Volume 1");
    assert_eq!(project.volumes[0].order, 0);
    assert!(project.volumes[0].chapter_ids.is_empty());
    assert_eq!(project.volumes[0].description, "");
    assert_eq!(project.volumes[0].created_at, at(1));
    assert_eq!(project.volumes[0].modified_at, at(1));
    assert!(project.chapters.is_empty());
    assert!(project.settings.characters.is_empty());
    assert!(project.settings.world.is_empty());
    assert!(project.settings.plot_points.is_empty());
    assert_eq!(project.created_at, at(1));
    assert_eq!(project.modified_at, at(1));
    assert_consistent(&project);
}

#[test]
fn a_new_project_draws_its_volume_identifier() {
    let first = NovelProject::new("/a".to_string(), "A".to_string(), at(1));
    let second = NovelProject::new("/a".to_string(), "A".to_string(), at(1));
    assert_eq!(first.volumes.len(), 1);
    assert_ne!(first.volumes[0].id, second.volumes[0].id);
    assert_consistent(&first);
}

#[test]
fn initialize_lays_out_directories_and_persists() {
    let project = project();
    assert_eq!(
        brief(&project.initialize()),
        with_save(vec!["mkdir /n/.novel", "mkdir /n/chapters", "mkdir /n/drafts"])
    );
    assert_eq!(brief(&project.save_metadata()), save());
    assert_eq!(brief(&project.save_settings()), save()[1..].to_vec());
}

#[test]
fn create_volume_appends_and_persists() {
    let mut project = project();
    let ops = project.create_volume_with_id(VolumeId(2), "Second".to_string(), at(5));
    assert_eq!(brief(&ops), save());
    assert_eq!(project.volumes.len(), 2);
    assert_eq!(project.volumes[1].id, VolumeId(2));
    assert_eq!(project.volumes[1].title, "Second");
    assert_eq!(project.volumes[1].order, 1);
    assert!(project.volumes[1].chapter_ids.is_empty());
    assert_eq!(project.volumes[1].created_at, at(5));
    assert_eq!(project.modified_at, at(5));
    assert_eq!(project.volumes[0].modified_at, at(1));
    assert_consistent(&project);

    let (id, ops) = project.create_volume("Third".to_string(), at(6));
    assert_eq!(brief(&ops), save());
    assert_eq!(project.volumes[2].id, id);
    assert_eq!(project.volumes[2].order, 2);
    assert_consistent(&project);
}

#[test]
fn rename_volume_changes_the_title_only() {
    let mut project = project();
    project.create_volume_with_id(VolumeId(2), "Second".to_string(), at(2));
    let ops = project.rename_volume(VolumeId(2), "Part Two".to_string(), at(9));
    assert_eq!(brief(&ops), save());
    assert_eq!(project.volumes[1].title, "Part Two");
    assert_eq!(project.volumes[1].modified_at, at(9));
    assert_eq!(project.volumes[1].created_at, at(2));
    assert_eq!(project.volumes[0].title, "Volume 1");
    assert_eq!(project.modified_at, at(9));
    assert_consistent(&project);
}

#[test]
fn rename_volume_ignores_an_unknown_volume() {
    let mut project = project();
    let ops = project.rename_volume(VolumeId(99), "Nowhere".to_string(), at(9));
    assert!(ops.is_empty());
    assert_eq!(project.volumes[0].title, "Volume 1");
    assert_eq!(project.modified_at, at(1));
}

#[test]
fn create_chapter_stores_an_empty_chapter() {
    let mut project = project();
    let (id, ops) = project.create_chapter("One".to_string(), None, at(3)).unwrap();
    assert_eq!(id, ChapterId(0));
    assert_eq!(
        brief(&ops),
        with_save(vec![
            "mkdir /n/chapters/chapter-0",
            "metadata#0 /n/chapters/chapter-0/metadata.json",
            "content#0 /n/chapters/chapter-0/content.md",
        ])
    );
    let chapter = project.chapters.get(&0).unwrap();
    assert_eq!(chapter.id, ChapterId(0));
    assert_eq!(chapter.title, "One");
    assert_eq!(chapter.order, 0);
    assert_eq!(chapter.volume_id, VolumeId(1));
    assert_eq!(chapter.dir_path, "/n/chapters/chapter-0");
    assert_eq!(chapter.content, "");
    assert_eq!(chapter.word_count, 0);
    assert_eq!(chapter.status, ChapterStatus::NotStarted);
    assert_eq!(chapter.current_version, 0);
    assert_eq!(chapter.created_at, at(3));
    assert_eq!(chapter.modified_at, at(3));
    assert_eq!(chapter_ids(&project, 0), vec![0]);
    assert_eq!(project.volumes[0].modified_at, at(3));
    assert_eq!(project.modified_at, at(3));

    let (second, _) = project.create_chapter("Two".to_string(), Some(VolumeId(1)), at(4)).unwrap();
    assert_eq!(second, ChapterId(1));
    assert_eq!(project.chapters.get(&1).unwrap().order, 1);
    assert_eq!(chapter_ids(&project, 0), vec![0, 1]);
    assert_consistent(&project);
}

#[test]
fn create_chapter_fails_for_an_unknown_volume() {
    let mut project = project();
    let failed = project.create_chapter("One".to_string(), Some(VolumeId(7)), at(3));
    assert!(matches!(failed, Err(StoreError::NotFound(Missing::Volume(VolumeId(7))))));
    assert!(project.chapters.is_empty());
    assert!(project.volumes[0].chapter_ids.is_empty());
    assert_eq!(project.modified_at, at(1));

    let failed = project.create_chapter_in("One".to_string(), VolumeId(8), at(3));
    assert!(matches!(failed, Err(StoreError::NotFound(Missing::Volume(VolumeId(8))))));
}

#[test]
fn create_chapter_fails_without_any_volume() {
    let mut project = project();
    project.delete_volume(VolumeId(1), at(2));
    let failed = project.create_chapter("One".to_string(), None, at(3));
    assert!(matches!(failed, Err(StoreError::NotFound(Missing::Volume(_)))));
    assert!(project.chapters.is_empty());
}

#[test]
fn create_chapter_never_reuses_an_identifier_in_use() {
    let mut project = project();
    for title in ["a", "b", "c"] {
        project.create_chapter(title.to_string(), None, at(2)).unwrap();
    }
    project.delete_chapter(ChapterId(0), at(3));
    // Two chapters are left, 1 and 2: the count is taken, the next number is free.
    let (id, ops) = project.create_chapter("d".to_string(), None, at(4)).unwrap();
    assert_eq!(id, ChapterId(3));
    assert_eq!(brief(&ops)[0], "mkdir /n/chapters/chapter-3");
    assert_eq!(project.chapters.get(&1).unwrap().title, "b");
    assert_eq!(project.chapters.get(&2).unwrap().title, "c");
    assert_eq!(chapter_ids(&project, 0), vec![1, 2, 3]);
    assert_consistent(&project);

    project.delete_chapter(ChapterId(3), at(5));
    project.delete_chapter(ChapterId(2), at(5));
    // One chapter is left, 1: the count is taken again.
    let (id, _) = project.create_chapter("e".to_string(), None, at(6)).unwrap();
    assert_eq!(id, ChapterId(2));
    project.delete_chapter(ChapterId(1), at(7));
    // One chapter is left, 2: the count is free.
    let (id, _) = project.create_chapter("f".to_string(), None, at(8)).unwrap();
    assert_eq!(id, ChapterId(1));
    assert_consistent(&project);
}

#[test]
fn delete_chapter_renumbers_the_rest() {
    let mut project = project();
    for title in ["a", "b", "c", "d"] {
        project.create_chapter(title.to_string(), None, at(2)).unwrap();
    }
    let ops = project.delete_chapter(ChapterId(1), at(9));
    assert_eq!(brief(&ops), with_save(vec!["rmdir /n/chapters/chapter-1"]));
    assert!(project.chapters.get(&1).is_none());
    assert_eq!(chapter_ids(&project, 0), vec![0, 2, 3]);
    assert_eq!(project.chapters.get(&0).unwrap().order, 0);
    assert_eq!(project.chapters.get(&2).unwrap().order, 1);
    assert_eq!(project.chapters.get(&3).unwrap().order, 2);
    assert_eq!(project.modified_at, at(9));
    assert_consistent(&project);
}

#[test]
fn delete_chapter_ignores_an_unknown_chapter() {
    let mut project = project();
    project.create_chapter("a".to_string(), None, at(2)).unwrap();
    let ops = project.delete_chapter(ChapterId(5), at(9));
    assert!(ops.is_empty());
    assert_eq!(project.chapters.len(), 1);
    assert_eq!(project.modified_at, at(2));
}

#[test]
fn delete_volume_takes_its_chapters_along() {
    let mut project = project();
    project.create_volume_with_id(VolumeId(2), "Second".to_string(), at(2));
    project.create_volume_with_id(VolumeId(3), "Third".to_string(), at(2));
    project.create_chapter("a".to_string(), Some(VolumeId(1)), at(3)).unwrap();
    project.create_chapter("b".to_string(), Some(VolumeId(2)), at(3)).unwrap();
    project.create_chapter("c".to_string(), Some(VolumeId(2)), at(3)).unwrap();
    project.create_chapter("d".to_string(), Some(VolumeId(3)), at(3)).unwrap();

    let ops = project.delete_volume(VolumeId(2), at(9));
    assert_eq!(
        brief(&ops),
        with_save(vec!["rmdir /n/chapters/chapter-1", "rmdir /n/chapters/chapter-2"])
    );
    assert_eq!(project.volumes.len(), 2);
    assert_eq!(project.volumes[0].id, VolumeId(1));
    assert_eq!(project.volumes[1].id, VolumeId(3));
    assert_eq!(project.volumes[0].order, 0);
    assert_eq!(project.volumes[1].order, 1);
    let mut left: Vec<u64> = project.chapters.keys().copied().collect();
    left.sort();
    assert_eq!(left, vec![0, 3]);
    assert!(project.chapters.values().all(|c| c.volume_id != VolumeId(2)));
    assert_eq!(project.modified_at, at(9));
    assert_consistent(&project);
}

#[test]
fn delete_volume_ignores_an_unknown_volume() {
    let mut project = project();
    project.create_chapter("a".to_string(), None, at(3)).unwrap();
    let ops = project.delete_volume(VolumeId(9), at(9));
    assert!(ops.is_empty());
    assert_eq!(project.volumes.len(), 1);
    assert_eq!(project.chapters.len(), 1);
    assert_eq!(project.modified_at, at(3));
}

#[test]
fn rename_chapter_rewrites_its_metadata() {
    let mut project = project();
    project.create_chapter("a".to_string(), None, at(2)).unwrap();
    let ops = project.rename_chapter(ChapterId(0), "Alpha".to_string(), at(7));
    assert_eq!(
        brief(&ops),
        with_save(vec!["metadata#0 /n/chapters/chapter-0/metadata.json"])
    );
    let chapter = project.chapters.get(&0).unwrap();
    assert_eq!(chapter.title, "Alpha");
    assert_eq!(chapter.modified_at, at(7));
    assert_eq!(chapter.created_at, at(2));
    assert_eq!(project.modified_at, at(7));
    assert!(project.rename_chapter(ChapterId(4), "x".to_string(), at(8)).is_empty());
    assert_eq!(project.modified_at, at(7));
    assert_consistent(&project);
}

#[test]
fn update_chapter_status_rewrites_its_metadata() {
    let mut project = project();
    project.create_chapter("a".to_string(), None, at(2)).unwrap();
    let ops = project.update_chapter_status(ChapterId(0), ChapterStatus::Review, at(7));
    assert_eq!(
        brief(&ops),
        with_save(vec!["metadata#0 /n/chapters/chapter-0/metadata.json"])
    );
    let chapter = project.chapters.get(&0).unwrap();
    assert_eq!(chapter.status, ChapterStatus::Review);
    assert_eq!(chapter.modified_at, at(7));
    assert_eq!(project.modified_at, at(7));
    assert!(project.update_chapter_status(ChapterId(4), ChapterStatus::Draft, at(8)).is_empty());
    assert_eq!(project.chapters.get(&0).unwrap().status, ChapterStatus::Review);
}

#[test]
fn reorder_replaces_the_list_and_the_orders() {
    let mut project = project();
    for title in ["a", "b", "c"] {
        project.create_chapter(title.to_string(), None, at(2)).unwrap();
    }
    let ops = project
        .reorder_chapters_in_volume(
            VolumeId(1),
            vec![ChapterId(2), ChapterId(0), ChapterId(1)],
            at(8),
        )
        .unwrap();
    assert_eq!(brief(&ops), save());
    assert_eq!(chapter_ids(&project, 0), vec![2, 0, 1]);
    assert_eq!(project.chapters.get(&2).unwrap().order, 0);
    assert_eq!(project.chapters.get(&0).unwrap().order, 1);
    assert_eq!(project.chapters.get(&1).unwrap().order, 2);
    assert_eq!(project.volumes[0].modified_at, at(8));
    assert_eq!(project.modified_at, at(8));
    assert_consistent(&project);
}

#[test]
fn reorder_rejects_a_chapter_of_another_volume() {
    let mut project = project();
    project.create_volume_with_id(VolumeId(2), "Second".to_string(), at(2));
    project.create_chapter("a".to_string(), Some(VolumeId(1)), at(3)).unwrap();
    project.create_chapter("b".to_string(), Some(VolumeId(1)), at(3)).unwrap();
    project.create_chapter("c".to_string(), Some(VolumeId(2)), at(3)).unwrap();
    let failed = project.reorder_chapters_in_volume(
        VolumeId(1),
        vec![ChapterId(1), ChapterId(2), ChapterId(0)],
        at(8),
    );
    assert!(matches!(failed, Err(StoreError::InvalidArgument(ChapterId(2)))));
    assert_eq!(chapter_ids(&project, 0), vec![0, 1]);
    assert_eq!(project.chapters.get(&0).unwrap().order, 0);
    assert_eq!(project.chapters.get(&1).unwrap().order, 1);
    assert_eq!(project.modified_at, at(3));
    assert_consistent(&project);
}

#[test]
fn reorder_rejects_an_unknown_chapter_and_names_the_first() {
    let mut project = project();
    project.create_chapter("a".to_string(), None, at(3)).unwrap();
    let failed = project.reorder_chapters_in_volume(
        VolumeId(1),
        vec![ChapterId(0), ChapterId(41), ChapterId(42)],
        at(8),
    );
    assert!(matches!(failed, Err(StoreError::InvalidArgument(ChapterId(41)))));
    assert_eq!(chapter_ids(&project, 0), vec![0]);
}

#[test]
fn reorder_ignores_an_unknown_volume() {
    let mut project = project();
    project.create_chapter("a".to_string(), None, at(3)).unwrap();
    let ops = project
        .reorder_chapters_in_volume(VolumeId(9), vec![ChapterId(77)], at(8))
        .unwrap();
    assert!(ops.is_empty());
    assert_eq!(chapter_ids(&project, 0), vec![0]);
    assert_eq!(project.modified_at, at(3));
}

#[test]
fn reorder_drops_chapters_that_the_new_order_omits() {
    let mut project = project();
    for title in ["a", "b", "c"] {
        project.create_chapter(title.to_string(), None, at(2)).unwrap();
    }
    project
        .reorder_chapters_in_volume(VolumeId(1), vec![ChapterId(2), ChapterId(0)], at(8))
        .unwrap();
    assert_eq!(chapter_ids(&project, 0), vec![2, 0]);
    // The omitted chapter stays in the index, with the order that it had.
    let omitted = project.chapters.get(&1).unwrap();
    assert_eq!(omitted.order, 1);
    assert_eq!(omitted.volume_id, VolumeId(1));
    assert_eq!(project.chapters.len(), 3);
}

#[test]
fn reorder_with_a_chapter_twice_caches_its_last_position() {
    let mut project = project();
    for title in ["a", "b"] {
        project.create_chapter(title.to_string(), None, at(2)).unwrap();
    }
    project
        .reorder_chapters_in_volume(
            VolumeId(1),
            vec![ChapterId(1), ChapterId(0), ChapterId(1)],
            at(8),
        )
        .unwrap();
    assert_eq!(chapter_ids(&project, 0), vec![1, 0, 1]);
    assert_eq!(project.chapters.get(&1).unwrap().order, 2);
    assert_eq!(project.chapters.get(&0).unwrap().order, 1);
}

#[test]
fn move_puts_the_chapter_at_the_position() {
    let mut project = project();
    project.create_volume_with_id(VolumeId(2), "Second".to_string(), at(2));
    for title in ["a", "b", "c"] {
        project.create_chapter(title.to_string(), Some(VolumeId(1)), at(3)).unwrap();
    }
    for title in ["x", "y"] {
        project.create_chapter(title.to_string(), Some(VolumeId(2)), at(3)).unwrap();
    }
    let ops = project.move_chapter_to_volume(ChapterId(1), VolumeId(2), 1, at(9)).unwrap();
    assert_eq!(brief(&ops), save());
    assert_eq!(chapter_ids(&project, 0), vec![0, 2]);
    assert_eq!(chapter_ids(&project, 1), vec![3, 1, 4]);
    assert_eq!(project.chapters.get(&1).unwrap().volume_id, VolumeId(2));
    assert_eq!(project.modified_at, at(9));
    // The cached orders stay as they were.
    assert_eq!(project.chapters.get(&1).unwrap().order, 1);
    assert_eq!(project.chapters.get(&2).unwrap().order, 2);
    assert_eq!(project.chapters.get(&4).unwrap().order, 1);
}

#[test]
fn move_beyond_the_end_appends() {
    let mut project = project();
    project.create_volume_with_id(VolumeId(2), "Second".to_string(), at(2));
    project.create_chapter("a".to_string(), Some(VolumeId(1)), at(3)).unwrap();
    project.create_chapter("x".to_string(), Some(VolumeId(2)), at(3)).unwrap();
    project.create_chapter("y".to_string(), Some(VolumeId(2)), at(3)).unwrap();
    project.move_chapter_to_volume(ChapterId(0), VolumeId(2), 1000, at(9)).unwrap();
    assert_eq!(chapter_ids(&project, 0), Vec::<u64>::new());
    assert_eq!(chapter_ids(&project, 1), vec![1, 2, 0]);
    project.move_chapter_to_volume(ChapterId(1), VolumeId(1), usize::MAX, at(9)).unwrap();
    assert_eq!(chapter_ids(&project, 0), vec![1]);
    assert_eq!(chapter_ids(&project, 1), vec![2, 0]);
}

#[test]
fn move_within_a_volume_takes_the_chapter_out_first() {
    let mut project = project();
    for title in ["a", "b", "c"] {
        project.create_chapter(title.to_string(), None, at(3)).unwrap();
    }
    project.move_chapter_to_volume(ChapterId(0), VolumeId(1), 2, at(9)).unwrap();
    assert_eq!(chapter_ids(&project, 0), vec![1, 2, 0]);
    project.move_chapter_to_volume(ChapterId(0), VolumeId(1), 0, at(9)).unwrap();
    assert_eq!(chapter_ids(&project, 0), vec![0, 1, 2]);
    project.move_chapter_to_volume(ChapterId(1), VolumeId(1), 7, at(9)).unwrap();
    assert_eq!(chapter_ids(&project, 0), vec![0, 2, 1]);
}

#[test]
fn move_fails_for_an_unknown_chapter() {
    let mut project = project();
    project.create_chapter("a".to_string(), None, at(3)).unwrap();
    let failed = project.move_chapter_to_volume(ChapterId(9), VolumeId(1), 0, at(9));
    assert!(matches!(failed, Err(StoreError::NotFound(Missing::Chapter(ChapterId(9))))));
    assert_eq!(chapter_ids(&project, 0), vec![0]);
    assert_eq!(project.modified_at, at(3));
}

#[test]
fn move_to_an_unknown_volume_leaves_the_chapter_unlisted() {
    let mut project = project();
    project.create_chapter("a".to_string(), None, at(3)).unwrap();
    project.move_chapter_to_volume(ChapterId(0), VolumeId(9), 0, at(9)).unwrap();
    assert_eq!(chapter_ids(&project, 0), Vec::<u64>::new());
    assert_eq!(project.chapters.get(&0).unwrap().volume_id, VolumeId(9));
}

#[test]
fn reordering_after_a_move_brings_the_orders_back() {
    let mut project = project();
    project.create_volume_with_id(VolumeId(2), "Second".to_string(), at(2));
    for title in ["a", "b", "c"] {
        project.create_chapter(title.to_string(), Some(VolumeId(1)), at(3)).unwrap();
    }
    project.move_chapter_to_volume(ChapterId(0), VolumeId(2), 0, at(4)).unwrap();
    let first = project.volumes[0].chapter_ids.clone();
    let second = project.volumes[1].chapter_ids.clone();
    project.reorder_chapters_in_volume(VolumeId(1), first, at(5)).unwrap();
    project.reorder_chapters_in_volume(VolumeId(2), second, at(5)).unwrap();
    assert_consistent(&project);
}

#[test]
fn chapters_for_volume_follow_the_list() {
    let mut project = project();
    project.create_volume_with_id(VolumeId(2), "Second".to_string(), at(2));
    for title in ["a", "b", "c"] {
        project.create_chapter(title.to_string(), Some(VolumeId(1)), at(3)).unwrap();
    }
    project.create_chapter("x".to_string(), Some(VolumeId(2)), at(3)).unwrap();
    project
        .reorder_chapters_in_volume(
            VolumeId(1),
            vec![ChapterId(1), ChapterId(2), ChapterId(0)],
            at(4),
        )
        .unwrap();
    let titles: Vec<&str> =
        project.get_chapters_for_volume(VolumeId(1)).iter().map(|c| c.title.as_str()).collect();
    assert_eq!(titles, vec!["b", "c", "a"]);
    let titles: Vec<&str> =
        project.get_chapters_for_volume(VolumeId(2)).iter().map(|c| c.title.as_str()).collect();
    assert_eq!(titles, vec!["x"]);
    assert!(project.get_chapters_for_volume(VolumeId(3)).is_empty());
}

#[test]
fn chapters_for_volume_skip_what_the_index_lacks() {
    let mut project = project();
    project.create_chapter("a".to_string(), None, at(3)).unwrap();
    project.create_chapter("b".to_string(), None, at(3)).unwrap();
    project.chapters.remove(&0);
    let titles: Vec<&str> =
        project.get_chapters_for_volume(VolumeId(1)).iter().map(|c| c.title.as_str()).collect();
    assert_eq!(titles, vec!["b"]);
}

#[test]
fn all_chapters_come_by_volume_then_by_order() {
    let mut project = project();
    project.create_volume_with_id(VolumeId(2), "Second".to_string(), at(2));
    project.create_chapter("x".to_string(), Some(VolumeId(2)), at(3)).unwrap();
    project.create_chapter("a".to_string(), Some(VolumeId(1)), at(3)).unwrap();
    project.create_chapter("y".to_string(), Some(VolumeId(2)), at(3)).unwrap();
    project.create_chapter("b".to_string(), Some(VolumeId(1)), at(3)).unwrap();
    project.create_chapter("c".to_string(), Some(VolumeId(1)), at(3)).unwrap();
    project
        .reorder_chapters_in_volume(
            VolumeId(1),
            vec![ChapterId(4), ChapterId(1), ChapterId(3)],
            at(4),
        )
        .unwrap();
    let titles: Vec<&str> =
        project.get_all_chapters_in_order().iter().map(|c| c.title.as_str()).collect();
    assert_eq!(titles, vec!["c", "a", "b", "x", "y"]);
    assert!(NovelProject::new("/e".to_string(), "E".to_string(), at(1))
        .get_all_chapters_in_order()
        .is_empty());
}

#[test]
fn all_chapters_put_chapters_without_a_volume_with_the_first() {
    let mut project = project();
    project.create_volume_with_id(VolumeId(2), "Second".to_string(), at(2));
    project.create_chapter("a".to_string(), Some(VolumeId(2)), at(3)).unwrap();
    project.create_chapter("b".to_string(), Some(VolumeId(1)), at(3)).unwrap();
    project.create_chapter("c".to_string(), Some(VolumeId(1)), at(3)).unwrap();
    project.move_chapter_to_volume(ChapterId(2), VolumeId(9), 0, at(4)).unwrap();
    let chapters = project.get_all_chapters_in_order();
    let keys: Vec<(usize, usize)> = chapters
        .iter()
        .map(|c| {
            let volume = project.volumes.iter().find(|v| v.id == c.volume_id);
            (volume.map_or(0, |v| v.order), c.order)
        })
        .collect();
    assert_eq!(keys, vec![(0, 0), (0, 1), (1, 0)]);
    assert_eq!(chapters[0].title, "b");
    assert_eq!(chapters[1].title, "c");
    assert_eq!(chapters[2].title, "a");
}

#[test]
fn every_sequence_of_changes_keeps_the_project_consistent() {
    // A fixed walk through creations, deletions and reorders, driven by a
    // small generator so that the sequence is long and mixed.
    let mut project = project();
    let mut state = 12345u64;
    let mut next = |bound: u64| {
        state = state.wrapping_mul(6364136223846793005).wrapping_add(1442695040888963407);
        (state >> 33) % bound
    };
    let mut volume_ids = vec![VolumeId(1)];
    let mut fresh_volume = 2u128;
    for step in 0..400u64 {
        let now = at(10 + step);
        match next(8) {
            0 => {
                let id = VolumeId(fresh_volume);
                fresh_volume += 1;
                project.create_volume_with_id(id, format!("v{}", step), now);
                volume_ids.push(id);
            }
            1 => {
                if volume_ids.len() > 1 {
                    let id = volume_ids.remove(next(volume_ids.len() as u64) as usize);
                    project.delete_volume(id, now);
                }
            }
            2 | 3 | 4 => {
                let id = volume_ids[next(volume_ids.len() as u64) as usize];
                project.create_chapter(format!("c{}", step), Some(id), now).unwrap();
            }
            5 => {
                let keys: Vec<u64> = project.chapters.keys().copied().collect();
                if !keys.is_empty() {
                    let mut keys = keys;
                    keys.sort();
                    let id = keys[next(keys.len() as u64) as usize];
                    project.delete_chapter(ChapterId(id), now);
                }
            }
            6 => {
                let index = next(project.volumes.len() as u64) as usize;
                let id = project.volumes[index].id;
                let mut order = project.volumes[index].chapter_ids.clone();
                order.reverse();
                if order.len() > 2 {
                    order.swap(0, 1);
                }
                project.reorder_chapters_in_volume(id, order, now).unwrap();
            }
            _ => {
                let keys: Vec<u64> = project.chapters.keys().copied().collect();
                if !keys.is_empty() {
                    let mut keys = keys;
                    keys.sort();
                    let id = ChapterId(keys[next(keys.len() as u64) as usize]);
                    project.rename_chapter(id, format!("r{}", step), now);
                    project.update_chapter_status(id, ChapterStatus::InProgress, now);
                    project.update_chapter_content(id, format!("text {}", step), None, now);
                }
            }
        }
        assert_consistent(&project);
    }
    assert!(project.chapters.len() > 10);
}
