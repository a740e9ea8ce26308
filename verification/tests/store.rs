use novel_chapter::{
    ChapterDirEntry, ChapterId, ChapterStatus, ChapterVersion, DirRead, Document, FileRead,
    HistoryFile, Missing, NovelProject, StorageOp, StoreError, Timestamp, VolumeId,
};

fn at(secs: u64) -> Timestamp {
    Timestamp { secs, nanos: 0 }
}

fn new_project() -> NovelProject {
    NovelProject::new("/tmp/novel".to_string(), "Test Novel".to_string(), at(1))
}

/// The snapshots among `ops`, as the files of a history directory.
fn snapshots(ops: &[StorageOp]) -> Vec<HistoryFile> {
    let mut files = Vec::new();
    for op in ops {
        if let StorageOp::Write { path, document: Document::Snapshot(version) } = op {
            let name = path.rsplit('/').next().unwrap().to_string();
            files.push(HistoryFile { name, snapshot: FileRead::Loaded(version.clone()) });
        }
    }
    files
}

#[test]
fn test_create_novel_project() {
    let project = new_project();
    let ops = project.initialize();
    let dirs: Vec<&str> = ops
        .iter()
        .filter_map(|op| match op {
            StorageOp::CreateDir { path } => Some(path.as_str()),
            _ => None,
        })
        .collect();
    assert_eq!(dirs, vec!["/tmp/novel/.novel", "/tmp/novel/chapters", "/tmp/novel/drafts"]);
    assert_eq!(project.volumes.len(), 1);
}

#[test]
fn test_create_and_load_chapter() {
    let mut project = new_project();
    project.initialize();
    let (chapter_id, _) = project.create_chapter("First Chapter".to_string(), None, at(2)).unwrap();
    assert_eq!(project.chapters.len(), 1);
    let chapter = project.chapters.get(&chapter_id.0).unwrap();
    assert_eq!(chapter.id, chapter_id);
    assert_eq!(chapter.title, "First Chapter");
}

#[test]
fn test_chapter_versioning() {
    let mut project = new_project();
    project.initialize();
    let (chapter_id, _) = project.create_chapter("Test Chapter".to_string(), None, at(2)).unwrap();

    let mut written = Vec::new();
    written.extend(project.update_chapter_content(chapter_id, "Content v1".to_string(), None, at(3)));
    written.extend(project.update_chapter_content(chapter_id, "Content v2".to_string(), None, at(4)));
    written.extend(project.update_chapter_content(chapter_id, "Content v3".to_string(), None, at(5)));

    let history = project
        .get_version_history(chapter_id, DirRead::Listed(snapshots(&written)))
        .unwrap();
    assert_eq!(history.len(), 2);

    let chapter = project.chapters.get(&chapter_id.0).unwrap();
    assert_eq!(chapter.current_version, 3);
    assert_eq!(chapter.content, "Content v3");
}

#[test]
fn test_volume_operations() {
    let mut project = new_project();
    project.initialize();
    let (volume_id, _) = project.create_volume("Volume 2".to_string(), at(2));
    assert_eq!(project.volumes.len(), 2);

    let (chapter1_id, _) = project.create_chapter("Chapter 1".to_string(), None, at(3)).unwrap();
    let (chapter2_id, _) =
        project.create_chapter("Chapter 2".to_string(), Some(volume_id), at(4)).unwrap();

    let chapter1 = project.chapters.get(&chapter1_id.0).unwrap();
    let chapter2 = project.chapters.get(&chapter2_id.0).unwrap();
    assert_ne!(chapter1.volume_id, chapter2.volume_id);
}

#[test]
fn test_chapter_reorder() {
    let mut project = new_project();
    project.initialize();
    let (chapter1_id, _) = project.create_chapter("Chapter 1".to_string(), None, at(2)).unwrap();
    let (chapter2_id, _) = project.create_chapter("Chapter 2".to_string(), None, at(3)).unwrap();
    let (chapter3_id, _) = project.create_chapter("Chapter 3".to_string(), None, at(4)).unwrap();

    let default_volume_id = project.volumes[0].id;
    project
        .reorder_chapters_in_volume(
            default_volume_id,
            vec![chapter3_id, chapter1_id, chapter2_id],
            at(5),
        )
        .unwrap();

    let chapters = project.get_all_chapters_in_order();
    assert_eq!(chapters[0].id, chapter3_id);
    assert_eq!(chapters[1].id, chapter1_id);
    assert_eq!(chapters[2].id, chapter2_id);
}
