use novel_chapter::layout::{
    chapters_dir_path, content_file_path, history_dir_path, metadata_file_path, project_file_path,
};
use novel_chapter::{
    Chapter, ChapterDirEntry, ChapterId, ChapterStatus, ChapterVersion, DirRead, Document,
    FileRead, IoOperation, NovelProject, StorageOp, StoreError, Timestamp, VolumeId,
};
use std::collections::{BTreeMap, BTreeSet};

fn at(secs: u64) -> Timestamp {
    Timestamp { secs, nanos: 0 }
}

/// A disk in memory that holds what the store asks to be written.
#[derive(Default)]
struct Disk {
    dirs: BTreeSet<String>,
    project: Option<NovelProject>,
    metadata: BTreeMap<String, Chapter>,
    contents: BTreeMap<String, String>,
    snapshots: BTreeMap<String, ChapterVersion>,
}

impl Disk {
    fn apply(&mut self, project: &NovelProject, ops: Vec<StorageOp>) {
        for op in ops {
            match op {
                StorageOp::CreateDir { path } => {
                    self.dirs.insert(path);
                }
                StorageOp::RemoveDir { path } => {
                    let below = format!("{}/", path);
                    self.dirs.retain(|d| *d != path && !d.starts_with(&below));
                    self.metadata.retain(|f, _| !f.starts_with(&below));
                    self.contents.retain(|f, _| !f.starts_with(&below));
                    self.snapshots.retain(|f, _| !f.starts_with(&below));
                }
                StorageOp::Write { path, document } => match document {
                    Document::Project => {
                        let mut stored = project.clone();
                        for chapter in stored.chapters.values_mut() {
                            chapter.content = String::new();
                        }
                        self.project = Some(stored);
                    }
                    Document::Characters | Document::World | Document::Plot => {}
                    Document::ChapterMetadata(id) => {
                        let mut stored = project.chapters.get(&id.0).unwrap().clone();
                        stored.content = String::new();
                        self.metadata.insert(path, stored);
                    }
                    Document::ChapterContent(id) => {
                        let text = project.chapters.get(&id.0).unwrap().content.clone();
                        self.contents.insert(path, text);
                    }
                    Document::Snapshot(version) => {
                        self.snapshots.insert(path, version);
                    }
                },
            }
        }
    }

    fn read<T: Clone>(files: &BTreeMap<String, T>, path: &str) -> FileRead<T> {
        match files.get(path) {
            Some(found) => FileRead::Loaded(found.clone()),
            None => FileRead::Absent,
        }
    }

    fn scan(&self, root: &str) -> (FileRead<NovelProject>, DirRead<ChapterDirEntry>) {
        let root_metadata = match &self.project {
            Some(project) => FileRead::Loaded(project.clone()),
            None => FileRead::Absent,
        };
        let area = chapters_dir_path(root);
        if !self.dirs.contains(&area) {
            return (root_metadata, DirRead::Absent);
        }
        let below = format!("{}/", area);
        let mut entries = Vec::new();
        for dir in &self.dirs {
            if let Some(name) = dir.strip_prefix(&below) {
                if name.contains('/') {
                    continue;
                }
                let history_dir = history_dir_path(dir);
                let history = if self.dirs.contains(&history_dir) {
                    let inside = format!("{}/", history_dir);
                    DirRead::Listed(
                        self.snapshots
                            .keys()
                            .filter_map(|f| f.strip_prefix(&inside).map(|n| n.to_string()))
                            .collect(),
                    )
                } else {
                    DirRead::Absent
                };
                entries.push(ChapterDirEntry {
                    path: dir.clone(),
                    is_dir: true,
                    metadata: Self::read(&self.metadata, &metadata_file_path(dir)),
                    content: Self::read(&self.contents, &content_file_path(dir)),
                    history,
                });
            }
        }
        (root_metadata, DirRead::Listed(entries))
    }
}

fn stored_chapter(id: u64, title: &str) -> Chapter {
    Chapter {
        id: ChapterId(id),
        title: title.to_string(),
        order: 0,
        volume_id: VolumeId(1),
        dir_path: "/stale/place".to_string(),
        content: String::new(),
        word_count: 99,
        status: ChapterStatus::Draft,
        current_version: 42,
        created_at: at(1),
        modified_at: at(2),
    }
}

fn entry(path: &str, metadata: FileRead<Chapter>) -> ChapterDirEntry {
    ChapterDirEntry {
        path: path.to_string(),
        is_dir: true,
        metadata,
        content: FileRead::Absent,
        history: DirRead::Absent,
    }
}

fn empty_project() -> NovelProject {
    NovelProject::with_default_volume("/old".to_string(), "Novel".to_string(), VolumeId(1), at(1))
}

#[test]
fn loading_what_was_persisted_gives_the_project_back() {
    let mut disk = Disk::default();
    let mut project =
        NovelProject::with_default_volume("/n".to_string(), "Round Trip".to_string(), VolumeId(1), at(1));
    let ops = project.initialize();
    disk.apply(&project, ops);
    let ops = project.create_volume_with_id(VolumeId(2), "Second".to_string(), at(2));
    disk.apply(&project, ops);
    for (title, volume) in [("a", 1u128), ("b", 2), ("c", 1), ("d", 2)] {
        let (_, ops) = project.create_chapter(title.to_string(), Some(VolumeId(volume)), at(3)).unwrap();
        disk.apply(&project, ops);
    }
    for (id, texts) in [(0u64, vec!["one", "one two", "one two three"]), (3, vec!["solo"])] {
        for text in texts {
            let ops = project.update_chapter_content(ChapterId(id), text.to_string(), None, at(4));
            disk.apply(&project, ops);
        }
    }
    let ops = project.update_chapter_status(ChapterId(1), ChapterStatus::Complete, at(5));
    disk.apply(&project, ops);
    let ops = project.rename_chapter(ChapterId(2), "gamma".to_string(), at(6));
    disk.apply(&project, ops);
    let ops = project.delete_chapter(ChapterId(2), at(7));
    disk.apply(&project, ops);
    let ops = project.save_metadata();
    disk.apply(&project, ops);

    let (root_metadata, area) = disk.scan("/n");
    let loaded = NovelProject::load("/n".to_string(), root_metadata, area).unwrap();

    assert_eq!(loaded.root_path, "/n");
    assert_eq!(loaded.title, "Round Trip");
    assert_eq!(loaded.volumes.len(), project.volumes.len());
    for (a, b) in loaded.volumes.iter().zip(project.volumes.iter()) {
        assert_eq!(a.id, b.id);
        assert_eq!(a.title, b.title);
        assert_eq!(a.order, b.order);
        assert_eq!(a.chapter_ids, b.chapter_ids);
    }
    assert_eq!(loaded.chapters.len(), project.chapters.len());
    for (key, chapter) in &project.chapters {
        let back = loaded.chapters.get(key).unwrap();
        assert_eq!(back.id, chapter.id);
        assert_eq!(back.title, chapter.title);
        assert_eq!(back.order, chapter.order);
        assert_eq!(back.volume_id, chapter.volume_id);
        assert_eq!(back.dir_path, chapter.dir_path);
        assert_eq!(back.content, chapter.content);
        assert_eq!(back.word_count, chapter.word_count);
        assert_eq!(back.status, chapter.status);
    }
    // Three rewrites left two snapshots: the version is told from them.
    assert_eq!(loaded.chapters.get(&0).unwrap().current_version, 3);
    assert_eq!(loaded.chapters.get(&0).unwrap().content, "one two three");
    // One rewrite left no snapshot: the version starts over.
    assert_eq!(project.chapters.get(&3).unwrap().current_version, 1);
    assert_eq!(loaded.chapters.get(&3).unwrap().current_version, 0);
    assert!(!disk.dirs.contains("/n/chapters/chapter-2"));
    assert!(disk.dirs.contains("/n/chapters/chapter-0/history"));
}

#[test]
fn deleting_a_volume_leaves_no_directory_of_its_chapters() {
    let mut disk = Disk::default();
    let mut project =
        NovelProject::with_default_volume("/n".to_string(), "N".to_string(), VolumeId(1), at(1));
    let ops = project.initialize();
    disk.apply(&project, ops);
    let ops = project.create_volume_with_id(VolumeId(2), "Second".to_string(), at(2));
    disk.apply(&project, ops);
    for volume in [1u128, 2, 2, 1, 2] {
        let (_, ops) = project.create_chapter("c".to_string(), Some(VolumeId(volume)), at(3)).unwrap();
        disk.apply(&project, ops);
    }
    for id in [1u64, 2] {
        for text in ["x", "y"] {
            let ops = project.update_chapter_content(ChapterId(id), text.to_string(), None, at(4));
            disk.apply(&project, ops);
        }
    }
    let ops = project.delete_volume(VolumeId(2), at(5));
    disk.apply(&project, ops);

    let mut left: Vec<u64> = project.chapters.keys().copied().collect();
    left.sort();
    assert_eq!(left, vec![0, 3]);
    let chapter_dirs: Vec<&String> = disk
        .dirs
        .iter()
        .filter(|d| d.starts_with("/n/chapters/"))
        .collect();
    assert_eq!(chapter_dirs, vec!["/n/chapters/chapter-0", "/n/chapters/chapter-3"]);
    assert!(disk.snapshots.is_empty());
    assert_eq!(disk.contents.len(), 2);

    let (root_metadata, area) = disk.scan("/n");
    let loaded = NovelProject::load("/n".to_string(), root_metadata, area).unwrap();
    assert_eq!(loaded.chapters.len(), 2);
    assert_eq!(loaded.volumes.len(), 1);
}

#[test]
fn load_fails_without_root_metadata() {
    match NovelProject::load("/n".to_string(), FileRead::Absent, DirRead::Absent) {
        Err(StoreError::Io { path, operation }) => {
            assert_eq!(path, "/n/.novel/project.json");
            assert_eq!(path, project_file_path("/n"));
            assert_eq!(operation, IoOperation::Read);
        }
        other => panic!("{:?}", other),
    }
    assert!(matches!(
        NovelProject::load("/n".to_string(), FileRead::Unreadable, DirRead::Absent),
        Err(StoreError::Io { operation: IoOperation::Read, .. })
    ));
}

#[test]
fn load_fails_on_malformed_root_metadata() {
    match NovelProject::load("/n".to_string(), FileRead::Malformed, DirRead::Absent) {
        Err(StoreError::Parse { path }) => assert_eq!(path, "/n/.novel/project.json"),
        other => panic!("{:?}", other),
    }
}

#[test]
fn load_takes_the_place_where_the_project_was_found() {
    let loaded =
        NovelProject::load("/moved".to_string(), FileRead::Loaded(empty_project()), DirRead::Absent).unwrap();
    assert_eq!(loaded.root_path, "/moved");
    assert_eq!(loaded.title, "Novel");
    assert_eq!(loaded.volumes.len(), 1);
    assert!(loaded.chapters.is_empty());
}

#[test]
fn load_fails_where_the_chapter_area_cannot_be_listed() {
    match NovelProject::load("/n".to_string(), FileRead::Loaded(empty_project()), DirRead::Unreadable) {
        Err(StoreError::Io { path, operation }) => {
            assert_eq!(path, "/n/chapters");
            assert_eq!(operation, IoOperation::ReadDir);
        }
        other => panic!("{:?}", other),
    }
}

#[test]
fn a_chapter_is_loaded_from_where_it_was_found() {
    let mut found = entry("/n/chapters/chapter-5", FileRead::Loaded(stored_chapter(5, "five")));
    found.content = FileRead::Loaded("some  text here".to_string());
    found.history = DirRead::Listed(vec!["v1.json".to_string(), "v4.json".to_string()]);
    let chapter = NovelProject::load_chapter_directory(found).unwrap().unwrap();
    assert_eq!(chapter.id, ChapterId(5));
    assert_eq!(chapter.title, "five");
    assert_eq!(chapter.dir_path, "/n/chapters/chapter-5");
    assert_eq!(chapter.content, "some  text here");
    assert_eq!(chapter.word_count, 3);
    assert_eq!(chapter.current_version, 5);
    assert_eq!(chapter.status, ChapterStatus::Draft);
    assert_eq!(chapter.created_at, at(1));
}

#[test]
fn a_chapter_without_content_file_keeps_its_stored_text() {
    let mut stored = stored_chapter(5, "five");
    stored.content = "kept text".to_string();
    let chapter = NovelProject::load_chapter_directory(entry("/d", FileRead::Loaded(stored)))
        .unwrap()
        .unwrap();
    assert_eq!(chapter.content, "kept text");
    assert_eq!(chapter.word_count, 2);
    assert_eq!(chapter.current_version, 0);
    assert_eq!(chapter.dir_path, "/d");
}

#[test]
fn a_directory_without_metadata_is_skipped() {
    assert!(NovelProject::load_chapter_directory(entry("/d", FileRead::Absent)).unwrap().is_none());
    let mut file = entry("/n/chapters/README", FileRead::Loaded(stored_chapter(1, "x")));
    file.is_dir = false;
    assert!(NovelProject::load_chapter_directory(file).unwrap().is_none());

    let mut project = empty_project();
    let area = DirRead::Listed(vec![
        entry("/n/chapters/scaffold", FileRead::Absent),
        entry("/n/chapters/chapter-1", FileRead::Loaded(stored_chapter(1, "one"))),
    ]);
    project.reload_chapters(area).unwrap();
    assert_eq!(project.chapters.len(), 1);
    assert_eq!(project.chapters.get(&1).unwrap().dir_path, "/n/chapters/chapter-1");
}

#[test]
fn a_chapter_fails_to_load_where_a_file_cannot_be_read() {
    match NovelProject::load_chapter_directory(entry("/d", FileRead::Unreadable)) {
        Err(StoreError::Io { path, operation }) => {
            assert_eq!(path, "/d/metadata.json");
            assert_eq!(operation, IoOperation::Read);
        }
        other => panic!("{:?}", other),
    }
    match NovelProject::load_chapter_directory(entry("/d", FileRead::Malformed)) {
        Err(StoreError::Parse { path }) => assert_eq!(path, "/d/metadata.json"),
        other => panic!("{:?}", other),
    }
    let mut found = entry("/d", FileRead::Loaded(stored_chapter(1, "x")));
    found.content = FileRead::Unreadable;
    match NovelProject::load_chapter_directory(found) {
        Err(StoreError::Io { path, operation }) => {
            assert_eq!(path, "/d/content.md");
            assert_eq!(operation, IoOperation::Read);
        }
        other => panic!("{:?}", other),
    }
    let mut found = entry("/d", FileRead::Loaded(stored_chapter(1, "x")));
    found.history = DirRead::Unreadable;
    match NovelProject::load_chapter_directory(found) {
        Err(StoreError::Io { path, operation }) => {
            assert_eq!(path, "/d/history");
            assert_eq!(operation, IoOperation::ReadDir);
        }
        other => panic!("{:?}", other),
    }
    let mut found = entry("/d", FileRead::Loaded(stored_chapter(1, "x")));
    found.history = DirRead::Listed(vec!["v4294967295.json".to_string()]);
    match NovelProject::load_chapter_directory(found) {
        Err(StoreError::Parse { path }) => assert_eq!(path, "/d/history"),
        other => panic!("{:?}", other),
    }
}

#[test]
fn reloading_stops_at_the_first_chapter_that_fails() {
    let mut project = empty_project();
    let area = DirRead::Listed(vec![
        entry("/n/chapters/chapter-1", FileRead::Loaded(stored_chapter(1, "one"))),
        entry("/n/chapters/chapter-2", FileRead::Malformed),
        entry("/n/chapters/chapter-3", FileRead::Loaded(stored_chapter(3, "three"))),
    ]);
    match project.reload_chapters(area) {
        Err(StoreError::Parse { path }) => assert_eq!(path, "/n/chapters/chapter-2/metadata.json"),
        other => panic!("{:?}", other),
    }
    assert_eq!(project.chapters.len(), 1);
    assert!(project.chapters.contains_key(&1));

    let failed = NovelProject::load(
        "/n".to_string(),
        FileRead::Loaded(empty_project()),
        DirRead::Listed(vec![entry("/n/chapters/chapter-2", FileRead::Unreadable)]),
    );
    assert!(matches!(failed, Err(StoreError::Io { .. })));
}

#[test]
fn reloading_replaces_the_chapter_of_the_same_identifier() {
    let mut project = empty_project();
    project.create_chapter("in memory".to_string(), None, at(2)).unwrap();
    let area = DirRead::Listed(vec![
        entry("/a", FileRead::Loaded(stored_chapter(0, "first found"))),
        entry("/b", FileRead::Loaded(stored_chapter(0, "found last"))),
    ]);
    project.reload_chapters(area).unwrap();
    assert_eq!(project.chapters.len(), 1);
    assert_eq!(project.chapters.get(&0).unwrap().title, "found last");
    assert_eq!(project.chapters.get(&0).unwrap().dir_path, "/b");
    project.reload_chapters(DirRead::Absent).unwrap();
    assert_eq!(project.chapters.len(), 1);
}
