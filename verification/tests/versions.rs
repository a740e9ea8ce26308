use novel_chapter::history::{find_newest_version, read_history};
use novel_chapter::{
    Chapter, ChapterId, ChapterStatus, ChapterVersion, DirRead, Document, FileRead, HistoryFile,
    IoOperation, Missing, NovelProject, StorageOp, StoreError, Timestamp, VolumeId,
};

fn at(secs: u64) -> Timestamp {
    Timestamp { secs, nanos: 0 }
}

fn project_with_chapter() -> NovelProject {
    let mut project =
        NovelProject::with_default_volume("/n".to_string(), "Novel".to_string(), VolumeId(1), at(1));
    project.create_chapter("One".to_string(), None, at(2)).unwrap();
    project
}

fn snapshot(version: u32, content: &str) -> ChapterVersion {
    ChapterVersion {
        version,
        content: content.to_string(),
        word_count: content.split_whitespace().count(),
        summary: "s".to_string(),
        timestamp: at(version as u64),
    }
}

fn file(name: &str, snapshot: FileRead<ChapterVersion>) -> HistoryFile {
    HistoryFile { name: name.to_string(), snapshot }
}

/// The snapshots among `ops`, as the files of a history directory.
fn written(ops: &[StorageOp]) -> Vec<HistoryFile> {
    let mut files = Vec::new();
    for op in ops {
        if let StorageOp::Write { path, document: Document::Snapshot(version) } = op {
            let name = path.rsplit('/').next().unwrap().to_string();
            files.push(HistoryFile { name, snapshot: FileRead::Loaded(version.clone()) });
        }
    }
    files
}

fn paths(ops: &[StorageOp]) -> Vec<&str> {
    ops.iter()
        .map(|op| match op {
            StorageOp::CreateDir { path } => path.as_str(),
            StorageOp::Write { path, .. } => path.as_str(),
            StorageOp::RemoveDir { path } => path.as_str(),
        })
        .collect()
}

#[test]
fn the_first_text_takes_no_snapshot() {
    let mut project = project_with_chapter();
    let ops = project.update_chapter_content(ChapterId(0), "Hello there world".to_string(), None, at(3));
    assert_eq!(
        paths(&ops),
        vec!["/n/chapters/chapter-0/content.md", "/n/chapters/chapter-0/metadata.json"]
    );
    assert!(matches!(&ops[0], StorageOp::Write { document: Document::ChapterContent(ChapterId(0)), .. }));
    assert!(matches!(&ops[1], StorageOp::Write { document: Document::ChapterMetadata(ChapterId(0)), .. }));
    let chapter = project.chapters.get(&0).unwrap();
    assert_eq!(chapter.content, "Hello there world");
    assert_eq!(chapter.word_count, 3);
    assert_eq!(chapter.current_version, 1);
    assert_eq!(chapter.modified_at, at(3));
    assert_eq!(project.modified_at, at(3));
}

#[test]
fn a_new_text_puts_the_text_so_far_into_the_history() {
    let mut project = project_with_chapter();
    project.update_chapter_content(ChapterId(0), "first text".to_string(), None, at(3));
    let ops = project.update_chapter_content(
        ChapterId(0),
        "second text is longer".to_string(),
        Some("rewrote it".to_string()),
        at(4),
    );
    assert_eq!(
        paths(&ops),
        vec![
            "/n/chapters/chapter-0/history",
            "/n/chapters/chapter-0/history/v1.json",
            "/n/chapters/chapter-0/content.md",
            "/n/chapters/chapter-0/metadata.json",
        ]
    );
    assert!(matches!(&ops[0], StorageOp::CreateDir { .. }));
    match &ops[1] {
        StorageOp::Write { document: Document::Snapshot(version), .. } => {
            assert_eq!(version.version, 1);
            assert_eq!(version.content, "first text");
            assert_eq!(version.word_count, 2);
            assert_eq!(version.summary, "rewrote it");
            assert_eq!(version.timestamp, at(4));
        }
        other => panic!("no snapshot: {:?}", other),
    }
    let chapter = project.chapters.get(&0).unwrap();
    assert_eq!(chapter.content, "second text is longer");
    assert_eq!(chapter.word_count, 4);
    assert_eq!(chapter.current_version, 2);
}

#[test]
fn a_snapshot_without_a_summary_is_an_automatic_save() {
    let mut project = project_with_chapter();
    project.update_chapter_content(ChapterId(0), "a".to_string(), None, at(3));
    let ops = project.update_chapter_content(ChapterId(0), "b".to_string(), None, at(4));
    match &ops[1] {
        StorageOp::Write { document: Document::Snapshot(version), .. } => {
            assert_eq!(version.summary, "自动保存");
        }
        other => panic!("no snapshot: {:?}", other),
    }
}

#[test]
fn the_same_text_counts_the_version_and_takes_no_snapshot() {
    let mut project = project_with_chapter();
    project.update_chapter_content(ChapterId(0), "same".to_string(), None, at(3));
    let ops = project.update_chapter_content(ChapterId(0), "same".to_string(), None, at(4));
    assert_eq!(ops.len(), 2);
    assert_eq!(project.chapters.get(&0).unwrap().current_version, 2);
    assert_eq!(project.chapters.get(&0).unwrap().modified_at, at(4));
}

#[test]
fn an_empty_text_is_snapshotted_never() {
    let mut project = project_with_chapter();
    project.update_chapter_content(ChapterId(0), "text".to_string(), None, at(3));
    let ops = project.update_chapter_content(ChapterId(0), String::new(), None, at(4));
    assert_eq!(ops.len(), 4);
    let ops = project.update_chapter_content(ChapterId(0), "again".to_string(), None, at(5));
    assert_eq!(ops.len(), 2);
    let chapter = project.chapters.get(&0).unwrap();
    assert_eq!(chapter.current_version, 3);
    assert_eq!(chapter.word_count, 1);
}

#[test]
fn updating_an_unknown_chapter_does_nothing() {
    let mut project = project_with_chapter();
    let ops = project.update_chapter_content(ChapterId(5), "text".to_string(), None, at(3));
    assert!(ops.is_empty());
    assert_eq!(project.modified_at, at(2));
    assert_eq!(project.chapters.get(&0).unwrap().current_version, 0);
}

#[test]
fn save_version_records_the_chapter_as_it_is() {
    let chapter = Chapter {
        id: ChapterId(4),
        title: "t".to_string(),
        order: 0,
        volume_id: VolumeId(1),
        dir_path: "/elsewhere".to_string(),
        content: "now".to_string(),
        word_count: 17,
        status: ChapterStatus::Draft,
        current_version: 6,
        created_at: at(1),
        modified_at: at(1),
    };
    let ops = NovelProject::save_version(&chapter, "then".to_string(), None, "/d", at(9));
    assert_eq!(paths(&ops), vec!["/d/history", "/d/history/v6.json"]);
    match &ops[1] {
        StorageOp::Write { document: Document::Snapshot(version), .. } => {
            assert_eq!(version.version, 6);
            assert_eq!(version.content, "then");
            assert_eq!(version.word_count, 17);
            assert_eq!(version.timestamp, at(9));
        }
        other => panic!("no snapshot: {:?}", other),
    }
}

#[test]
fn n_rewrites_give_version_n_and_a_history_of_n_minus_one() {
    let mut project = project_with_chapter();
    let mut all = Vec::new();
    for (step, text) in ["v1", "v2", "v3"].iter().enumerate() {
        all.extend(project.update_chapter_content(ChapterId(0), text.to_string(), None, at(3 + step as u64)));
    }
    let chapter = project.chapters.get(&0).unwrap();
    assert_eq!(chapter.current_version, 3);
    assert_eq!(chapter.content, "v3");
    let history = project.get_version_history(ChapterId(0), DirRead::Listed(written(&all))).unwrap();
    assert_eq!(history.len(), 2);
    assert_eq!(history[0].version, 2);
    assert_eq!(history[0].content, "v2");
    assert_eq!(history[1].version, 1);
    assert_eq!(history[1].content, "v1");
    assert!(history.iter().all(|snapshot| snapshot.version < chapter.current_version));

    let mut project = project_with_chapter();
    let mut all = Vec::new();
    for step in 0..50u64 {
        all.extend(project.update_chapter_content(ChapterId(0), format!("text {}", step), None, at(step)));
    }
    assert_eq!(project.chapters.get(&0).unwrap().current_version, 50);
    let history = project.get_version_history(ChapterId(0), DirRead::Listed(written(&all))).unwrap();
    assert_eq!(history.len(), 49);
    let versions: Vec<u32> = history.iter().map(|s| s.version).collect();
    let expected: Vec<u32> = (1..50).rev().collect();
    assert_eq!(versions, expected);
}

#[test]
fn history_comes_newest_first_and_keeps_equal_versions_in_order() {
    let files = vec![
        file("v2.json", FileRead::Loaded(snapshot(2, "two"))),
        file("v10.json", FileRead::Loaded(snapshot(10, "ten"))),
        file("copy.json", FileRead::Loaded(snapshot(2, "two again"))),
        file("v1.json", FileRead::Loaded(snapshot(1, "one"))),
        file("notes.txt", FileRead::Unreadable),
        file("v3.json", FileRead::Loaded(snapshot(3, "three"))),
    ];
    let history = read_history("/c", DirRead::Listed(files)).unwrap();
    let contents: Vec<&str> = history.iter().map(|s| s.content.as_str()).collect();
    assert_eq!(contents, vec!["ten", "three", "two", "two again", "one"]);
}

#[test]
fn history_orders_as_a_stable_sort_does() {
    let versions = [5u32, 1, 5, 3, 9, 1, 1, 0, 9, 4, 5];
    let files: Vec<HistoryFile> = versions
        .iter()
        .enumerate()
        .map(|(i, v)| file(&format!("f{}.json", i), FileRead::Loaded(snapshot(*v, &format!("#{}", i)))))
        .collect();
    let mut expected: Vec<(u32, String)> =
        versions.iter().enumerate().map(|(i, v)| (*v, format!("#{}", i))).collect();
    expected.sort_by_key(|(v, _)| std::cmp::Reverse(*v));
    let history = read_history("/c", DirRead::Listed(files)).unwrap();
    let got: Vec<(u32, String)> = history.iter().map(|s| (s.version, s.content.clone())).collect();
    assert_eq!(got, expected);
}

#[test]
fn history_is_empty_without_a_directory() {
    let project = project_with_chapter();
    assert!(project.get_version_history(ChapterId(0), DirRead::Absent).unwrap().is_empty());
    assert!(project.get_version_history(ChapterId(0), DirRead::Listed(Vec::new())).unwrap().is_empty());
}

#[test]
fn history_fails_for_an_unknown_chapter() {
    let project = project_with_chapter();
    let failed = project.get_version_history(ChapterId(3), DirRead::Absent);
    assert!(matches!(failed, Err(StoreError::NotFound(Missing::Chapter(ChapterId(3))))));
    assert!(matches!(
        project.history_path(ChapterId(3)),
        Err(StoreError::NotFound(Missing::Chapter(ChapterId(3))))
    ));
    assert_eq!(project.history_path(ChapterId(0)).unwrap(), "/n/chapters/chapter-0/history");
}

#[test]
fn history_fails_where_the_directory_cannot_be_listed() {
    let project = project_with_chapter();
    match project.get_version_history(ChapterId(0), DirRead::Unreadable) {
        Err(StoreError::Io { path, operation }) => {
            assert_eq!(path, "/n/chapters/chapter-0/history");
            assert_eq!(operation, IoOperation::ReadDir);
        }
        other => panic!("{:?}", other),
    }
}

#[test]
fn history_fails_at_the_first_snapshot_that_cannot_be_read() {
    let files = vec![
        file("v1.json", FileRead::Loaded(snapshot(1, "one"))),
        file("v2.json", FileRead::Malformed),
        file("v3.json", FileRead::Unreadable),
    ];
    match read_history("/c", DirRead::Listed(files)) {
        Err(StoreError::Parse { path }) => assert_eq!(path, "/c/history/v2.json"),
        other => panic!("{:?}", other),
    }
    let files = vec![
        file("v3.json", FileRead::Unreadable),
        file("v2.json", FileRead::Malformed),
    ];
    match read_history("/c", DirRead::Listed(files)) {
        Err(StoreError::Io { path, operation }) => {
            assert_eq!(path, "/c/history/v3.json");
            assert_eq!(operation, IoOperation::Read);
        }
        other => panic!("{:?}", other),
    }
    let files = vec![file("gone.json", FileRead::Absent)];
    assert!(matches!(
        read_history("/c", DirRead::Listed(files)),
        Err(StoreError::Io { operation: IoOperation::Read, .. })
    ));
    let files = vec![file("broken.txt", FileRead::Malformed)];
    assert!(read_history("/c", DirRead::Listed(files)).unwrap().is_empty());
}

#[test]
fn restore_brings_the_text_back_as_a_new_version() {
    let mut project = project_with_chapter();
    project.update_chapter_content(ChapterId(0), "v1".to_string(), None, at(3));
    project.update_chapter_content(ChapterId(0), "v2".to_string(), None, at(4));
    assert_eq!(
        project.snapshot_path(ChapterId(0), 1).unwrap(),
        "/n/chapters/chapter-0/history/v1.json"
    );
    let ops = project
        .restore_version(ChapterId(0), 1, FileRead::Loaded(snapshot(1, "v1")), at(5))
        .unwrap();
    assert_eq!(
        paths(&ops),
        vec![
            "/n/chapters/chapter-0/history",
            "/n/chapters/chapter-0/history/v2.json",
            "/n/chapters/chapter-0/content.md",
            "/n/chapters/chapter-0/metadata.json",
        ]
    );
    match &ops[1] {
        StorageOp::Write { document: Document::Snapshot(version), .. } => {
            assert_eq!(version.version, 2);
            assert_eq!(version.content, "v2");
            assert_eq!(version.summary, "restored to version 1");
        }
        other => panic!("no snapshot: {:?}", other),
    }
    let chapter = project.chapters.get(&0).unwrap();
    assert_eq!(chapter.content, "v1");
    assert_eq!(chapter.current_version, 3);
    assert_eq!(chapter.modified_at, at(5));
}

#[test]
fn restore_of_a_missing_version_changes_nothing() {
    let mut project = project_with_chapter();
    project.update_chapter_content(ChapterId(0), "v1".to_string(), None, at(3));
    let before = format!("{:?}", project);
    let failed = project.restore_version(ChapterId(0), 7, FileRead::Absent, at(9));
    assert!(matches!(failed, Err(StoreError::NotFound(Missing::Version(ChapterId(0), 7)))));
    assert_eq!(format!("{:?}", project), before);
    let chapter = project.chapters.get(&0).unwrap();
    assert_eq!(chapter.content, "v1");
    assert_eq!(chapter.current_version, 1);
}

#[test]
fn restore_fails_for_an_unknown_chapter() {
    let mut project = project_with_chapter();
    let failed = project.restore_version(ChapterId(4), 1, FileRead::Loaded(snapshot(1, "x")), at(9));
    assert!(matches!(failed, Err(StoreError::NotFound(Missing::Chapter(ChapterId(4))))));
    assert!(matches!(
        project.snapshot_path(ChapterId(4), 1),
        Err(StoreError::NotFound(Missing::Chapter(ChapterId(4))))
    ));
}

#[test]
fn restore_fails_where_the_snapshot_cannot_be_read() {
    let mut project = project_with_chapter();
    project.update_chapter_content(ChapterId(0), "v1".to_string(), None, at(3));
    match project.restore_version(ChapterId(0), 2, FileRead::Unreadable, at(9)) {
        Err(StoreError::Io { path, operation }) => {
            assert_eq!(path, "/n/chapters/chapter-0/history/v2.json");
            assert_eq!(operation, IoOperation::Read);
        }
        other => panic!("{:?}", other),
    }
    match project.restore_version(ChapterId(0), 2, FileRead::Malformed, at(9)) {
        Err(StoreError::Parse { path }) => assert_eq!(path, "/n/chapters/chapter-0/history/v2.json"),
        other => panic!("{:?}", other),
    }
    assert_eq!(project.chapters.get(&0).unwrap().current_version, 1);
}

#[test]
fn the_latest_version_is_one_more_than_the_newest_snapshot() {
    let names = |list: &[&str]| DirRead::Listed(list.iter().map(|n| n.to_string()).collect());
    assert_eq!(NovelProject::get_latest_version("/c", &DirRead::Absent).unwrap(), 0);
    assert_eq!(NovelProject::get_latest_version("/c", &names(&[])).unwrap(), 0);
    assert_eq!(NovelProject::get_latest_version("/c", &names(&["notes.txt", "v.json", "vx.json"])).unwrap(), 0);
    assert_eq!(NovelProject::get_latest_version("/c", &names(&["v0.json"])).unwrap(), 1);
    assert_eq!(NovelProject::get_latest_version("/c", &names(&["v1.json", "v2.json"])).unwrap(), 3);
    assert_eq!(NovelProject::get_latest_version("/c", &names(&["v12.json", "v3.json", "v007.json"])).unwrap(), 13);
    assert_eq!(NovelProject::get_latest_version("/c", &names(&["v4294967294.json"])).unwrap(), u32::MAX);
    assert_eq!(NovelProject::get_latest_version("/c", &names(&["v4294967296.json", "v5.json"])).unwrap(), 6);
}

#[test]
fn the_latest_version_fails_where_it_cannot_be_told() {
    match NovelProject::get_latest_version("/c", &DirRead::Unreadable) {
        Err(StoreError::Io { path, operation }) => {
            assert_eq!(path, "/c/history");
            assert_eq!(operation, IoOperation::ReadDir);
        }
        other => panic!("{:?}", other),
    }
    let names = DirRead::Listed(vec!["v1.json".to_string(), "v4294967295.json".to_string()]);
    match NovelProject::get_latest_version("/c", &names) {
        Err(StoreError::Parse { path }) => assert_eq!(path, "/c/history"),
        other => panic!("{:?}", other),
    }
}

#[test]
fn finds_the_newest_version_among_names() {
    let names: Vec<String> = ["a", "v3.json", "v11.json", "v2.json", "v11.json.bak"]
        .iter()
        .map(|n| n.to_string())
        .collect();
    assert_eq!(find_newest_version(&names), Some(11));
    assert_eq!(find_newest_version(&Vec::new()), None);
    assert_eq!(find_newest_version(&vec!["v0.json".to_string()]), Some(0));
}
