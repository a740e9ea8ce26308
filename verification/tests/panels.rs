use novel_chapter::text::trim;
use novel_chapter::{
    AiRequest, Chapter, ChapterId, ChapterStatus, CharacterProfile, Message,
    MessageRole, Missing, NovelAIPanel, NovelChaptersPanel, NovelContext, NovelProject,
    QuickAction, SelectedItem, StorageOp, StoreError, Timestamp, VolumeId, WorldSetting,
};
use std::collections::HashMap;

fn at(secs: u64) -> Timestamp {
    Timestamp { secs, nanos: 0 }
}

fn chapter(title: &str) -> Chapter {
    Chapter {
        id: ChapterId(3),
        title: title.to_string(),
        order: 0,
        volume_id: VolumeId(1),
        dir_path: "/n/chapters/chapter-3".to_string(),
        content: String::new(),
        word_count: 0,
        status: ChapterStatus::Draft,
        current_version: 0,
        created_at: at(1),
        modified_at: at(1),
    }
}

fn character(name: &str, personality: &str) -> CharacterProfile {
    CharacterProfile {
        name: name.to_string(),
        age: None,
        appearance: String::new(),
        personality: personality.to_string(),
        background: String::new(),
        goals: String::new(),
        relationships: HashMap::new(),
    }
}

fn setting(name: &str, description: &str) -> WorldSetting {
    WorldSetting { name: name.to_string(), description: description.to_string(), rules: Vec::new() }
}

fn project() -> NovelProject {
    let mut project =
        NovelProject::with_default_volume("/n".to_string(), "N".to_string(), VolumeId(1), at(1));
    project.create_volume_with_id(VolumeId(2), "Second".to_string(), at(1));
    project
}

fn tree() -> NovelChaptersPanel {
    let mut panel = NovelChaptersPanel::new();
    panel.load_project(Ok(project()));
    panel
}

#[test]
fn trims_white_space_as_str_does() {
    let samples = [
        "",
        " ",
        "a",
        "  a  ",
        "\t\n a b \r\n",
        "\u{3000}全角\u{3000}",
        "no space",
        "   ",
        "inner  space stays",
        "\u{a0}x\u{2003}",
        "\u{200b}zero width stays\u{200b}",
    ];
    for sample in samples {
        assert_eq!(trim(sample), sample.trim(), "{:?}", sample);
    }
}

#[test]
fn quick_actions_have_their_texts() {
    assert_eq!(QuickAction::GenerateChapter.label(), "生成章节");
    assert_eq!(QuickAction::ContinueWriting.label(), "续写");
    assert_eq!(QuickAction::RewriteSelection.label(), "重写");
    assert_eq!(QuickAction::CheckConsistency.label(), "逻辑自查");
    assert_eq!(QuickAction::GenerateCharacter.label(), "生成人物");
    assert_eq!(QuickAction::SuggestPlot.label(), "剧情建议");
    assert_eq!(QuickAction::ContinueWriting.description(), "基于当前内容继续创作");
    assert_eq!(QuickAction::SuggestPlot.description(), "提供剧情走向建议");
    assert_eq!(QuickAction::ContinueWriting.prompt(), "请继续上文的内容，保持风格和节奏一致。");
    assert!(QuickAction::GenerateChapter.prompt().ends_with("4. 篇幅约3000-5000字"));
    assert!(QuickAction::CheckConsistency.prompt().contains("\n3. 世界观设定是否被违反\n"));
}

#[test]
fn the_context_tells_of_chapter_characters_and_world() {
    let mut panel = NovelAIPanel::new();
    assert_eq!(panel.build_context_prompt(), "");
    panel.set_chapter_context(chapter("启程"));
    assert_eq!(panel.build_context_prompt(), "当前章节: 启程\n");
    panel.set_novel_context(NovelContext {
        characters: vec![character("林", "冷静"), character("苏", "热情")],
        world_settings: vec![setting("魔法", "需要代价")],
        recent_chapters: vec!["ignored".to_string()],
    });
    assert_eq!(
        panel.build_context_prompt(),
        "当前章节: 启程\n\n人物设定:\n- 林: 冷静\n- 苏: 热情\n\n世界观设定:\n- 魔法: 需要代价\n"
    );
    panel.set_novel_context(NovelContext {
        characters: Vec::new(),
        world_settings: vec![setting("a", "b")],
        recent_chapters: Vec::new(),
    });
    assert_eq!(panel.build_context_prompt(), "当前章节: 启程\n\n世界观设定:\n- a: b\n");
    panel.set_novel_context(NovelContext {
        characters: Vec::new(),
        world_settings: Vec::new(),
        recent_chapters: Vec::new(),
    });
    assert_eq!(panel.build_context_prompt(), "当前章节: 启程\n");
}

#[test]
fn sending_takes_the_typed_text_without_space_around_it() {
    let mut panel = NovelAIPanel::new();
    panel.set_chapter_context(chapter("one"));
    panel.input_text = "  what next?  \n".to_string();
    let request: AiRequest = panel.send_message(at(5)).unwrap();
    assert_eq!(request.prompt, "what next?");
    assert_eq!(
        request.system_prompt,
        "你是一位专业的小说创作助手。请根据以下上下文回答用户的问题。\n\n当前章节: one\n"
    );
    assert_eq!(panel.messages.len(), 1);
    assert_eq!(panel.messages[0].role, MessageRole::User);
    assert_eq!(panel.messages[0].content, "what next?");
    assert_eq!(panel.messages[0].timestamp, at(5));
    assert_eq!(panel.input_text, "");
    assert!(panel.is_generating);
}

#[test]
fn sending_needs_text_and_no_answer_awaited() {
    let mut panel = NovelAIPanel::new();
    panel.input_text = " \t ".to_string();
    assert!(panel.send_message(at(5)).is_none());
    assert!(panel.messages.is_empty());
    assert_eq!(panel.input_text, " \t ");
    assert!(!panel.is_generating);

    panel.input_text = "question".to_string();
    panel.is_generating = true;
    assert!(panel.send_message(at(6)).is_none());
    assert!(panel.messages.is_empty());
    assert_eq!(panel.input_text, "question");
}

#[test]
fn a_quick_action_asks_its_prompt() {
    let mut panel = NovelAIPanel::new();
    let request = panel.execute_quick_action(QuickAction::ContinueWriting, at(7)).unwrap();
    assert_eq!(request.prompt, "请继续上文的内容，保持风格和节奏一致。");
    assert_eq!(
        request.system_prompt,
        "你是一位专业的小说创作助手。请根据以下上下文回答用户的问题。\n\n"
    );
    assert_eq!(panel.messages.len(), 1);
    assert_eq!(panel.messages[0].role, MessageRole::User);
    assert_eq!(
        panel.messages[0].content,
        "[快捷指令: 续写]\n请继续上文的内容，保持风格和节奏一致。"
    );
    assert!(panel.is_generating);
    assert!(panel.execute_quick_action(QuickAction::SuggestPlot, at(8)).is_none());
    assert_eq!(panel.messages.len(), 1);
}

#[test]
fn an_answer_replaces_the_last_message_of_the_model() {
    let mut panel = NovelAIPanel::new();
    panel.receive_response("par".to_string(), at(1));
    assert_eq!(panel.messages.len(), 1);
    assert_eq!(panel.messages[0].role, MessageRole::Assistant);
    assert_eq!(panel.messages[0].content, "par");
    assert_eq!(panel.messages[0].timestamp, at(1));
    panel.receive_response("partial".to_string(), at(2));
    assert_eq!(panel.messages.len(), 1);
    assert_eq!(panel.messages[0].content, "partial");
    assert_eq!(panel.messages[0].timestamp, at(1));
    panel.is_generating = true;
    panel.complete_response("whole".to_string(), at(3));
    assert_eq!(panel.messages.len(), 1);
    assert_eq!(panel.messages[0].content, "whole");
    assert!(!panel.is_generating);
}

#[test]
fn an_answer_behind_a_message_of_the_user_is_not_kept() {
    let mut panel = NovelAIPanel::new();
    panel.messages.push(Message { role: MessageRole::User, content: "q".to_string(), timestamp: at(1) });
    panel.is_generating = true;
    panel.receive_response("a".to_string(), at(2));
    panel.complete_response("answer".to_string(), at(3));
    assert_eq!(panel.messages.len(), 1);
    assert_eq!(panel.messages[0].content, "q");
    assert!(!panel.is_generating);
}

#[test]
fn failures_have_their_texts() {
    assert_eq!(
        NovelAIPanel::call_failure("timeout"),
        "AI 调用失败: timeout\n\n请确保:\n1. 已配置 AI 提供商\n2. API 密钥正确\n3. 网络连接正常"
    );
    assert!(NovelAIPanel::missing_model().starts_with("未配置 AI 模型。"));
}

#[test]
fn loading_a_project_unfolds_its_volumes() {
    let panel = tree();
    assert_eq!(panel.expanded_volumes, vec![VolumeId(1), VolumeId(2)]);
    assert_eq!(panel.selected_item, None);
    assert!(panel.project.is_some());
    assert!(!panel.has_content());

    let mut with_chapters = project();
    with_chapters.create_chapter("a".to_string(), None, at(2)).unwrap();
    let mut panel = NovelChaptersPanel::new();
    panel.load_project(Ok(with_chapters));
    assert_eq!(panel.selected_item, Some(SelectedItem::Chapter(ChapterId(0))));
    assert!(panel.has_content());
}

#[test]
fn a_failed_load_changes_nothing() {
    let mut panel = tree();
    panel.load_project(Err(StoreError::NotFound(Missing::Chapter(ChapterId(1)))));
    assert_eq!(panel.expanded_volumes, vec![VolumeId(1), VolumeId(2)]);
    assert!(panel.project.is_some());
    let mut empty = NovelChaptersPanel::new();
    empty.load_project(Err(StoreError::Parse { path: "/x".to_string() }));
    assert!(empty.project.is_none());
    assert!(empty.get_chapters_for_volume(VolumeId(1)).is_empty());
    assert!(!empty.has_content());
}

#[test]
fn volumes_fold_and_unfold() {
    let mut panel = tree();
    assert!(panel.is_volume_expanded(VolumeId(1)));
    panel.toggle_volume_expanded(VolumeId(1));
    assert!(!panel.is_volume_expanded(VolumeId(1)));
    assert_eq!(panel.expanded_volumes, vec![VolumeId(2)]);
    panel.toggle_volume_expanded(VolumeId(1));
    assert_eq!(panel.expanded_volumes, vec![VolumeId(2), VolumeId(1)]);
    panel.expanded_volumes = vec![VolumeId(1), VolumeId(2), VolumeId(1)];
    panel.toggle_volume_expanded(VolumeId(1));
    assert_eq!(panel.expanded_volumes, vec![VolumeId(2)]);
    panel.collapse_all();
    assert!(panel.expanded_volumes.is_empty());
    panel.toggle_volume_expanded(VolumeId(2));
    panel.expand_all();
    assert_eq!(panel.expanded_volumes, vec![VolumeId(2), VolumeId(1)]);
    panel.expand_all();
    assert_eq!(panel.expanded_volumes, vec![VolumeId(2), VolumeId(1)]);
}

#[test]
fn a_created_chapter_is_selected_and_its_volume_unfolded() {
    let mut panel = tree();
    panel.collapse_all();
    let ops = panel.create_chapter(at(3));
    assert!(matches!(&ops[0], StorageOp::CreateDir { path } if path == "/n/chapters/chapter-0"));
    assert_eq!(panel.selected_item, Some(SelectedItem::Chapter(ChapterId(0))));
    assert_eq!(panel.expanded_volumes, vec![VolumeId(1)]);
    let project = panel.project.as_ref().unwrap();
    assert_eq!(project.chapters.get(&0).unwrap().title, "新章节");
    assert_eq!(project.chapters.get(&0).unwrap().volume_id, VolumeId(1));
    let titles: Vec<&str> =
        panel.get_chapters_for_volume(VolumeId(1)).iter().map(|c| c.title.as_str()).collect();
    assert_eq!(titles, vec!["新章节"]);
    panel.create_chapter(at(4));
    assert_eq!(panel.expanded_volumes, vec![VolumeId(1)]);
    assert_eq!(panel.selected_item, Some(SelectedItem::Chapter(ChapterId(1))));

    let mut none = NovelChaptersPanel::new();
    assert!(none.create_chapter(at(3)).is_empty());
    assert_eq!(none.selected_item, None);
}

#[test]
fn a_created_volume_is_selected_and_unfolded() {
    let mut panel = tree();
    let ops = panel.create_volume(at(3));
    assert_eq!(ops.len(), 4);
    let project = panel.project.as_ref().unwrap();
    assert_eq!(project.volumes.len(), 3);
    assert_eq!(project.volumes[2].title, "新卷");
    let id = project.volumes[2].id;
    assert_eq!(panel.selected_item, Some(SelectedItem::Volume(id)));
    assert_eq!(panel.expanded_volumes, vec![VolumeId(1), VolumeId(2), id]);
    assert!(NovelChaptersPanel::new().create_volume(at(3)).is_empty());
}

#[test]
fn deleting_the_selection_selects_nothing() {
    let mut panel = tree();
    panel.create_chapter(at(3));
    let ops = panel.delete_selected(at(4));
    assert!(matches!(&ops[0], StorageOp::RemoveDir { path } if path == "/n/chapters/chapter-0"));
    assert_eq!(panel.selected_item, None);
    assert!(panel.project.as_ref().unwrap().chapters.is_empty());
    assert!(panel.delete_selected(at(5)).is_empty());

    panel.selected_item = Some(SelectedItem::Volume(VolumeId(2)));
    panel.delete_selected(at(6));
    assert_eq!(panel.project.as_ref().unwrap().volumes.len(), 1);
    assert_eq!(panel.selected_item, None);
}

#[test]
fn renaming_a_chapter() {
    let mut panel = tree();
    panel.create_chapter(at(3));
    panel.start_rename();
    let editing = panel.editing_item.clone().unwrap();
    assert_eq!(editing.item_id, ChapterId(0));
    assert_eq!(editing.original_title, "新章节");
    assert!(!editing.is_volume);
    let ops = panel.complete_rename("Opening".to_string(), at(4));
    assert_eq!(ops.len(), 5);
    assert!(panel.editing_item.is_none());
    assert_eq!(panel.project.as_ref().unwrap().chapters.get(&0).unwrap().title, "Opening");
}

#[test]
fn renaming_needs_a_new_title() {
    let mut panel = tree();
    panel.create_chapter(at(3));
    for typed in ["", "   ", "新章节"] {
        panel.start_rename();
        assert!(panel.complete_rename(typed.to_string(), at(4)).is_empty());
        assert!(panel.editing_item.is_none());
        assert_eq!(panel.project.as_ref().unwrap().chapters.get(&0).unwrap().title, "新章节");
    }
    assert!(panel.complete_rename("late".to_string(), at(5)).is_empty());
}

#[test]
fn renaming_a_volume_goes_by_its_first_chapter() {
    let mut panel = tree();
    panel.create_chapter(at(3));
    panel.selected_item = Some(SelectedItem::Volume(VolumeId(1)));
    panel.start_rename();
    let editing = panel.editing_item.clone().unwrap();
    assert_eq!(editing.item_id, ChapterId(0));
    assert_eq!(editing.original_title, "Volume 1");
    assert!(editing.is_volume);
    let ops = panel.complete_rename("Part One".to_string(), at(4));
    assert_eq!(ops.len(), 4);
    assert_eq!(panel.project.as_ref().unwrap().volumes[0].title, "Part One");

    // A volume without chapters is told by the chapter 0, and so is the volume
    // that begins with this chapter: that one is renamed.
    panel.selected_item = Some(SelectedItem::Volume(VolumeId(2)));
    panel.start_rename();
    assert_eq!(panel.editing_item.clone().unwrap().item_id, ChapterId(0));
    panel.complete_rename("Part Two".to_string(), at(5));
    assert_eq!(panel.project.as_ref().unwrap().volumes[1].title, "Second");
    assert_eq!(panel.project.as_ref().unwrap().volumes[0].title, "Part Two");
}

#[test]
fn renaming_what_is_gone_does_not_start() {
    let mut panel = tree();
    panel.selected_item = Some(SelectedItem::Chapter(ChapterId(9)));
    panel.start_rename();
    assert!(panel.editing_item.is_none());
    panel.selected_item = Some(SelectedItem::Volume(VolumeId(9)));
    panel.start_rename();
    assert!(panel.editing_item.is_none());
    panel.selected_item = None;
    panel.start_rename();
    assert!(panel.editing_item.is_none());
}

#[test]
fn statuses_and_speakers_have_their_labels() {
    assert_eq!(NovelChaptersPanel::status_label(ChapterStatus::NotStarted), "未开始");
    assert_eq!(NovelChaptersPanel::status_label(ChapterStatus::InProgress), "进行中");
    assert_eq!(NovelChaptersPanel::status_label(ChapterStatus::Draft), "草稿");
    assert_eq!(NovelChaptersPanel::status_label(ChapterStatus::Review), "审核");
    assert_eq!(NovelChaptersPanel::status_label(ChapterStatus::Complete), "完成");
    assert_eq!(NovelAIPanel::speaker_label(MessageRole::User), "你");
    assert_eq!(NovelAIPanel::speaker_label(MessageRole::Assistant), "AI助手");
    assert_eq!(NovelAIPanel::speaker_label(MessageRole::System), "AI助手");
}

#[test]
fn the_tree_counts_the_chapters() {
    let mut panel = tree();
    assert_eq!(panel.chapter_count(), 0);
    panel.create_chapter(at(3));
    panel.create_chapter(at(4));
    assert_eq!(panel.chapter_count(), 2);
    assert_eq!(NovelChaptersPanel::new().chapter_count(), 0);
}

#[test]
fn the_selected_chapter_opens_its_content_file() {
    let mut panel = tree();
    assert_eq!(panel.open_selected_chapter(), None);
    panel.create_chapter(at(3));
    assert_eq!(
        panel.open_selected_chapter(),
        Some("/n/chapters/chapter-0/content.md".to_string())
    );
    panel.selected_item = Some(SelectedItem::Volume(VolumeId(1)));
    assert_eq!(panel.open_selected_chapter(), None);
    panel.selected_item = Some(SelectedItem::Chapter(ChapterId(5)));
    assert_eq!(panel.open_selected_chapter(), None);
}
