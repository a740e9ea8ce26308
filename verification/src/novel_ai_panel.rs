//! The state of the writing assistant: the conversation with the language
//! model, what the model is told of the novel, and the quick actions.
//!
//! The assistant neither draws anything nor talks to a model.  It keeps the
//! conversation, says what is to be asked of the model, and takes in what the
//! model answers.

use crate::storage::views;
use crate::text::{trim, trimmed};
use crate::types::{
    Chapter, ChapterView, CharacterProfile, CharacterView, Timestamp, WorldSetting,
    WorldSettingView,
};
use vstd::prelude::*;

verus! {

/// Who said a message.
#[derive(Clone, Copy, Debug, PartialEq, Eq, Structural)]
pub enum MessageRole {
    User,
    Assistant,
    System,
}

/// A message of the conversation.
#[derive(Clone, Debug)]
pub struct Message {
    pub role: MessageRole,
    pub content: String,
    pub timestamp: Timestamp,
}

/// The view of a [`Message`].
#[verifier::ext_equal]
pub struct MessageView {
    pub role: MessageRole,
    pub content: Seq<char>,
    pub timestamp: Timestamp,
}

impl View for Message {
    type V = MessageView;

    open spec fn view(&self) -> MessageView {
        MessageView { role: self.role, content: self.content@, timestamp: self.timestamp }
    }
}

/// What the model is told of the novel.
#[derive(Clone, Debug)]
pub struct NovelContext {
    pub characters: Vec<CharacterProfile>,
    pub world_settings: Vec<WorldSetting>,
    pub recent_chapters: Vec<String>,
}

/// The view of a [`NovelContext`].
#[verifier::ext_equal]
pub struct NovelContextView {
    pub characters: Seq<CharacterView>,
    pub world_settings: Seq<WorldSettingView>,
    pub recent_chapters: Seq<Seq<char>>,
}

impl View for NovelContext {
    type V = NovelContextView;

    open spec fn view(&self) -> NovelContextView {
        NovelContextView {
            characters: views(self.characters@),
            world_settings: views(self.world_settings@),
            recent_chapters: self.recent_chapters.deep_view(),
        }
    }
}

/// A request that is made of the model with one click.
#[derive(Clone, Copy, Debug, PartialEq, Eq, Structural)]
pub enum QuickAction {
    GenerateChapter,
    ContinueWriting,
    RewriteSelection,
    CheckConsistency,
    GenerateCharacter,
    SuggestPlot,
}

impl QuickAction {
    /// The label of the action.
    pub open spec fn label_text(self) -> Seq<char> {
        match self {
            QuickAction::GenerateChapter => "生成章节"@,
            QuickAction::ContinueWriting => "续写"@,
            QuickAction::RewriteSelection => "重写"@,
            QuickAction::CheckConsistency => "逻辑自查"@,
            QuickAction::GenerateCharacter => "生成人物"@,
            QuickAction::SuggestPlot => "剧情建议"@,
        }
    }

    /// What the action does, in a sentence.
    pub open spec fn description_text(self) -> Seq<char> {
        match self {
            QuickAction::GenerateChapter => "根据设定和剧情节点生成完整章节"@,
            QuickAction::ContinueWriting => "基于当前内容继续创作"@,
            QuickAction::RewriteSelection => "重写选中的段落"@,
            QuickAction::CheckConsistency => "检查人设、剧情和世界观一致性"@,
            QuickAction::GenerateCharacter => "生成角色背景和性格设定"@,
            QuickAction::SuggestPlot => "提供剧情走向建议"@,
        }
    }

    /// What the action asks of the model.
    pub open spec fn prompt_text(self) -> Seq<char> {
        match self {
            QuickAction::GenerateChapter => "请根据当前的人物设定和世界观，生成下一章节的内容。要求：\n1. 保持人物性格一致\n2. 遵循世界观设定\n3. 推进主线剧情\n4. 篇幅约3000-5000字"@,
            QuickAction::ContinueWriting => "请继续上文的内容，保持风格和节奏一致。"@,
            QuickAction::RewriteSelection => "请重写当前选中的段落，使其更加生动有趣。"@,
            QuickAction::CheckConsistency => "请检查当前章节的逻辑一致性，包括：\n1. 人物性格和行为是否一致\n2. 剧情前后是否有矛盾\n3. 世界观设定是否被违反\n4. 时间线是否合理"@,
            QuickAction::GenerateCharacter => "请生成一个新角色的详细设定，包括外貌、性格、背景故事、目标和与其他角色的关系。"@,
            QuickAction::SuggestPlot => "基于当前剧情，请提供3-5个可能的剧情走向建议，说明每个走向的优缺点。"@,
        }
    }

    /// The message that stands in the conversation for the action.
    pub open spec fn message_text(self) -> Seq<char> {
        "[快捷指令: "@ + self.label_text() + "]\n"@ + self.prompt_text()
    }

    /// Gives the label of the action.
    pub fn label(&self) -> (text: &'static str)
        ensures
            text@ == self.label_text(),
    {
        match self {
            QuickAction::GenerateChapter => "生成章节",
            QuickAction::ContinueWriting => "续写",
            QuickAction::RewriteSelection => "重写",
            QuickAction::CheckConsistency => "逻辑自查",
            QuickAction::GenerateCharacter => "生成人物",
            QuickAction::SuggestPlot => "剧情建议",
        }
    }

    /// Says what the action does.
    pub fn description(&self) -> (text: &'static str)
        ensures
            text@ == self.description_text(),
    {
        match self {
            QuickAction::GenerateChapter => "根据设定和剧情节点生成完整章节",
            QuickAction::ContinueWriting => "基于当前内容继续创作",
            QuickAction::RewriteSelection => "重写选中的段落",
            QuickAction::CheckConsistency => "检查人设、剧情和世界观一致性",
            QuickAction::GenerateCharacter => "生成角色背景和性格设定",
            QuickAction::SuggestPlot => "提供剧情走向建议",
        }
    }

    /// Gives what the action asks of the model.
    pub fn prompt(&self) -> (text: &'static str)
        ensures
            text@ == self.prompt_text(),
    {
        match self {
            QuickAction::GenerateChapter => "请根据当前的人物设定和世界观，生成下一章节的内容。要求：\n1. 保持人物性格一致\n2. 遵循世界观设定\n3. 推进主线剧情\n4. 篇幅约3000-5000字",
            QuickAction::ContinueWriting => "请继续上文的内容，保持风格和节奏一致。",
            QuickAction::RewriteSelection => "请重写当前选中的段落，使其更加生动有趣。",
            QuickAction::CheckConsistency => "请检查当前章节的逻辑一致性，包括：\n1. 人物性格和行为是否一致\n2. 剧情前后是否有矛盾\n3. 世界观设定是否被违反\n4. 时间线是否合理",
            QuickAction::GenerateCharacter => "请生成一个新角色的详细设定，包括外貌、性格、背景故事、目标和与其他角色的关系。",
            QuickAction::SuggestPlot => "基于当前剧情，请提供3-5个可能的剧情走向建议，说明每个走向的优缺点。",
        }
    }
}

/// What is asked of the model: what it is told beforehand, and the
/// question.
#[derive(Clone, Debug)]
pub struct AiRequest {
    pub system_prompt: String,
    pub prompt: String,
}

/// The lines that tell the model of the characters, one for each.
pub open spec fn character_lines(characters: Seq<CharacterView>) -> Seq<char>
    decreases characters.len(),
{
    if characters.len() == 0 {
        Seq::empty()
    } else {
        character_lines(characters.drop_last()) + "- "@ + characters.last().name + ": "@
            + characters.last().personality + "\n"@
    }
}

/// The lines that tell the model of the world, one for each setting.
pub open spec fn setting_lines(settings: Seq<WorldSettingView>) -> Seq<char>
    decreases settings.len(),
{
    if settings.len() == 0 {
        Seq::empty()
    } else {
        setting_lines(settings.drop_last()) + "- "@ + settings.last().name + ": "@
            + settings.last().description + "\n"@
    }
}

/// What the model is told of the chapter at hand.
pub open spec fn chapter_part(chapter: Option<ChapterView>) -> Seq<char> {
    match chapter {
        Some(chapter) => "当前章节: "@ + chapter.title + "\n"@,
        None => Seq::empty(),
    }
}

/// What the model is told of the characters.
pub open spec fn characters_part(context: Option<NovelContextView>) -> Seq<char> {
    match context {
        Some(context) if context.characters.len() > 0 => "\n人物设定:\n"@ + character_lines(
            context.characters,
        ),
        _ => Seq::empty(),
    }
}

/// What the model is told of the world.
pub open spec fn world_part(context: Option<NovelContextView>) -> Seq<char> {
    match context {
        Some(context) if context.world_settings.len() > 0 => "\n世界观设定:\n"@ + setting_lines(
            context.world_settings,
        ),
        _ => Seq::empty(),
    }
}

/// What the model is told of the novel: the chapter at hand, the
/// characters, the world.
pub open spec fn context_prompt(chapter: Option<ChapterView>, context: Option<NovelContextView>)
    -> Seq<char> {
    chapter_part(chapter) + characters_part(context) + world_part(context)
}

/// What the model is told beforehand.
pub open spec fn system_prompt(context: Seq<char>) -> Seq<char> {
    "你是一位专业的小说创作助手。请根据以下上下文回答用户的问题。\n\n"@ + context
}

/// What stands for the answer where the model could not be called.
pub open spec fn failure_text(error: Seq<char>) -> Seq<char> {
    "AI 调用失败: "@ + error + "\n\n请确保:\n1. 已配置 AI 提供商\n2. API 密钥正确\n3. 网络连接正常"@
}

/// The assistant: the conversation and what it is about.
#[derive(Clone, Debug)]
pub struct NovelAIPanel {
    /// The messages so far.
    pub messages: Vec<Message>,
    /// What the user has typed.
    pub input_text: String,
    /// The chapter at hand.
    pub current_chapter: Option<Chapter>,
    /// The characters and the world of the novel.
    pub novel_context: Option<NovelContext>,
    /// Whether an answer of the model is awaited.
    pub is_generating: bool,
}

/// The view of a [`NovelAIPanel`].
#[verifier::ext_equal]
pub struct AiPanelView {
    pub messages: Seq<MessageView>,
    pub input_text: Seq<char>,
    pub current_chapter: Option<ChapterView>,
    pub novel_context: Option<NovelContextView>,
    pub is_generating: bool,
}

impl View for NovelAIPanel {
    type V = AiPanelView;

    open spec fn view(&self) -> AiPanelView {
        AiPanelView {
            messages: views(self.messages@),
            input_text: self.input_text@,
            current_chapter: match self.current_chapter {
                Some(chapter) => Some(chapter@),
                None => None,
            },
            novel_context: match self.novel_context {
                Some(context) => Some(context@),
                None => None,
            },
            is_generating: self.is_generating,
        }
    }
}

impl AiPanelView {
    /// What the model is told of the novel.
    pub open spec fn context(self) -> Seq<char> {
        context_prompt(self.current_chapter, self.novel_context)
    }

    /// Whether a message can be sent: something is typed, and no answer is
    /// awaited.
    pub open spec fn can_send(self) -> bool {
        trimmed(self.input_text).len() > 0 && !self.is_generating
    }

    /// The assistant after the typed message was sent.
    pub open spec fn send_message(self, now: Timestamp) -> AiPanelView {
        if self.can_send() {
            AiPanelView {
                messages: self.messages.push(
                    MessageView {
                        role: MessageRole::User,
                        content: trimmed(self.input_text),
                        timestamp: now,
                    },
                ),
                input_text: Seq::empty(),
                is_generating: true,
                ..self
            }
        } else {
            self
        }
    }

    /// The assistant after a quick action was started.
    pub open spec fn execute_quick_action(self, action: QuickAction, now: Timestamp)
        -> AiPanelView {
        if self.is_generating {
            self
        } else {
            AiPanelView {
                messages: self.messages.push(
                    MessageView {
                        role: MessageRole::User,
                        content: action.message_text(),
                        timestamp: now,
                    },
                ),
                is_generating: true,
                ..self
            }
        }
    }

    /// The conversation after `response` came in: it replaces the last
    /// message where that is one of the model, and is the first message of a
    /// conversation without messages.
    pub open spec fn with_response(self, response: Seq<char>, now: Timestamp) -> Seq<
        MessageView,
    > {
        if self.messages.len() == 0 {
            seq![MessageView { role: MessageRole::Assistant, content: response, timestamp: now }]
        } else if self.messages.last().role == MessageRole::Assistant {
            self.messages.update(
                self.messages.len() - 1,
                MessageView { content: response, ..self.messages.last() },
            )
        } else {
            self.messages
        }
    }
}

impl NovelAIPanel {
    /// An assistant without a conversation.
    pub fn new() -> (panel: NovelAIPanel)
        ensures
            panel@ == (AiPanelView {
                messages: Seq::empty(),
                input_text: Seq::empty(),
                current_chapter: None,
                novel_context: None,
                is_generating: false,
            }),
    {
        let panel = NovelAIPanel {
            messages: Vec::new(),
            input_text: String::new(),
            current_chapter: None,
            novel_context: None,
            is_generating: false,
        };
        panel
    }

    /// Sets the chapter at hand.
    pub fn set_chapter_context(&mut self, chapter: Chapter)
        ensures
            final(self)@ == (AiPanelView { current_chapter: Some(chapter@), ..old(self)@ }),
    {
        self.current_chapter = Some(chapter);
    }

    /// Sets what the model is told of the novel.
    pub fn set_novel_context(&mut self, context: NovelContext)
        ensures
            final(self)@ == (AiPanelView { novel_context: Some(context@), ..old(self)@ }),
    {
        self.novel_context = Some(context);
    }

    /// Builds what the model is told of the novel.
    pub fn build_context_prompt(&self) -> (context: String)
        ensures
            context@ == self@.context(),
    {
        let mut context = String::new();
        match &self.current_chapter {
            Some(chapter) => {
                context.append("当前章节: ");
                context.append(chapter.title.as_str());
                context.append("\n");
            },
            None => {},
        }
        match &self.novel_context {
            Some(novel) => {
                if novel.characters.len() > 0 {
                    let ghost before = context@;
                    context.append("\n人物设定:\n");
                    let ghost characters = views(novel.characters@);
                    let mut i: usize = 0;
                    while i < novel.characters.len()
                        invariant
                            i <= novel.characters@.len(),
                            characters == views(novel.characters@),
                            context@ =~= before + "\n人物设定:\n"@ + character_lines(
                                characters.take(i as int),
                            ),
                        decreases novel.characters.len() - i,
                    {
                        context.append("- ");
                        context.append(novel.characters[i].name.as_str());
                        context.append(": ");
                        context.append(novel.characters[i].personality.as_str());
                        context.append("\n");
                        proof {
                            let next = characters.take(i + 1);
                            assert(next.drop_last() =~= characters.take(i as int));
                        }
                        i = i + 1;
                    }
                    assert(characters.take(i as int) =~= characters);
                }
                if novel.world_settings.len() > 0 {
                    let ghost before = context@;
                    context.append("\n世界观设定:\n");
                    let ghost settings = views(novel.world_settings@);
                    let mut i: usize = 0;
                    while i < novel.world_settings.len()
                        invariant
                            i <= novel.world_settings@.len(),
                            settings == views(novel.world_settings@),
                            context@ =~= before + "\n世界观设定:\n"@ + setting_lines(
                                settings.take(i as int),
                            ),
                        decreases novel.world_settings.len() - i,
                    {
                        context.append("- ");
                        context.append(novel.world_settings[i].name.as_str());
                        context.append(": ");
                        context.append(novel.world_settings[i].description.as_str());
                        context.append("\n");
                        proof {
                            let next = settings.take(i + 1);
                            assert(next.drop_last() =~= settings.take(i as int));
                        }
                        i = i + 1;
                    }
                    assert(settings.take(i as int) =~= settings);
                }
            },
            None => {},
        }
        context
    }

    /// Says what is to be asked of the model for the question `prompt`.
    pub fn generate_ai_response(&self, prompt: String) -> (request: AiRequest)
        ensures
            request.system_prompt@ == system_prompt(self@.context()),
            request.prompt@ == prompt@,
    {
        let context = self.build_context_prompt();
        let mut system = String::from_str(
            "你是一位专业的小说创作助手。请根据以下上下文回答用户的问题。\n\n",
        );
        system.append(context.as_str());
        AiRequest { system_prompt: system, prompt }
    }

    /// Sends what the user has typed, without white space around it.
    /// Returns what is to be asked of the model; does nothing where nothing
    /// is typed or an answer is awaited.
    pub fn send_message(&mut self, now: Timestamp) -> (request: Option<AiRequest>)
        ensures
            final(self)@ == old(self)@.send_message(now),
            match request {
                Some(request) => {
                    &&& old(self)@.can_send()
                    &&& request.system_prompt@ == system_prompt(old(self)@.context())
                    &&& request.prompt@ == trimmed(old(self)@.input_text)
                },
                None => !old(self)@.can_send(),
            },
    {
        let text = trim(self.input_text.as_str());
        if text.as_str().is_empty() || self.is_generating {
            return None;
        }
        self.messages.push(
            Message { role: MessageRole::User, content: text.clone(), timestamp: now },
        );
        self.input_text = String::new();
        self.is_generating = true;
        Some(self.generate_ai_response(text))
    }

    /// Starts a quick action.  Returns what is to be asked of the model;
    /// does nothing where an answer is awaited.
    pub fn execute_quick_action(&mut self, action: QuickAction, now: Timestamp) -> (request:
        Option<AiRequest>)
        ensures
            final(self)@ == old(self)@.execute_quick_action(action, now),
            match request {
                Some(request) => {
                    &&& !old(self)@.is_generating
                    &&& request.system_prompt@ == system_prompt(old(self)@.context())
                    &&& request.prompt@ == action.prompt_text()
                },
                None => old(self)@.is_generating,
            },
    {
        if self.is_generating {
            return None;
        }
        let mut content = String::from_str("[快捷指令: ");
        content.append(action.label());
        content.append("]\n");
        content.append(action.prompt());
        self.messages.push(Message { role: MessageRole::User, content, timestamp: now });
        self.is_generating = true;
        Some(self.generate_ai_response(String::from_str(action.prompt())))
    }

    /// Takes in what the model has answered so far.
    pub fn receive_response(&mut self, response: String, now: Timestamp)
        ensures
            final(self)@ == (AiPanelView {
                messages: old(self)@.with_response(response@, now),
                ..old(self)@
            }),
    {
        let count = self.messages.len();
        if count == 0 {
            self.messages.push(
                Message { role: MessageRole::Assistant, content: response, timestamp: now },
            );
        } else if self.messages[count - 1].role == MessageRole::Assistant {
            self.messages[count - 1].content = response;
        }
    }

    /// Takes in the answer of the model, or what stands for it, and ends
    /// the wait for it.
    pub fn complete_response(&mut self, response: String, now: Timestamp)
        ensures
            final(self)@ == (AiPanelView {
                messages: old(self)@.with_response(response@, now),
                is_generating: false,
                ..old(self)@
            }),
    {
        self.receive_response(response, now);
        self.is_generating = false;
    }

    /// What stands for the answer where calling the model failed with
    /// `error`.
    pub fn call_failure(error: &str) -> (text: String)
        ensures
            text@ == failure_text(error@),
    {
        let mut text = String::from_str("AI 调用失败: ");
        text.append(error);
        text.append("\n\n请确保:\n1. 已配置 AI 提供商\n2. API 密钥正确\n3. 网络连接正常");
        text
    }

    /// The name under which the messages of a role are shown.
    pub fn speaker_label(role: MessageRole) -> (label: &'static str)
        ensures
            label@ == if role == MessageRole::User {
                "你"@
            } else {
                "AI助手"@
            },
    {
        match role {
            MessageRole::User => "你",
            _ => "AI助手",
        }
    }

    /// What stands for the answer where no model is configured.
    pub fn missing_model() -> (text: &'static str)
        ensures
            text@ == "未配置 AI 模型。请先在设置中配置 AI 提供商（如 OpenAI、Anthropic 等）。"@,
    {
        "未配置 AI 模型。请先在设置中配置 AI 提供商（如 OpenAI、Anthropic 等）。"
    }
}

} // verus!
