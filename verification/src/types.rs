//! Entities of a writing project and their mathematical views.
//!
//! Every entity that owns text or a list has a view in which strings are
//! `Seq<char>`, lists are `Seq`, and counters are `nat`.  Contracts throughout
//! the crate are stated over these views.

use std::collections::HashMap;
use vstd::prelude::*;

verus! {

/// Identifier of a chapter, unique within a project.
#[derive(Clone, Copy, Debug, PartialEq, Eq, Hash, Structural)]
pub struct ChapterId(pub u64);

/// Identifier of a volume: the 128 bits of a UUID.
#[derive(Clone, Copy, Debug, PartialEq, Eq, Hash, Structural)]
pub struct VolumeId(pub u128);

/// A point in time, as seconds and nanoseconds since the Unix epoch.
#[derive(Clone, Copy, Debug, PartialEq, Eq, Structural)]
pub struct Timestamp {
    pub secs: u64,
    pub nanos: u32,
}

/// Progress of a chapter.
#[derive(Clone, Copy, Debug, PartialEq, Eq, Structural)]
pub enum ChapterStatus {
    /// Not started.
    NotStarted,
    /// Currently being written.
    InProgress,
    /// First draft complete.
    Draft,
    /// Under review.
    Review,
    /// Finalized.
    Complete,
}

/// A named, ordered group of chapters.
#[derive(Clone, Debug)]
pub struct Volume {
    /// Unique volume identifier.
    pub id: VolumeId,
    /// Volume title.
    pub title: String,
    /// Zero-based position among the project's volumes.
    pub order: usize,
    /// The chapters of this volume, in reading order.
    pub chapter_ids: Vec<ChapterId>,
    /// Volume description.
    pub description: String,
    /// Creation time.
    pub created_at: Timestamp,
    /// Last modification time.
    pub modified_at: Timestamp,
}

/// The view of a [`Volume`].
#[verifier::ext_equal]
pub struct VolumeView {
    pub id: VolumeId,
    pub title: Seq<char>,
    pub order: nat,
    pub chapter_ids: Seq<ChapterId>,
    pub description: Seq<char>,
    pub created_at: Timestamp,
    pub modified_at: Timestamp,
}

impl View for Volume {
    type V = VolumeView;

    open spec fn view(&self) -> VolumeView {
        VolumeView {
            id: self.id,
            title: self.title@,
            order: self.order as nat,
            chapter_ids: self.chapter_ids@,
            description: self.description@,
            created_at: self.created_at,
            modified_at: self.modified_at,
        }
    }
}

/// A unit of content.
#[derive(Clone, Debug)]
pub struct Chapter {
    /// Unique identifier.
    pub id: ChapterId,
    /// Chapter title.
    pub title: String,
    /// Cached position within the owning volume's chapter list.
    pub order: usize,
    /// The volume this chapter belongs to.
    pub volume_id: VolumeId,
    /// Storage directory of this chapter.
    pub dir_path: String,
    /// Current text.
    pub content: String,
    /// Cached number of words in `content`.
    pub word_count: usize,
    /// Progress status.
    pub status: ChapterStatus,
    /// Number of content changes so far.
    pub current_version: u32,
    /// Creation time.
    pub created_at: Timestamp,
    /// Last modification time.
    pub modified_at: Timestamp,
}

/// The view of a [`Chapter`].
#[verifier::ext_equal]
pub struct ChapterView {
    pub id: ChapterId,
    pub title: Seq<char>,
    pub order: nat,
    pub volume_id: VolumeId,
    pub dir_path: Seq<char>,
    pub content: Seq<char>,
    pub word_count: nat,
    pub status: ChapterStatus,
    pub current_version: nat,
    pub created_at: Timestamp,
    pub modified_at: Timestamp,
}

impl View for Chapter {
    type V = ChapterView;

    open spec fn view(&self) -> ChapterView {
        ChapterView {
            id: self.id,
            title: self.title@,
            order: self.order as nat,
            volume_id: self.volume_id,
            dir_path: self.dir_path@,
            content: self.content@,
            word_count: self.word_count as nat,
            status: self.status,
            current_version: self.current_version as nat,
            created_at: self.created_at,
            modified_at: self.modified_at,
        }
    }
}

/// An immutable snapshot of a chapter's text.
#[derive(Clone, Debug)]
pub struct ChapterVersion {
    /// Version number of the snapshot.
    pub version: u32,
    /// Text at this version.
    pub content: String,
    /// Cached word count at this version.
    pub word_count: usize,
    /// Summary of the change that replaced this text.
    pub summary: String,
    /// Time at which the snapshot was taken.
    pub timestamp: Timestamp,
}

/// The view of a [`ChapterVersion`].
#[verifier::ext_equal]
pub struct VersionView {
    pub version: nat,
    pub content: Seq<char>,
    pub word_count: nat,
    pub summary: Seq<char>,
    pub timestamp: Timestamp,
}

impl View for ChapterVersion {
    type V = VersionView;

    open spec fn view(&self) -> VersionView {
        VersionView {
            version: self.version as nat,
            content: self.content@,
            word_count: self.word_count as nat,
            summary: self.summary@,
            timestamp: self.timestamp,
        }
    }
}

/// Character profile.
#[derive(Clone, Debug)]
pub struct CharacterProfile {
    /// Character name.
    pub name: String,
    /// Age.
    pub age: Option<u32>,
    /// Physical description.
    pub appearance: String,
    /// Personality traits.
    pub personality: String,
    /// Background story.
    pub background: String,
    /// Character goals.
    pub goals: String,
    /// Relationships with other characters, by their names.
    pub relationships: HashMap<String, String>,
}

/// The view of a [`CharacterProfile`].
#[verifier::ext_equal]
pub struct CharacterView {
    pub name: Seq<char>,
    pub age: Option<u32>,
    pub appearance: Seq<char>,
    pub personality: Seq<char>,
    pub background: Seq<char>,
    pub goals: Seq<char>,
    pub relationships: Map<Seq<char>, Seq<char>>,
}

impl View for CharacterProfile {
    type V = CharacterView;

    open spec fn view(&self) -> CharacterView {
        CharacterView {
            name: self.name@,
            age: self.age,
            appearance: self.appearance@,
            personality: self.personality@,
            background: self.background@,
            goals: self.goals@,
            relationships: self.relationships.deep_view(),
        }
    }
}

/// World setting entry.
#[derive(Clone, Debug)]
pub struct WorldSetting {
    /// Setting name.
    pub name: String,
    /// Detailed description.
    pub description: String,
    /// Rules and constraints.
    pub rules: Vec<String>,
}

/// The view of a [`WorldSetting`].
#[verifier::ext_equal]
pub struct WorldSettingView {
    pub name: Seq<char>,
    pub description: Seq<char>,
    pub rules: Seq<Seq<char>>,
}

impl View for WorldSetting {
    type V = WorldSettingView;

    open spec fn view(&self) -> WorldSettingView {
        WorldSettingView {
            name: self.name@,
            description: self.description@,
            rules: self.rules.deep_view(),
        }
    }
}

/// Plot point of the story structure.
#[derive(Clone, Debug)]
pub struct PlotPoint {
    /// Plot point title.
    pub title: String,
    /// Detailed description.
    pub description: String,
    /// Associated chapters.
    pub chapter_ids: Vec<ChapterId>,
    /// Order in the overall plot.
    pub order: usize,
}

/// The view of a [`PlotPoint`].
#[verifier::ext_equal]
pub struct PlotPointView {
    pub title: Seq<char>,
    pub description: Seq<char>,
    pub chapter_ids: Seq<ChapterId>,
    pub order: nat,
}

impl View for PlotPoint {
    type V = PlotPointView;

    open spec fn view(&self) -> PlotPointView {
        PlotPointView {
            title: self.title@,
            description: self.description@,
            chapter_ids: self.chapter_ids@,
            order: self.order as nat,
        }
    }
}

/// Characters, world and plot of a project.  The store carries these along
/// unchanged.
#[derive(Clone, Debug)]
pub struct NovelSettings {
    /// Character profiles.
    pub characters: Vec<CharacterProfile>,
    /// World building settings.
    pub world: Vec<WorldSetting>,
    /// Plot points and story structure.
    pub plot_points: Vec<PlotPoint>,
}

/// The view of [`NovelSettings`].
#[verifier::ext_equal]
pub struct SettingsView {
    pub characters: Seq<CharacterView>,
    pub world: Seq<WorldSettingView>,
    pub plot_points: Seq<PlotPointView>,
}

impl SettingsView {
    /// Settings without characters, world or plot.
    pub open spec fn empty() -> SettingsView {
        SettingsView { characters: Seq::empty(), world: Seq::empty(), plot_points: Seq::empty() }
    }
}

impl View for NovelSettings {
    type V = SettingsView;

    open spec fn view(&self) -> SettingsView {
        SettingsView {
            characters: self.characters@.map_values(|profile: CharacterProfile| profile@),
            world: self.world@.map_values(|setting: WorldSetting| setting@),
            plot_points: self.plot_points@.map_values(|point: PlotPoint| point@),
        }
    }
}

impl Default for NovelSettings {
    /// Settings without characters, world or plot.
    fn default() -> (settings: NovelSettings)
        ensures
            settings@ == SettingsView::empty(),
    {
        let settings = NovelSettings {
            characters: Vec::new(),
            world: Vec::new(),
            plot_points: Vec::new(),
        };
        assert(settings@ =~~= SettingsView::empty());
        settings
    }
}

} // verus!
