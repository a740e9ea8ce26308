//! The layout of a project on disk.
//!
//! ```text
//! <root>/
//!   .novel/
//!     project.json        root metadata
//!     characters.json
//!     world.json
//!     plot.json
//!   chapters/
//!     chapter-<id>/
//!       metadata.json     the chapter without its text
//!       content.md        the chapter's text
//!       history/
//!         v<version>.json one snapshot
//!   drafts/               reserved
//! ```
//!
//! Paths are strings whose components are separated by `/`.

use crate::text::{
    chars_of, decimal, lemma_parse_decimal_roundtrip, parse_decimal, parse_decimal_range,
    push_decimal,
};
use crate::types::ChapterId;
use vstd::prelude::*;

verus! {

/// The path of `name` below the directory `base`.
pub open spec fn join(base: Seq<char>, name: Seq<char>) -> Seq<char> {
    if base.len() == 0 || base.last() == '/' {
        base + name
    } else {
        base + seq!['/'] + name
    }
}

/// The directory of the project's metadata.
pub open spec fn metadata_dir(root: Seq<char>) -> Seq<char> {
    join(root, ".novel"@)
}

/// The file of the project's root metadata.
pub open spec fn project_file(root: Seq<char>) -> Seq<char> {
    join(root, ".novel/project.json"@)
}

/// The file of the character profiles.
pub open spec fn characters_file(root: Seq<char>) -> Seq<char> {
    join(root, ".novel/characters.json"@)
}

/// The file of the world settings.
pub open spec fn world_file(root: Seq<char>) -> Seq<char> {
    join(root, ".novel/world.json"@)
}

/// The file of the plot points.
pub open spec fn plot_file(root: Seq<char>) -> Seq<char> {
    join(root, ".novel/plot.json"@)
}

/// The chapter storage area.
pub open spec fn chapters_dir(root: Seq<char>) -> Seq<char> {
    join(root, "chapters"@)
}

/// The scratch area.
pub open spec fn drafts_dir(root: Seq<char>) -> Seq<char> {
    join(root, "drafts"@)
}

/// The name of a chapter's storage directory.
pub open spec fn chapter_dir_name(id: ChapterId) -> Seq<char> {
    "chapter-"@ + decimal(id.0 as nat)
}

/// The storage directory of a chapter created in the project at `root`.
pub open spec fn chapter_dir(root: Seq<char>, id: ChapterId) -> Seq<char> {
    join(chapters_dir(root), chapter_dir_name(id))
}

/// The metadata file in a chapter's storage directory.
pub open spec fn metadata_file(dir: Seq<char>) -> Seq<char> {
    join(dir, "metadata.json"@)
}

/// The content file in a chapter's storage directory.
pub open spec fn content_file(dir: Seq<char>) -> Seq<char> {
    join(dir, "content.md"@)
}

/// The history directory in a chapter's storage directory.
pub open spec fn history_dir(dir: Seq<char>) -> Seq<char> {
    join(dir, "history"@)
}

/// The name of the file that holds the snapshot of `version`.
pub open spec fn version_file_name(version: nat) -> Seq<char> {
    "v"@ + decimal(version) + ".json"@
}

/// The file that holds the snapshot of `version` of the chapter stored in `dir`.
pub open spec fn version_file(dir: Seq<char>, version: nat) -> Seq<char> {
    join(history_dir(dir), version_file_name(version))
}

/// Whether a file name has the extension `json`: it ends in `.json`, and
/// something stands before that.
pub open spec fn has_json_extension(name: Seq<char>) -> bool {
    name.len() > 5 && name.skip(name.len() - 5) == ".json"@
}

/// The version whose snapshot a file of this name holds, if it is named like
/// one: `v`, a decimal numeral of 32 bits, `.json`.
pub open spec fn snapshot_version(name: Seq<char>) -> Option<u32> {
    if has_json_extension(name) && name[0] == 'v' {
        parse_decimal(name.subrange(1, name.len() - 5))
    } else {
        None
    }
}

/// The file written for a version is recognised as the snapshot of that
/// version.
pub proof fn lemma_version_file_name_roundtrip(version: u32)
    ensures
        has_json_extension(version_file_name(version as nat)),
        snapshot_version(version_file_name(version as nat)) == Some(version),
{
    reveal_strlit("v");
    reveal_strlit(".json");
    let name = version_file_name(version as nat);
    let numeral = decimal(version as nat);
    lemma_parse_decimal_roundtrip(version);
    assert(name.skip(name.len() - 5) =~= ".json"@);
    assert(name.subrange(1, name.len() - 5) =~= numeral);
}

/// Builds the path of `name` below the directory `base`.
pub fn join_path(base: &str, name: &str) -> (path: String)
    ensures
        path@ == join(base@, name@),
{
    let len = base.unicode_len();
    let mut path = String::from_str(base);
    if len > 0 && base.get_char(len - 1) != '/' {
        proof {
            reveal_strlit("/");
        }
        path.append("/");
        assert(path@ =~= base@ + seq!['/']);
    }
    path.append(name);
    path
}

/// Builds the path of the project's metadata directory.
pub fn metadata_dir_path(root: &str) -> (path: String)
    ensures
        path@ == metadata_dir(root@),
{
    join_path(root, ".novel")
}

/// Builds the path of the project's root metadata file.
pub fn project_file_path(root: &str) -> (path: String)
    ensures
        path@ == project_file(root@),
{
    join_path(root, ".novel/project.json")
}

/// Builds the path of the file of the character profiles.
pub fn characters_file_path(root: &str) -> (path: String)
    ensures
        path@ == characters_file(root@),
{
    join_path(root, ".novel/characters.json")
}

/// Builds the path of the file of the world settings.
pub fn world_file_path(root: &str) -> (path: String)
    ensures
        path@ == world_file(root@),
{
    join_path(root, ".novel/world.json")
}

/// Builds the path of the file of the plot points.
pub fn plot_file_path(root: &str) -> (path: String)
    ensures
        path@ == plot_file(root@),
{
    join_path(root, ".novel/plot.json")
}

/// Builds the path of the chapter storage area.
pub fn chapters_dir_path(root: &str) -> (path: String)
    ensures
        path@ == chapters_dir(root@),
{
    join_path(root, "chapters")
}

/// Builds the path of the scratch area.
pub fn drafts_dir_path(root: &str) -> (path: String)
    ensures
        path@ == drafts_dir(root@),
{
    join_path(root, "drafts")
}

/// Builds the path of the storage directory of a new chapter.
pub fn chapter_dir_path(root: &str, id: ChapterId) -> (path: String)
    ensures
        path@ == chapter_dir(root@, id),
{
    let mut name = String::from_str("chapter-");
    push_decimal(&mut name, id.0);
    let area = chapters_dir_path(root);
    join_path(area.as_str(), name.as_str())
}

/// Builds the path of the metadata file of the chapter stored in `dir`.
pub fn metadata_file_path(dir: &str) -> (path: String)
    ensures
        path@ == metadata_file(dir@),
{
    join_path(dir, "metadata.json")
}

/// Builds the path of the content file of the chapter stored in `dir`.
pub fn content_file_path(dir: &str) -> (path: String)
    ensures
        path@ == content_file(dir@),
{
    join_path(dir, "content.md")
}

/// Builds the path of the history directory of the chapter stored in `dir`.
pub fn history_dir_path(dir: &str) -> (path: String)
    ensures
        path@ == history_dir(dir@),
{
    join_path(dir, "history")
}

/// Builds the path of the snapshot of `version` of the chapter stored in `dir`.
pub fn version_file_path(dir: &str, version: u32) -> (path: String)
    ensures
        path@ == version_file(dir@, version as nat),
{
    let mut name = String::from_str("v");
    push_decimal(&mut name, version as u64);
    name.append(".json");
    let history = history_dir_path(dir);
    join_path(history.as_str(), name.as_str())
}

/// Tells whether the characters of a file name end in `.json` after a
/// non-empty stem.
fn ends_in_json(chars: &Vec<char>) -> (b: bool)
    ensures
        b == has_json_extension(chars@),
{
    let len = chars.len();
    proof {
        reveal_strlit(".json");
    }
    if len <= 5 {
        return false;
    }
    let b = chars[len - 5] == '.' && chars[len - 4] == 'j' && chars[len - 3] == 's' && chars[len
        - 2] == 'o' && chars[len - 1] == 'n';
    let ghost tail = chars@.skip(len - 5);
    assert(tail.len() == 5);
    assert(tail[0] == chars@[len - 5] && tail[1] == chars@[len - 4] && tail[2] == chars@[len - 3]
        && tail[3] == chars@[len - 2] && tail[4] == chars@[len - 1]);
    if b {
        assert(tail =~= ".json"@);
    }
    b
}

/// Tells whether a file name has the extension `json`.
pub fn is_json_file(name: &str) -> (b: bool)
    ensures
        b == has_json_extension(name@),
{
    let chars = chars_of(name);
    ends_in_json(&chars)
}

/// Reads the version out of the name of a snapshot file.
pub fn parse_version_file_name(name: &str) -> (version: Option<u32>)
    ensures
        version == snapshot_version(name@),
{
    let chars = chars_of(name);
    if ends_in_json(&chars) && chars[0] == 'v' {
        parse_decimal_range(&chars, 1, chars.len() - 5)
    } else {
        None
    }
}

} // verus!
