//! How the paths of a project lie to one another: what is within what, and
//! which paths never meet.

use crate::layout::{
    chapter_dir, chapter_dir_name, chapters_dir, characters_file, content_file, history_dir,
    join, metadata_file, plot_file, project_file, version_file, version_file_name, world_file,
};
use crate::text::{decimal, is_digit, lemma_decimal_value};
use crate::types::ChapterId;
use vstd::prelude::*;

verus! {

/// Whether `path` names a directory in the usual way: it is not empty and
/// does not end in a separator.
pub open spec fn is_plain(path: Seq<char>) -> bool {
    path.len() > 0 && path.last() != '/'
}

/// Whether `path` is the directory `dir` or lies somewhere within it.
pub open spec fn within(dir: Seq<char>, path: Seq<char>) -> bool {
    path == dir || (path.len() > dir.len() + 1 && path.take(dir.len() as int) == dir
        && path[dir.len() as int] == '/')
}

/// Whether `name` is the name of an entry of a directory: it is not empty
/// and holds no separator.
pub open spec fn is_entry_name(name: Seq<char>) -> bool {
    name.len() > 0 && !name.contains('/')
}

/// Below a plain directory, a name is joined on behind a separator.
pub proof fn lemma_join_plain(dir: Seq<char>, name: Seq<char>)
    requires
        is_plain(dir),
    ensures
        join(dir, name) == dir + seq!['/'] + name,
        name.len() > 0 ==> within(dir, join(dir, name)) && join(dir, name) != dir,
        is_plain(name) ==> is_plain(join(dir, name)),
{
    let joined = dir + seq!['/'] + name;
    if name.len() > 0 {
        assert(joined.take(dir.len() as int) =~= dir);
        assert(joined[dir.len() as int] == '/');
        assert(joined.len() == dir.len() + 1 + name.len());
        if is_plain(name) {
            assert(joined.last() == name.last());
        }
    }
}

/// Two names joined on below the same directory give the same path only
/// where they are the same.
pub proof fn lemma_join_distinct(dir: Seq<char>, a: Seq<char>, b: Seq<char>)
    requires
        join(dir, a) == join(dir, b),
    ensures
        a == b,
{
    let base = if dir.len() == 0 || dir.last() == '/' {
        dir
    } else {
        dir + seq!['/']
    };
    assert(join(dir, a) =~= base + a);
    assert(join(dir, b) =~= base + b);
    assert((base + a).skip(base.len() as int) =~= a);
    assert((base + b).skip(base.len() as int) =~= b);
}

/// What lies within a directory that lies within another lies within that
/// other.
pub proof fn lemma_within_transitive(a: Seq<char>, b: Seq<char>, c: Seq<char>)
    requires
        within(a, b),
        within(b, c),
    ensures
        within(a, c),
{
    if b != a && c != b {
        assert(c.take(a.len() as int) =~= b.take(a.len() as int)) by {
            assert(c.take(b.len() as int) == b);
            assert forall|i: int| 0 <= i < a.len() implies c[i] == b[i] by {
                assert(c.take(b.len() as int)[i] == b[i]);
            }
        }
        assert(c[a.len() as int] == b[a.len() as int]) by {
            assert(c.take(b.len() as int)[a.len() as int] == b[a.len() as int]);
        }
    }
}

/// Of two plain directories that both hold a path, one lies within the
/// other.
pub proof fn lemma_within_nested(a: Seq<char>, b: Seq<char>, path: Seq<char>)
    requires
        is_plain(a),
        is_plain(b),
        within(a, path),
        within(b, path),
    ensures
        within(a, b) || within(b, a),
{
    if a.len() <= b.len() {
        lemma_prefixes_nested(a, b, path);
    } else {
        lemma_prefixes_nested(b, a, path);
    }
}

/// Of two plain directories that both hold a path, the shorter holds the
/// longer.
proof fn lemma_prefixes_nested(a: Seq<char>, b: Seq<char>, path: Seq<char>)
    requires
        is_plain(a),
        is_plain(b),
        within(a, path),
        within(b, path),
        a.len() <= b.len(),
    ensures
        within(a, b),
{
    assert(path.take(b.len() as int) == b) by {
        if path == b {
            assert(path.take(b.len() as int) =~= b);
        }
    }
    assert(path.take(a.len() as int) == a) by {
        if path == a {
            assert(path.take(a.len() as int) =~= a);
        }
    }
    assert(b.take(a.len() as int) =~= a) by {
        assert forall|i: int| 0 <= i < a.len() implies b[i] == a[i] by {
            assert(path.take(b.len() as int)[i] == b[i]);
            assert(path.take(a.len() as int)[i] == a[i]);
        }
    }
    if a.len() == b.len() {
        assert(b.take(a.len() as int) =~= b);
    } else {
        assert(path != a);
        assert(b[a.len() as int] == path[a.len() as int]) by {
            assert(path.take(b.len() as int)[a.len() as int] == b[a.len() as int]);
        }
        if b.len() == a.len() + 1 {
            assert(b.last() == '/');
        }
    }
}

/// The name of a chapter's storage directory is an entry name that tells
/// the chapter.
pub proof fn lemma_chapter_dir_name(id: ChapterId)
    ensures
        chapter_dir_name(id).len() > 8,
        is_entry_name(chapter_dir_name(id)),
        is_plain(chapter_dir_name(id)),
        chapter_dir_name(id).skip(8) == decimal(id.0 as nat),
{
    reveal_strlit("chapter-");
    let name = chapter_dir_name(id);
    let numeral = decimal(id.0 as nat);
    lemma_decimal_value(id.0 as nat);
    assert(name.skip(8) =~= numeral);
    assert forall|i: int| 0 <= i < name.len() implies name[i] != '/' by {
        if i >= 8 {
            assert(name[i] == numeral[i - 8]);
            assert(is_digit(numeral[i - 8]));
        }
    }
    assert(name.last() == numeral.last());
    assert(is_digit(numeral[numeral.len() - 1]));
}

/// Different chapters have storage directories of different names, neither
/// of which begins with the other and a separator.
pub proof fn lemma_chapter_dir_names_differ(a: ChapterId, b: ChapterId)
    requires
        a != b,
    ensures
        chapter_dir_name(a) != chapter_dir_name(b),
{
    lemma_chapter_dir_name(a);
    lemma_chapter_dir_name(b);
    lemma_decimal_value(a.0 as nat);
    lemma_decimal_value(b.0 as nat);
    if chapter_dir_name(a) == chapter_dir_name(b) {
        assert(decimal(a.0 as nat) == decimal(b.0 as nat));
        assert(a.0 == b.0);
    }
}

/// The chapter storage area is a plain directory.
pub proof fn lemma_chapters_dir_plain(root: Seq<char>)
    ensures
        is_plain(chapters_dir(root)),
{
    reveal_strlit("chapters");
    let area = chapters_dir(root);
    assert(area.last() == 's') by {
        if root.len() == 0 || root.last() == '/' {
            assert(area =~= root + "chapters"@);
        } else {
            assert(area =~= root + seq!['/'] + "chapters"@);
        }
        assert("chapters"@[7] == 's');
    }
}

/// The storage directory of a chapter is a plain directory and an entry of
/// the chapter storage area.
pub proof fn lemma_chapter_dir(root: Seq<char>, id: ChapterId)
    ensures
        is_plain(chapter_dir(root, id)),
        within(chapters_dir(root), chapter_dir(root, id)),
        chapter_dir(root, id) != chapters_dir(root),
        chapter_dir(root, id) == chapters_dir(root) + seq!['/'] + chapter_dir_name(id),
{
    lemma_chapters_dir_plain(root);
    lemma_chapter_dir_name(id);
    lemma_join_plain(chapters_dir(root), chapter_dir_name(id));
}

/// The storage directories of different chapters are apart: neither lies
/// within the other.
pub proof fn lemma_chapter_dirs_apart(root: Seq<char>, a: ChapterId, b: ChapterId)
    requires
        a != b,
    ensures
        !within(chapter_dir(root, a), chapter_dir(root, b)),
{
    let area = chapters_dir(root);
    let da = chapter_dir(root, a);
    let db = chapter_dir(root, b);
    lemma_chapter_dir(root, a);
    lemma_chapter_dir(root, b);
    lemma_chapter_dir_name(a);
    lemma_chapter_dir_name(b);
    lemma_chapter_dir_names_differ(a, b);
    let na = chapter_dir_name(a);
    let nb = chapter_dir_name(b);
    if da == db {
        lemma_join_distinct(area, na, nb);
    } else if within(da, db) {
        let at = da.len() as int;
        assert(db[at] == '/');
        assert(db[at] == nb[at - area.len() - 1]);
        assert(nb.contains('/'));
    }
}

/// An entry of the chapter storage area that lies within the storage
/// directory of a chapter is that directory.
pub proof fn lemma_entry_within_chapter_dir(root: Seq<char>, id: ChapterId, name: Seq<char>)
    requires
        is_entry_name(name),
        within(chapter_dir(root, id), join(chapters_dir(root), name)),
    ensures
        join(chapters_dir(root), name) == chapter_dir(root, id),
{
    let area = chapters_dir(root);
    let dir = chapter_dir(root, id);
    let path = join(area, name);
    lemma_chapter_dir(root, id);
    lemma_chapters_dir_plain(root);
    lemma_join_plain(area, name);
    if path != dir {
        let at = dir.len() as int;
        assert(path[at] == '/');
        assert(path[at] == name[at - area.len() - 1]);
        assert(name.contains('/'));
    }
}

/// The path with which `join` begins every path below `dir`.
pub open spec fn stem(dir: Seq<char>) -> Seq<char> {
    if dir.len() == 0 || dir.last() == '/' {
        dir
    } else {
        dir + seq!['/']
    }
}

/// Every path below a directory is the directory's stem and the name.
pub proof fn lemma_join_stem(dir: Seq<char>, name: Seq<char>)
    ensures
        join(dir, name) == stem(dir) + name,
{
    assert(join(dir, name) =~= stem(dir) + name);
}

/// Two paths with the same beginning differ where what follows differs at
/// some position.
proof fn lemma_differ_at(stem: Seq<char>, a: Seq<char>, b: Seq<char>, i: int)
    requires
        0 <= i < a.len(),
        0 <= i < b.len(),
        a[i] != b[i],
    ensures
        stem + a != stem + b,
        !within(stem + a, stem + b),
        !within(stem + b, stem + a),
{
    let x = stem + a;
    let y = stem + b;
    assert(x[stem.len() + i] == a[i]);
    assert(y[stem.len() + i] == b[i]);
    if within(x, y) && x != y {
        assert(y.take(x.len() as int)[stem.len() + i] == y[stem.len() + i]);
    }
    if within(y, x) && x != y {
        assert(x.take(y.len() as int)[stem.len() + i] == x[stem.len() + i]);
    }
}

/// The files of the root metadata and of the settings are four different
/// files, none of them within the chapter storage area.
pub proof fn lemma_root_files(root: Seq<char>)
    ensures
        project_file(root) != characters_file(root),
        project_file(root) != world_file(root),
        project_file(root) != plot_file(root),
        !within(chapters_dir(root), project_file(root)),
        !within(chapters_dir(root), characters_file(root)),
        !within(chapters_dir(root), world_file(root)),
        !within(chapters_dir(root), plot_file(root)),
{
    reveal_strlit(".novel/project.json");
    reveal_strlit(".novel/characters.json");
    reveal_strlit(".novel/world.json");
    reveal_strlit(".novel/plot.json");
    reveal_strlit("chapters");
    let base = stem(root);
    lemma_join_stem(root, ".novel/project.json"@);
    lemma_join_stem(root, ".novel/characters.json"@);
    lemma_join_stem(root, ".novel/world.json"@);
    lemma_join_stem(root, ".novel/plot.json"@);
    lemma_join_stem(root, "chapters"@);
    lemma_differ_at(base, ".novel/project.json"@, ".novel/characters.json"@, 7);
    lemma_differ_at(base, ".novel/project.json"@, ".novel/world.json"@, 7);
    lemma_differ_at(base, ".novel/project.json"@, ".novel/plot.json"@, 8);
    lemma_differ_at(base, "chapters"@, ".novel/project.json"@, 0);
    lemma_differ_at(base, "chapters"@, ".novel/characters.json"@, 0);
    lemma_differ_at(base, "chapters"@, ".novel/world.json"@, 0);
    lemma_differ_at(base, "chapters"@, ".novel/plot.json"@, 0);
}

/// The directory of the project's metadata and the scratch area do not lie
/// within the chapter storage area.
pub proof fn lemma_root_dirs(root: Seq<char>)
    ensures
        !within(chapters_dir(root), crate::layout::metadata_dir(root)),
        !within(chapters_dir(root), crate::layout::drafts_dir(root)),
{
    reveal_strlit(".novel");
    reveal_strlit("drafts");
    reveal_strlit("chapters");
    let base = stem(root);
    lemma_join_stem(root, ".novel"@);
    lemma_join_stem(root, "drafts"@);
    lemma_join_stem(root, "chapters"@);
    lemma_differ_at(base, "chapters"@, ".novel"@, 0);
    lemma_differ_at(base, "chapters"@, "drafts"@, 0);
}

/// The path of the file `name` in the history directory of the chapter
/// stored in `dir`.
pub open spec fn history_file(dir: Seq<char>, name: Seq<char>) -> Seq<char> {
    join(history_dir(dir), name)
}

/// The metadata file, the content file and the history directory of a
/// chapter lie within its storage directory and are three different paths;
/// the files of its history lie within its storage directory too, and none
/// of them is its metadata file or its content file.
pub proof fn lemma_chapter_files(dir: Seq<char>)
    requires
        is_plain(dir),
    ensures
        within(dir, metadata_file(dir)),
        within(dir, content_file(dir)),
        within(dir, history_dir(dir)),
        is_plain(history_dir(dir)),
        metadata_file(dir) != dir,
        content_file(dir) != dir,
        history_dir(dir) != dir,
        metadata_file(dir) != content_file(dir),
        metadata_file(dir) != history_dir(dir),
        content_file(dir) != history_dir(dir),
        forall|name: Seq<char>|
            within(dir, #[trigger] history_file(dir, name)) && history_file(dir, name) != dir,
        forall|name: Seq<char>| #[trigger]
            history_file(dir, name) != metadata_file(dir) && history_file(dir, name)
                != content_file(dir),
{
    reveal_strlit("metadata.json");
    reveal_strlit("content.md");
    reveal_strlit("history");
    let base = dir + seq!['/'];
    lemma_join_plain(dir, "metadata.json"@);
    lemma_join_plain(dir, "content.md"@);
    lemma_join_plain(dir, "history"@);
    assert(dir + seq!['/'] + "metadata.json"@ =~= base + "metadata.json"@);
    assert(dir + seq!['/'] + "content.md"@ =~= base + "content.md"@);
    assert(dir + seq!['/'] + "history"@ =~= base + "history"@);
    lemma_differ_at(base, "metadata.json"@, "content.md"@, 0);
    lemma_differ_at(base, "metadata.json"@, "history"@, 0);
    lemma_differ_at(base, "content.md"@, "history"@, 0);
    assert("history"@.last() == 'y');
    let history = history_dir(dir);
    assert forall|name: Seq<char>| #[trigger]
        history_file(dir, name) != metadata_file(dir) && history_file(dir, name) != content_file(
            dir,
        ) && within(dir, history_file(dir, name)) && history_file(dir, name) != dir by {
        lemma_join_plain(history, name);
        let rest = "history"@ + seq!['/'] + name;
        let file = history_file(dir, name);
        assert(file =~= base + rest);
        lemma_differ_at(base, rest, "metadata.json"@, 0);
        lemma_differ_at(base, rest, "content.md"@, 0);
        assert(file.take(dir.len() as int) =~= dir);
        assert(file[dir.len() as int] == '/');
    }
}

/// The file of a version is a file of the history, under the name written
/// for the version.
pub proof fn lemma_version_file(dir: Seq<char>, version: nat)
    ensures
        version_file(dir, version) == history_file(dir, version_file_name(version)),
        version_file_name(version).len() > 0,
{
    reveal_strlit("v");
}

/// What lies within the storage directory of one chapter does not lie
/// within that of another.
pub proof fn lemma_apart(root: Seq<char>, a: ChapterId, b: ChapterId, path: Seq<char>)
    requires
        a != b,
        within(chapter_dir(root, a), path),
    ensures
        !within(chapter_dir(root, b), path),
{
    lemma_chapter_dir(root, a);
    lemma_chapter_dir(root, b);
    lemma_chapter_dirs_apart(root, a, b);
    lemma_chapter_dirs_apart(root, b, a);
    if within(chapter_dir(root, b), path) {
        lemma_within_nested(chapter_dir(root, a), chapter_dir(root, b), path);
    }
}

} // verus!
