use novel_chapter::layout::{
    chapter_dir_path, chapters_dir_path, characters_file_path, content_file_path,
    drafts_dir_path, history_dir_path, is_json_file, join_path, metadata_dir_path,
    metadata_file_path, parse_version_file_name, plot_file_path, project_file_path,
    version_file_path, world_file_path,
};
use novel_chapter::text::{chars_of, count_words, is_whitespace_char, parse_decimal_range, push_decimal};
use novel_chapter::ChapterId;

fn decimal(n: u64) -> String {
    let mut out = String::new();
    push_decimal(&mut out, n);
    out
}

fn parse(text: &str) -> Option<u32> {
    let chars = chars_of(text);
    parse_decimal_range(&chars, 0, chars.len())
}

#[test]
fn counts_words_between_white_space() {
    assert_eq!(count_words(""), 0);
    assert_eq!(count_words("   \t\n"), 0);
    assert_eq!(count_words("one"), 1);
    assert_eq!(count_words("Content v1"), 2);
    assert_eq!(count_words("  leading and trailing  "), 3);
    assert_eq!(count_words("tabs\tand\nnewlines\r\nmixed"), 4);
    assert_eq!(count_words("a\u{3000}b\u{a0}c\u{2003}d\u{85}e"), 5);
    assert_eq!(count_words("no-break\u{202f}narrow\u{205f}math\u{1680}ogham"), 4);
    assert_eq!(count_words("zero\u{200b}width stays one"), 3);
}

#[test]
fn counts_words_as_split_whitespace_does() {
    let samples = [
        "",
        " ",
        "word",
        "two words",
        " x  y   z ",
        "line one\nline two\n\nline four",
        "\u{2028}para\u{2029}graph\u{2000}\u{200a}end",
        "第一章 开始\u{3000}结束",
        "\u{b}vertical\u{c}feed",
        "\u{180e}mongolian separator is no space",
        "\u{feff}bom is no space",
    ];
    for sample in samples {
        assert_eq!(count_words(sample), sample.split_whitespace().count(), "{:?}", sample);
    }
}

#[test]
fn tells_white_space_as_char_does() {
    let mut code = 0u32;
    while code <= 0x3100 {
        if let Some(c) = char::from_u32(code) {
            assert_eq!(is_whitespace_char(c), c.is_whitespace(), "U+{:04X}", code);
        }
        code += 1;
    }
    assert!(!is_whitespace_char('\u{feff}'));
    assert!(!is_whitespace_char('\u{10ffff}'));
}

#[test]
fn gives_the_characters_of_a_text() {
    assert_eq!(chars_of(""), Vec::<char>::new());
    assert_eq!(chars_of("añ中😀"), vec!['a', 'ñ', '中', '😀']);
}

#[test]
fn writes_decimal_numerals() {
    assert_eq!(decimal(0), "0");
    assert_eq!(decimal(7), "7");
    assert_eq!(decimal(10), "10");
    assert_eq!(decimal(1234567890), "1234567890");
    assert_eq!(decimal(u64::MAX), "18446744073709551615");
    let mut out = String::from("chapter-");
    push_decimal(&mut out, 42);
    assert_eq!(out, "chapter-42");
}

#[test]
fn reads_decimal_numerals() {
    assert_eq!(parse("0"), Some(0));
    assert_eq!(parse("7"), Some(7));
    assert_eq!(parse("007"), Some(7));
    assert_eq!(parse("+5"), Some(5));
    assert_eq!(parse("4294967295"), Some(u32::MAX));
    assert_eq!(parse("4294967296"), None);
    assert_eq!(parse("99999999999999999999999"), None);
    assert_eq!(parse(""), None);
    assert_eq!(parse("+"), None);
    assert_eq!(parse("-1"), None);
    assert_eq!(parse("++1"), None);
    assert_eq!(parse("1+"), None);
    assert_eq!(parse("12a"), None);
    assert_eq!(parse(" 1"), None);
    assert_eq!(parse("١٢"), None);
}

#[test]
fn reads_decimal_numerals_as_parse_does() {
    let samples = [
        "0", "1", "42", "0042", "+0", "+42", "-0", "-42", "", "+", "-", "4294967295",
        "4294967296", "42949672950", "1e3", "0x10", "1_000", "１２", " 7", "7 ",
    ];
    for sample in samples {
        assert_eq!(parse(sample), sample.parse::<u32>().ok(), "{:?}", sample);
    }
}

#[test]
fn reads_a_numeral_out_of_a_range() {
    let chars = chars_of("v12.json");
    assert_eq!(parse_decimal_range(&chars, 1, 3), Some(12));
    assert_eq!(parse_decimal_range(&chars, 0, 3), None);
    assert_eq!(parse_decimal_range(&chars, 3, 3), None);
    assert_eq!(parse_decimal_range(&chars, 2, 3), Some(2));
}

#[test]
fn joins_paths() {
    assert_eq!(join_path("/root", "chapters"), "/root/chapters");
    assert_eq!(join_path("/root/", "chapters"), "/root/chapters");
    assert_eq!(join_path("", "chapters"), "chapters");
    assert_eq!(join_path("relative/dir", ".novel/project.json"), "relative/dir/.novel/project.json");
    assert_eq!(join_path("/", "x"), "/x");
}

#[test]
fn joins_paths_as_path_does() {
    let bases = ["/root", "/root/", "", "a/b", "/", "日本/語"];
    let names = ["chapters", ".novel/project.json", "chapter-7", "history"];
    for base in bases {
        for name in names {
            let expected = std::path::Path::new(base).join(name);
            assert_eq!(join_path(base, name), expected.to_str().unwrap(), "{:?} {:?}", base, name);
        }
    }
}

#[test]
fn lays_out_the_project() {
    assert_eq!(metadata_dir_path("/p"), "/p/.novel");
    assert_eq!(project_file_path("/p"), "/p/.novel/project.json");
    assert_eq!(characters_file_path("/p"), "/p/.novel/characters.json");
    assert_eq!(world_file_path("/p"), "/p/.novel/world.json");
    assert_eq!(plot_file_path("/p"), "/p/.novel/plot.json");
    assert_eq!(chapters_dir_path("/p"), "/p/chapters");
    assert_eq!(drafts_dir_path("/p"), "/p/drafts");
    assert_eq!(chapter_dir_path("/p", ChapterId(0)), "/p/chapters/chapter-0");
    assert_eq!(chapter_dir_path("/p", ChapterId(125)), "/p/chapters/chapter-125");
    assert_eq!(metadata_file_path("/p/chapters/chapter-3"), "/p/chapters/chapter-3/metadata.json");
    assert_eq!(content_file_path("/p/chapters/chapter-3"), "/p/chapters/chapter-3/content.md");
    assert_eq!(history_dir_path("/p/chapters/chapter-3"), "/p/chapters/chapter-3/history");
    assert_eq!(version_file_path("/c", 0), "/c/history/v0.json");
    assert_eq!(version_file_path("/c", 12), "/c/history/v12.json");
    assert_eq!(version_file_path("/c", u32::MAX), "/c/history/v4294967295.json");
}

#[test]
fn tells_json_files() {
    assert!(is_json_file("v1.json"));
    assert!(is_json_file("anything.json"));
    assert!(is_json_file("a.b.json"));
    assert!(is_json_file("..json"));
    assert!(!is_json_file(".json"));
    assert!(!is_json_file("json"));
    assert!(!is_json_file("v1.JSON"));
    assert!(!is_json_file("v1.json.bak"));
    assert!(!is_json_file("v1.jso"));
    assert!(!is_json_file(""));
}

#[test]
fn tells_json_files_as_path_does() {
    let names = [
        "v1.json", ".json", "..json", "json", "a.b.json", "v1.json.", "v1.txt", "x.jsonx", "",
        "é.json", "v.json",
    ];
    for name in names {
        let expected = std::path::Path::new(name).extension().and_then(|e| e.to_str()) == Some("json");
        assert_eq!(is_json_file(name), expected, "{:?}", name);
    }
}

#[test]
fn reads_versions_out_of_file_names() {
    assert_eq!(parse_version_file_name("v1.json"), Some(1));
    assert_eq!(parse_version_file_name("v0.json"), Some(0));
    assert_eq!(parse_version_file_name("v007.json"), Some(7));
    assert_eq!(parse_version_file_name("v+5.json"), Some(5));
    assert_eq!(parse_version_file_name("v4294967295.json"), Some(u32::MAX));
    assert_eq!(parse_version_file_name("v4294967296.json"), None);
    assert_eq!(parse_version_file_name("v.json"), None);
    assert_eq!(parse_version_file_name("v-1.json"), None);
    assert_eq!(parse_version_file_name("x1.json"), None);
    assert_eq!(parse_version_file_name("V1.json"), None);
    assert_eq!(parse_version_file_name("v1.txt"), None);
    assert_eq!(parse_version_file_name("v1json"), None);
    assert_eq!(parse_version_file_name(".json"), None);
    assert_eq!(parse_version_file_name(""), None);
    assert_eq!(parse_version_file_name("v1.json.json"), None);
    assert_eq!(parse_version_file_name("vé.json"), None);
}

#[test]
fn reads_back_the_name_written_for_a_version() {
    for version in [0u32, 1, 9, 10, 99, 100, 65535, u32::MAX - 1, u32::MAX] {
        let path = version_file_path("/c", version);
        let name = path.rsplit('/').next().unwrap();
        assert_eq!(parse_version_file_name(name), Some(version));
        assert!(is_json_file(name));
    }
}
