//! Text-level behavior: search and scroll offsets, extension detection, and
//! escape-sequence handling.

use doctree::detect_file_type;
use doctree::find_line;
use doctree::scroll_offset;
use doctree::unescape_string;
use doctree::FileType;

#[test]
fn search_example() {
    // "port" first appears on line 5 (0-indexed); with a row height of 14
    // units the scroll offset is 5 * 14 = 70.
    let content = "alpha\nbeta\ngamma\ndelta\nepsilon\nport: 80\nzeta\n";
    let line = find_line(content, "port").expect("the query occurs");
    assert_eq!(line, 5);
    assert_eq!(scroll_offset(line, 14), 70);
}

#[test]
fn search_is_case_insensitive() {
    let content = "One\nTwo\nPORT here\n";
    assert_eq!(find_line(content, "port"), Some(2));
    assert_eq!(find_line("port up top", "PORT"), Some(0));
}

#[test]
fn search_misses_return_nothing() {
    assert_eq!(find_line("alpha\nbeta\n", "gamma"), None);
}

#[test]
fn an_empty_query_matches_at_the_start() {
    assert_eq!(find_line("anything\n", ""), Some(0));
}

#[test]
fn extension_detection() {
    assert_eq!(detect_file_type("conf.yaml"), FileType::Yaml);
    assert_eq!(detect_file_type("conf.yml"), FileType::Yaml);
    assert_eq!(detect_file_type("a/b/Conf.YAML"), FileType::Yaml);
    assert_eq!(detect_file_type("data.json"), FileType::Json);
    assert_eq!(detect_file_type("Cargo.toml"), FileType::Toml);
    assert_eq!(detect_file_type("noext"), FileType::Unknown);
    assert_eq!(detect_file_type(".hidden"), FileType::Unknown);
    assert_eq!(detect_file_type("archive.tar.gz"), FileType::Unknown);
    assert_eq!(detect_file_type("dir.json/file"), FileType::Unknown);
    assert_eq!(detect_file_type("trailing."), FileType::Unknown);
}

#[test]
fn unescape_simple_sequences() {
    assert_eq!(unescape_string("a\\nb"), "a\nb");
    assert_eq!(unescape_string("a\\tb\\rc"), "a\tb\rc");
    assert_eq!(unescape_string("q\\\"q"), "q\"q");
    assert_eq!(unescape_string("s\\\\s"), "s\\s");
    assert_eq!(unescape_string("plain"), "plain");
}

#[test]
fn unescape_unknown_escapes_keep_their_backslash() {
    assert_eq!(unescape_string("a\\qb"), "a\\qb");
    assert_eq!(unescape_string("end\\"), "end\\");
}

#[test]
fn unescape_unicode_sequences() {
    assert_eq!(unescape_string("\\u0041"), "A");
    assert_eq!(unescape_string("x\\u00e9y"), "x\u{e9}y");
    // Four characters are consumed even when they are not hexadecimal.
    assert_eq!(unescape_string("\\uzz99x"), "x");
    // A surrogate code contributes nothing.
    assert_eq!(unescape_string("a\\ud800b"), "ab");
    // A short tail is still read as hexadecimal.
    assert_eq!(unescape_string("\\u41"), "A");
}
