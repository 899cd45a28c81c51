use mediawiki_parser::ast::{Position, Span, SourceLine};
use mediawiki_parser::util::{get_source_lines, is_whitespace, shorten_str};

#[test]
fn test_is_whitespace() {
    for arg in &["", "   ", "\t", "\n", "\t\t\t", "\n\t "] {
        assert!(is_whitespace(arg), "is_whitespace({:?})", arg);
    }

    for arg in &["a", "    a", "\t\\", "   \nä\t\t\t "] {
        assert!(!is_whitespace(arg), "!is_whitespace({:?})", arg);
    }
}

#[test]
fn source_lines_cover_the_text() {
    let lines = get_source_lines("ab\ncd");
    assert_eq!(lines.len(), 2);
    assert_eq!(lines[0].start, 0);
    assert_eq!(lines[0].content, "ab");
    assert_eq!(lines[0].end, 3);
    assert_eq!(lines[1].start, 3);
    assert_eq!(lines[1].content, "cd");
    assert_eq!(lines[1].end, 6);
}

#[test]
fn source_lines_of_empty_text() {
    let lines = get_source_lines("");
    assert_eq!(lines.len(), 1);
    assert_eq!(lines[0].content, "");
    assert_eq!(lines[0].start, 0);
    assert_eq!(lines[0].end, 1);
}

#[test]
fn starts_line_finds_line_starts() {
    let lines = get_source_lines("ab\ncd");
    assert!(SourceLine::starts_line(0, &lines));
    assert!(SourceLine::starts_line(3, &lines));
    assert!(!SourceLine::starts_line(1, &lines));
    assert!(!SourceLine::starts_line(4, &lines));
}

#[test]
fn offset_maps_to_line_and_column() {
    let lines = get_source_lines("ab\ncd");
    let pos = Position::new(4, &lines);
    assert_eq!(pos, Position { offset: 4, line: 2, col: 2 });
}

#[test]
fn offset_past_the_end_maps_past_the_last_line() {
    let lines = get_source_lines("ab\ncd");
    let pos = Position::new(100, &lines);
    assert_eq!(pos, Position { offset: 100, line: 3, col: 0 });
}

#[test]
fn multibyte_columns_count_characters() {
    // 'ä' takes two bytes; the column counts characters, not bytes.
    let src = "äb";
    let lines = get_source_lines(src);
    let pos = Position::new(2, &lines);
    assert_eq!(pos, Position { offset: 2, line: 1, col: 2 });
}

#[test]
fn span_new_resolves_both_endpoints() {
    let lines = get_source_lines("ab\ncd");
    let span = Span::new(0, 4, &lines);
    assert_eq!(span.start, Position { offset: 0, line: 1, col: 1 });
    assert_eq!(span.end, Position { offset: 4, line: 2, col: 2 });
}

#[test]
fn short_strings_stay_unshortened() {
    let s = shorten_str("hello");
    assert_eq!(s.as_str(), "hello");
}

#[test]
fn long_lines_are_elided_in_the_middle() {
    let mut long = String::new();
    for _ in 0..50 {
        long.push_str("ab");
    }
    // 100 characters of one byte each.
    let s = shorten_str(long.as_str());
    assert!(s.len() < long.len());
    assert!(s.contains(" .. "));
    assert!(s.starts_with("ababab"));
    assert!(s.ends_with("ababab"));
}
