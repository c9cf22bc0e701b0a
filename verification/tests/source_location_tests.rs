use io_lang::source_location::SourceLocation;

#[test]
fn test_source_location() {
    let content = "line1\nline2\nline3";
    let loc = SourceLocation::from_token(content, 7);
    assert_eq!(loc.line, 2);
    assert_eq!(loc.column, 1);
}

#[test]
fn token_positions_inside_the_text_count_from_one() {
    let content = "ab\ncd";
    let first = SourceLocation::from_token(content, 0);
    assert_eq!((first.line, first.column), (1, 1));
    let second = SourceLocation::from_token(content, 2);
    assert_eq!((second.line, second.column), (1, 2));
    let newline = SourceLocation::from_token(content, 3);
    assert_eq!((newline.line, newline.column), (1, 3));
    let end = SourceLocation::from_token(content, 5);
    assert_eq!((end.line, end.column), (2, 3));
    let past = SourceLocation::from_token(content, 6);
    assert_eq!((past.line, past.column), (0, 0));
}

#[test]
fn test_empty_file() {
    let loc = SourceLocation::from_token("", 0);
    assert_eq!(loc.line, 1);
    assert_eq!(loc.column, 1);
}

#[test]
fn test_position_at_end() {
    let content = "line1\nline2";
    let loc = SourceLocation::from_token(content, 11);
    assert_eq!(loc.line, 2);
    assert_eq!(loc.column, 6);
}

#[test]
fn location_text_joins_file_line_and_column() {
    let loc = SourceLocation::new("main.io".to_string(), "src".to_string(), 3, 9);
    assert_eq!(loc.format_location(), "main.io:3,9");
}

#[test]
fn earlier_lines_come_before() {
    let a = SourceLocation::new("m.io".to_string(), "".to_string(), 2, 9);
    let b = SourceLocation::new("m.io".to_string(), "".to_string(), 3, 1);
    assert!(a.is_before(&b));
    assert!(!b.is_before(&a));
    assert!(!a.is_before(&a));
}
