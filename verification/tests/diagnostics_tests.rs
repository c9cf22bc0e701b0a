use io_lang::diagnostics::{Diagnostic, DiagnosticLevel, Source, SourceLocation, SourceMap};

#[test]
fn source_lines_lose_trailing_blanks() {
    let src = Source::new("let x = 1;   \nlet y = 2;\n".to_string());
    assert_eq!(src.get_line(1), "let x = 1;");
    assert_eq!(src.get_line(2), "let y = 2;");
    assert_eq!(src.get_line(3), "");
}

#[test]
fn report_shows_the_line_and_the_marker() {
    let mut map = SourceMap::new();
    map.add_file("main.io".to_string(), "let x = 1;\nlet y = ;\n".to_string());
    let d = Diagnostic::error("unexpected token")
        .with_location(SourceLocation { file: "main.io".to_string(), line: 2, column: 8, length: 1 })
        .with_hint("remove it");
    assert_eq!(d.level, DiagnosticLevel::Error);
    let text = d.compose_report(&map, "error", "^", &vec!["remove it".to_string()]);
    assert_eq!(
        text,
        "error: unexpected token\n --> main.io:2:8\n  |\n  2 | let y = ;\n  |         ^\nhelp: remove it"
    );
}

#[test]
fn report_without_source_has_no_excerpt() {
    let map = SourceMap::new();
    let d = Diagnostic::error("oops")
        .with_location(SourceLocation { file: "gone.io".to_string(), line: 1, column: 0, length: 1 });
    assert_eq!(d.compose_report(&map, "error", "^", &vec![]), "error: oops\n");
    assert!(map.get_source("gone.io").is_none());
}

#[test]
fn adding_a_file_again_replaces_it() {
    let mut map = SourceMap::new();
    map.add_file("a.io".to_string(), "one".to_string());
    map.add_file("a.io".to_string(), "two".to_string());
    assert_eq!(map.get_source("a.io").unwrap().get_line(1), "two");
}
