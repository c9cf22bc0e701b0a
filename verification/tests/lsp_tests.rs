use io_lang::lsp::format_code;

#[test]
fn test_formatting() {
    let unformatted = r#"
fn test() {
if true {
println("nested");
}
    return 42;
}
"#
    .trim();

    let expected = r#"fn test() {
    if true {
        println("nested");
    }
    return 42;
}
"#;

    let formatted = format_code(unformatted).unwrap();
    assert_eq!(formatted, expected);

    let unformatted = r#"
fn complex() {
if condition {
for item in items {
while true {
println("deep");
}}}}"#
        .trim();

    let expected = r#"fn complex() {
    if condition {
        for item in items {
            while true {
                println("deep");
            }
        }
    }
}
"#;

    let formatted = format_code(unformatted).unwrap();
    assert_eq!(formatted, expected);

    let unformatted = "if true println(\"one line\");";
    let expected = "if true\n    println(\"one line\");\n";

    let formatted = format_code(unformatted).unwrap();
    assert_eq!(formatted, expected);
}

#[test]
fn formatting_empty_text_gives_empty_text() {
    assert_eq!(format_code("").unwrap(), "");
}

use io_lang::ast::ASTNode;
use io_lang::lsp::{
    code_actions, collect_symbols, completion_items, find_symbol_at_position, generate_hover_text, Diagnostic,
    DiagnosticSeverity, Position, Range, SymbolInformation, SymbolKind,
};

fn at(line: u32, start: u32, end: u32) -> Range {
    Range { start: Position { line, character: start }, end: Position { line, character: end } }
}

#[test]
fn functions_become_symbols_and_completions() {
    let mut symbols = Vec::new();
    let f = ASTNode::Function { name: "add".to_string(), params: vec![], return_type: None, body: vec![], is_async: false };
    collect_symbols(&f, &mut symbols).unwrap();
    collect_symbols(&ASTNode::IntegerLiteral(1), &mut symbols).unwrap();
    assert_eq!(symbols.len(), 1);
    assert_eq!(symbols[0].kind, SymbolKind::Function);
    let items = completion_items(&symbols);
    assert_eq!(items.len(), 1);
    assert_eq!(items[0].label, "add");
    assert_eq!(items[0].detail, "Function");
}

#[test]
fn hover_describes_the_symbol() {
    let s = SymbolInformation { name: "add".to_string(), kind: SymbolKind::Function, uri: "file:///".to_string(), range: at(0, 0, 3) };
    assert_eq!(generate_hover_text(&s), "```io\nfn add\n```\n---\nFunction definition");
    let c = SymbolInformation { name: "Point".to_string(), kind: SymbolKind::Struct, uri: "file:///".to_string(), range: at(1, 0, 5) };
    assert_eq!(generate_hover_text(&c), "Struct: Point");
}

#[test]
fn symbol_lookup_by_position() {
    let symbols = vec![
        SymbolInformation { name: "a".to_string(), kind: SymbolKind::Variable, uri: "f".to_string(), range: at(0, 0, 3) },
        SymbolInformation { name: "b".to_string(), kind: SymbolKind::Variable, uri: "f".to_string(), range: at(2, 4, 9) },
    ];
    assert_eq!(find_symbol_at_position(&symbols, Position { line: 2, character: 5 }), Some(1));
    assert_eq!(find_symbol_at_position(&symbols, Position { line: 1, character: 0 }), None);
}

#[test]
fn quick_fixes_for_diagnostics_in_range() {
    let ds = vec![
        Diagnostic { range: at(0, 0, 4), severity: Some(DiagnosticSeverity::Error), message: "bad".to_string() },
        Diagnostic { range: at(5, 0, 4), severity: Some(DiagnosticSeverity::Warning), message: "meh".to_string() },
        Diagnostic { range: at(0, 2, 3), severity: Some(DiagnosticSeverity::Hint), message: "hm".to_string() },
    ];
    let actions = code_actions(&ds, at(0, 0, 10));
    assert_eq!(actions.len(), 1);
    assert_eq!(actions[0].title, "Fix error");
    assert!(actions[0].is_preferred);
}
