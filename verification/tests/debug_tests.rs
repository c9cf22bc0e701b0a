use io_lang::debug::breakpoint::BreakpointManager;
use io_lang::debug::expression::{tokenize_expression, BinaryOp, ExprToken, Expression, ExpressionParser};
use io_lang::debug::stepping::{select_frame, WatchList};

#[test]
fn test_breakpoint_creation() {
    let mut manager = BreakpointManager::new();
    let id = manager
        .add_breakpoint("test.rs".to_string(), 10, 0, Some("x > 5".to_string()))
        .unwrap();

    let bp = manager.get_breakpoint(id).unwrap();
    assert_eq!(bp.location.file, "test.rs");
    assert_eq!(bp.location.line, 10);
    assert_eq!(bp.hit_count, 0);
}

#[test]
fn test_expression_parser() {
    let mut parser = ExpressionParser::new(vec![
        ExprToken::Number("5.0".to_string()),
        ExprToken::Greater,
        ExprToken::Number("3.0".to_string()),
    ]);

    let expr = parser.parse().unwrap();
    match expr {
        Expression::Binary { op: BinaryOp::Greater, .. } => assert!(true),
        _ => assert!(false, "Expected binary greater expression"),
    }
}

#[test]
fn breakpoint_ids_count_up_from_one() {
    let mut manager = BreakpointManager::new();
    let a = manager.add_breakpoint("a.io".to_string(), 1, 0, None).unwrap();
    let b = manager.add_breakpoint("b.io".to_string(), 2, 0, None).unwrap();
    assert_eq!(a, 1);
    assert_eq!(b, 2);
}

#[test]
fn removing_the_added_breakpoint_restores_the_list() {
    let mut manager = BreakpointManager::new();
    let a = manager.add_breakpoint("a.io".to_string(), 1, 0, None).unwrap();
    let before = manager.list_breakpoints();
    let b = manager.add_breakpoint("b.io".to_string(), 2, 0, None).unwrap();
    assert!(manager.get_breakpoint(b).is_some());
    manager.remove_breakpoint(b).unwrap();
    assert_eq!(manager.list_breakpoints(), before);
    assert!(manager.get_breakpoint(b).is_none());
    assert!(manager.get_breakpoint(a).is_some());
}

#[test]
fn removing_an_unknown_breakpoint_fails() {
    let mut manager = BreakpointManager::new();
    let err = manager.remove_breakpoint(7).unwrap_err();
    assert_eq!(err.message(), "Breakpoint 7 not found");
}

#[test]
fn condition_text_splits_into_tokens() {
    let toks = tokenize_expression("x >= 10 && y != 0").unwrap();
    assert_eq!(toks.len(), 7);
    assert!(matches!(&toks[0], ExprToken::Identifier(s) if s == "x"));
    assert!(matches!(toks[1], ExprToken::GreaterEqual));
    assert!(matches!(&toks[2], ExprToken::Number(s) if s == "10"));
    assert!(matches!(toks[3], ExprToken::And));
    assert!(matches!(toks[5], ExprToken::NotEqual));
}

use io_lang::debug::breakpoint::SourceLocation;

fn place(file: &str, line: usize) -> SourceLocation {
    SourceLocation { file: file.to_string(), line, column: 0 }
}

#[test]
fn inactive_manager_never_stops() {
    let mut manager = BreakpointManager::new();
    manager.add_breakpoint("a.io".to_string(), 3, 0, None).unwrap();
    assert!(!manager.should_break(&place("a.io", 3), &vec![false]));
    assert_eq!(manager.evaluate_breakpoint(&place("a.io", 3), "main", &vec![Ok(false)]).unwrap(), false);
    assert_eq!(manager.get_hit_count(1).unwrap(), 0);
}

#[test]
fn reaching_a_breakpoint_counts_and_stops() {
    let mut manager = BreakpointManager::new();
    manager.toggle(true);
    manager.add_breakpoint("a.io".to_string(), 3, 0, Some("x > 1".to_string())).unwrap();
    assert!(!manager.should_break(&place("a.io", 3), &vec![false]));
    assert!(manager.should_break(&place("a.io", 3), &vec![true]));
    assert!(!manager.should_break(&place("a.io", 4), &vec![true]));
    assert_eq!(manager.get_hit_count(1).unwrap(), 2);
}

#[test]
fn ignored_and_temporary_breakpoints() {
    let mut manager = BreakpointManager::new();
    manager.toggle(true);
    let id = manager.add_breakpoint("a.io".to_string(), 3, 0, None).unwrap();
    manager.set_ignore_count(id, 1).unwrap();
    manager.set_temporary(id, true).unwrap();
    let at = place("a.io", 3);
    assert_eq!(manager.evaluate_breakpoint(&at, "main", &vec![Ok(false)]).unwrap(), false);
    assert_eq!(manager.evaluate_breakpoint(&at, "main", &vec![Ok(false)]).unwrap(), true);
    assert!(manager.list_breakpoints().is_empty());
}

#[test]
fn function_breakpoint_fires_in_its_function() {
    let mut manager = BreakpointManager::new();
    manager.toggle(true);
    manager.add_function_breakpoint("compute".to_string()).unwrap();
    let at = place("a.io", 9);
    assert_eq!(manager.evaluate_breakpoint(&at, "main", &vec![Ok(false)]).unwrap(), false);
    assert_eq!(manager.evaluate_breakpoint(&at, "compute", &vec![Ok(false)]).unwrap(), true);
}

#[test]
fn watchpoint_fires_on_a_change() {
    let mut manager = BreakpointManager::new();
    manager.toggle(true);
    manager.add_data_watchpoint("x".to_string()).unwrap();
    assert!(!manager.should_break_on_variable_change("x", false));
    assert!(!manager.should_break_on_variable_change("y", true));
    assert!(manager.should_break_on_variable_change("x", true));
}

#[test]
fn watches_are_kept_once_in_order() {
    let mut w = WatchList::new();
    w.add_watch("x".to_string());
    w.add_watch("y".to_string());
    w.add_watch("x".to_string());
    assert_eq!(w.names(), &vec!["x".to_string(), "y".to_string()]);
    assert!(w.contains("y"));
    w.remove_watch("x");
    assert_eq!(w.names(), &vec!["y".to_string()]);
    w.remove_watch("z");
    assert_eq!(w.names(), &vec!["y".to_string()]);
}

#[test]
fn a_frame_past_the_backtrace_is_refused() {
    assert_eq!(select_frame(1, 3).unwrap(), 1);
    assert_eq!(select_frame(3, 3).unwrap_err().message(), "Invalid frame index");
}
