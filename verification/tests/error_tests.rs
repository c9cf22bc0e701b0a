use io_lang::error::handler::{
    get_error_location, CompileError, ErrorContext, ErrorHandler, RecoveryAction, RecoveryStrategy,
};

#[test]
fn test_error_handler_recovery() {
    let mut handler = ErrorHandler::new();
    handler.with_recovery_strategy(RecoveryStrategy::SkipToNextToken);

    let result = handler.handle_error_with_recovery(CompileError::LexerError {
        position: 0,
        message: "test error".to_string(),
    });

    assert!(matches!(result, Ok(RecoveryAction::SkipToken)));
}

#[test]
fn test_error_context_tracking() {
    let mut handler = ErrorHandler::new();
    let context = ErrorContext {
        file: "test.io".to_string(),
        line: 1,
        column: 5,
        source_line: "let x = 42;".to_string(),
    };

    handler.push_context(context);
    assert_eq!(handler.error_count(), 0);

    let error = CompileError::LexerError {
        position: 5,
        message: "unexpected token".to_string(),
    };

    let enhanced = handler.handle_error(error);
    assert!(matches!(enhanced, CompileError::LexerError { .. }));
}

#[test]
fn error_location_counts_lines_within_the_source_text() {
    let context = ErrorContext::new("a.io", 3, 0, "ab\ncd");
    let loc = get_error_location(&context, 4);
    assert_eq!(loc.line, 2);
    assert_eq!(loc.column, 4);
}

#[test]
fn popping_a_pushed_context_restores_the_count() {
    let mut handler = ErrorHandler::new();
    let before = handler.error_count();
    handler.push_context(ErrorContext::new("a.io", 1, 0, "x"));
    handler.pop_context();
    assert_eq!(handler.error_count(), before);
}
