use mosaic_lexer::error::{ErrorReporter, RuntimeError};
use mosaic_lexer::token::{Token, TokenType};

#[test]
fn fresh_reporter_has_no_errors() {
    let reporter = ErrorReporter::new();
    assert!(!reporter.had_error);
    assert!(!reporter.had_runtime_error);
    assert!(reporter.diagnostics.is_empty());
}

#[test]
fn error_sets_flag_and_renders_line() {
    let mut reporter = ErrorReporter::new();
    reporter.error(3, "something is off");
    assert!(reporter.had_error);
    assert!(!reporter.had_runtime_error);
    assert_eq!(
        reporter.diagnostics.as_slice(),
        &[String::from("[line 3] Error: something is off")]
    );
}

#[test]
fn errors_accumulate_in_order() {
    let mut reporter = ErrorReporter::new();
    reporter.error(1, "first");
    reporter.error(2, "second");
    assert_eq!(
        reporter.diagnostics.as_slice(),
        &[
            String::from("[line 1] Error: first"),
            String::from("[line 2] Error: second"),
        ]
    );
}

#[test]
fn runtime_error_sets_both_flags() {
    let mut reporter = ErrorReporter::new();
    let token = Token {
        token_type: TokenType::Minus,
        lexeme: String::from("-"),
        line: 7,
    };
    reporter.runtime_error(RuntimeError {
        token,
        message: String::from("cannot negate"),
    });
    assert!(reporter.had_error);
    assert!(reporter.had_runtime_error);
    assert_eq!(
        reporter.diagnostics.as_slice(),
        &[String::from("[line 7] Error: cannot negate")]
    );
}

#[test]
fn unterminated_string_has_its_own_form() {
    let mut reporter = ErrorReporter::new();
    reporter.unterminated_string(42);
    assert!(reporter.had_error);
    assert!(!reporter.had_runtime_error);
    assert_eq!(
        reporter.diagnostics.as_slice(),
        &[String::from("[line 42] Unterminated string.")]
    );
}
