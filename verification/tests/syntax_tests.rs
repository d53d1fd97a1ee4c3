use scheme_parser::ast::ParseError;
use scheme_parser::syntax::validate_syntax;

#[test]
fn balanced_inputs_are_accepted() {
    assert!(validate_syntax(""));
    assert!(validate_syntax("(())"));
    assert!(validate_syntax("(test)"));
    assert!(validate_syntax("(a (b c) (d (e)))"));
    assert!(validate_syntax("no parens at all"));
}

#[test]
fn early_close_is_rejected() {
    assert!(!validate_syntax(")()"));
    assert!(!validate_syntax(")"));
    assert!(!validate_syntax("())("));
}

#[test]
fn leftover_parens_are_rejected() {
    assert!(!validate_syntax("(()"));
    assert!(!validate_syntax("(test"));
    assert!(!validate_syntax("("));
    assert!(!validate_syntax("))(("));
}

#[test]
fn error_messages_name_the_failure() {
    assert_eq!("mismatched parentheses", ParseError::MismatchedParentheses.message());
    assert_eq!("missing delimiter", ParseError::MissingDelimiter.message());
    assert_eq!("invalid operator", ParseError::InvalidOperator.message());
    assert_eq!("invalid token", ParseError::InvalidToken.message());
}
