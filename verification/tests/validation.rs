use stepcalc::lexer::lex;
use stepcalc::validate::{validate, SyntaxError};

fn check(expr: &str) -> Result<(), SyntaxError> {
    validate(&lex(expr).expect("lexes"))
}

#[test]
fn validate_accepts_simple_sum() {
    assert_eq!(check("3 + 4"), Ok(()));
}

#[test]
fn validate_accepts_nested_expression() {
    assert_eq!(check("(1 + 2 * sin(2 + sqrt(log(3 / 2))))"), Ok(()));
}

#[test]
fn validate_accepts_single_number() {
    assert_eq!(check("42"), Ok(()));
}

#[test]
fn validate_rejects_unbalanced_parens() {
    // "(1 + 2" passes every adjacency rule but opens a parenthesis it
    // never closes
    assert_eq!(check("(1 + 2"), Err(SyntaxError::UnbalancedParens));
}

#[test]
fn validate_rejects_adjacent_numbers() {
    assert_eq!(check("1 2"), Err(SyntaxError::BadAfterNumber));
}

#[test]
fn validate_rejects_empty_call() {
    assert_eq!(check("sin()"), Err(SyntaxError::BadAfterLeftParen));
}

#[test]
fn validate_rejects_leading_right_paren() {
    assert_eq!(check(") 1"), Err(SyntaxError::RightParenAtStart));
}

#[test]
fn validate_rejects_leading_operator() {
    assert_eq!(check("+ 1"), Err(SyntaxError::OperatorAtEdge));
}

#[test]
fn validate_rejects_trailing_operator() {
    assert_eq!(check("1 +"), Err(SyntaxError::OperatorAtEdge));
}

#[test]
fn validate_rejects_operator_after_operator() {
    // the scan reaches the first `+` before the `*`, so the failure is
    // what follows `+`
    assert_eq!(check("1 + * 2"), Err(SyntaxError::BadAfterOperator));
}

#[test]
fn validate_rejects_bare_function() {
    assert_eq!(check("sin"), Err(SyntaxError::FunctionAtEnd));
}

#[test]
fn validate_rejects_function_without_parens() {
    assert_eq!(check("sin 1"), Err(SyntaxError::BadAfterFunction));
}

#[test]
fn validate_rejects_adjacent_groups() {
    assert_eq!(check("(1)(2)"), Err(SyntaxError::BadAfterRightParen));
}

#[test]
fn validate_rejects_trailing_left_paren() {
    assert_eq!(check("1 + ("), Err(SyntaxError::LeftParenAtEnd));
}

#[test]
fn validate_rejects_operand_before_paren() {
    assert_eq!(check("(sin(1) + 2) 3"), Err(SyntaxError::BadAfterRightParen));
}

#[test]
fn validate_accepts_empty_token_sequence() {
    assert_eq!(check(""), Ok(()));
}
