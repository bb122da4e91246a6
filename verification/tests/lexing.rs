use stepcalc::lexer::{lex, LexError};
use stepcalc::token::{Func, Op, Token};

#[test]
fn lex_simple_sum() {
    let tokens = lex("3 + 4").expect("lexes");
    assert_eq!(
        tokens,
        vec![
            Token::Number("3".to_string()),
            Token::Operator(Op::Add),
            Token::Number("4".to_string()),
        ]
    );
}

#[test]
fn lex_all_operators_and_parens() {
    let tokens = lex("(1-2)*3/4^5").expect("lexes");
    assert_eq!(
        tokens,
        vec![
            Token::LeftParen,
            Token::Number("1".to_string()),
            Token::Operator(Op::Sub),
            Token::Number("2".to_string()),
            Token::RightParen,
            Token::Operator(Op::Mul),
            Token::Number("3".to_string()),
            Token::Operator(Op::Div),
            Token::Number("4".to_string()),
            Token::Operator(Op::Pow),
            Token::Number("5".to_string()),
        ]
    );
}

#[test]
fn lex_skips_whitespace() {
    let tokens = lex("  3\t+\n4 ").expect("lexes");
    assert_eq!(tokens.len(), 3);
}

#[test]
fn lex_skips_unicode_whitespace() {
    let tokens = lex("3\u{A0}+\u{2003}4").expect("lexes");
    assert_eq!(tokens.len(), 3);
}

#[test]
fn lex_keeps_numeral_text() {
    let tokens = lex("3.50").expect("lexes");
    assert_eq!(tokens, vec![Token::Number("3.50".to_string())]);
}

#[test]
fn lex_decimal_forms() {
    assert_eq!(lex(".5").expect("lexes"), vec![Token::Number(".5".to_string())]);
    assert_eq!(lex("5.").expect("lexes"), vec![Token::Number("5.".to_string())]);
    assert_eq!(lex("1.25").expect("lexes"), vec![Token::Number("1.25".to_string())]);
}

#[test]
fn lex_all_function_names() {
    let tokens = lex("log sin cos tan ctg sqrt").expect("lexes");
    assert_eq!(
        tokens,
        vec![
            Token::FunctionName(Func::Log),
            Token::FunctionName(Func::Sin),
            Token::FunctionName(Func::Cos),
            Token::FunctionName(Func::Tan),
            Token::FunctionName(Func::Ctg),
            Token::FunctionName(Func::Sqrt),
        ]
    );
}

#[test]
fn lex_rejects_two_dots() {
    assert_eq!(lex("1.2.3"), Err(LexError::BadNumber("1.2.3".to_string())));
}

#[test]
fn lex_rejects_lone_dot() {
    assert_eq!(lex("."), Err(LexError::BadNumber(".".to_string())));
}

#[test]
fn lex_rejects_unknown_function() {
    assert_eq!(lex("foo(1)"), Err(LexError::UnknownFunction("foo".to_string())));
}

#[test]
fn lex_rejects_unknown_symbol() {
    assert_eq!(lex("1 $ 2"), Err(LexError::UnknownSymbol('$')));
}

#[test]
fn lex_reports_first_error() {
    // the unknown symbol comes before the unknown function name
    assert_eq!(lex("1 ? boo"), Err(LexError::UnknownSymbol('?')));
}

#[test]
fn lex_empty_input() {
    assert_eq!(lex("").expect("lexes"), Vec::<Token>::new());
}

#[test]
fn lex_minus_is_a_separate_operator() {
    // unary minus is not supported: a leading '-' lexes as an operator
    let tokens = lex("-3").expect("lexes");
    assert_eq!(
        tokens,
        vec![Token::Operator(Op::Sub), Token::Number("3".to_string())]
    );
}
