use stepcalc::lexer::lex;
use stepcalc::postfix::to_postfix;
use stepcalc::token::{Func, Op, Token};

fn num(text: &str) -> Token {
    Token::Number(text.to_string())
}

fn convert(expr: &str) -> Vec<Token> {
    let tokens = lex(expr).expect("lexes");
    stepcalc::validate::validate(&tokens).expect("valid");
    to_postfix(&tokens)
}

#[test]
fn postfix_simple_sum() {
    assert_eq!(
        convert("3 + 4"),
        vec![num("3"), num("4"), Token::Operator(Op::Add)]
    );
}

#[test]
fn postfix_respects_precedence() {
    // the multiplication binds tighter, so it stands leftmost and
    // reduces first
    assert_eq!(
        convert("1 + 2 * 3"),
        vec![
            num("1"),
            num("2"),
            num("3"),
            Token::Operator(Op::Mul),
            Token::Operator(Op::Add),
        ]
    );
}

#[test]
fn postfix_equal_priority_is_left_associative() {
    assert_eq!(
        convert("1 - 2 + 3"),
        vec![
            num("1"),
            num("2"),
            Token::Operator(Op::Sub),
            num("3"),
            Token::Operator(Op::Add),
        ]
    );
}

#[test]
fn postfix_power_is_left_associative() {
    // the documented quirk: `^` groups to the left like the others
    assert_eq!(
        convert("2 ^ 3 ^ 2"),
        vec![
            num("2"),
            num("3"),
            Token::Operator(Op::Pow),
            num("2"),
            Token::Operator(Op::Pow),
        ]
    );
}

#[test]
fn postfix_parens_override_precedence() {
    assert_eq!(
        convert("(1 + 2) * 3"),
        vec![
            num("1"),
            num("2"),
            Token::Operator(Op::Add),
            num("3"),
            Token::Operator(Op::Mul),
        ]
    );
}

#[test]
fn postfix_function_follows_its_operand() {
    assert_eq!(
        convert("sqrt(16)"),
        vec![num("16"), Token::FunctionName(Func::Sqrt)]
    );
}

#[test]
fn postfix_nested_functions() {
    assert_eq!(
        convert("sin(sqrt(2) + 1)"),
        vec![
            num("2"),
            Token::FunctionName(Func::Sqrt),
            num("1"),
            Token::Operator(Op::Add),
            Token::FunctionName(Func::Sin),
        ]
    );
}

#[test]
fn postfix_length_is_input_minus_parens() {
    // 11 tokens, 4 of them parentheses
    let tokens = lex("(1 + 2) * (3 - 4)").expect("lexes");
    stepcalc::validate::validate(&tokens).expect("valid");
    assert_eq!(tokens.len(), 11);
    assert_eq!(to_postfix(&tokens).len(), 7);
}

#[test]
fn postfix_has_no_parens() {
    let postfix = convert("(1 + 2 * sin(2 + sqrt(log(3 / 2))))");
    for t in &postfix {
        assert!(!matches!(t, Token::LeftParen | Token::RightParen));
    }
}

#[test]
fn priority_ranks() {
    assert_eq!(stepcalc::token::priority(&Token::Operator(Op::Add)), 1);
    assert_eq!(stepcalc::token::priority(&Token::Operator(Op::Sub)), 1);
    assert_eq!(stepcalc::token::priority(&Token::Operator(Op::Mul)), 2);
    assert_eq!(stepcalc::token::priority(&Token::Operator(Op::Div)), 2);
    assert_eq!(stepcalc::token::priority(&Token::Operator(Op::Pow)), 3);
    assert_eq!(stepcalc::token::priority(&Token::LeftParen), 0);
    assert_eq!(stepcalc::token::priority(&Token::FunctionName(Func::Sin)), 0);
}
