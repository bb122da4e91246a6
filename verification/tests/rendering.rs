use stepcalc::lexer::lex;
use stepcalc::postfix::to_postfix;
use stepcalc::render::{render, RenderError};
use stepcalc::token::{Func, Op, Token};

fn num(text: &str) -> Token {
    Token::Number(text.to_string())
}

#[test]
fn render_single_number_is_its_numeral() {
    assert_eq!(render(&vec![num("42")]), Ok("42".to_string()));
    assert_eq!(render(&vec![num("3.50")]), Ok("3.50".to_string()));
}

#[test]
fn render_round_trip_parenthesizes() {
    let postfix = to_postfix(&lex("3 + 4").expect("lexes"));
    assert_eq!(render(&postfix), Ok("(3 + 4)".to_string()));
}

#[test]
fn render_fully_parenthesizes_mixed_precedence() {
    let postfix = to_postfix(&lex("1 + 2 * 3").expect("lexes"));
    assert_eq!(render(&postfix), Ok("(1 + (2 * 3))".to_string()));
}

#[test]
fn render_function_call() {
    let postfix = to_postfix(&lex("sqrt(16)").expect("lexes"));
    assert_eq!(render(&postfix), Ok("sqrt(16)".to_string()));
}

#[test]
fn render_nested_expression() {
    let postfix = to_postfix(&lex("(1 + 2) * sin(3)").expect("lexes"));
    assert_eq!(render(&postfix), Ok("((1 + 2) * sin(3))".to_string()));
}

#[test]
fn render_every_operator_symbol() {
    assert_eq!(
        render(&vec![num("1"), num("2"), Token::Operator(Op::Sub)]),
        Ok("(1 - 2)".to_string())
    );
    assert_eq!(
        render(&vec![num("1"), num("2"), Token::Operator(Op::Div)]),
        Ok("(1 / 2)".to_string())
    );
    assert_eq!(
        render(&vec![num("1"), num("2"), Token::Operator(Op::Pow)]),
        Ok("(1 ^ 2)".to_string())
    );
}

#[test]
fn render_every_function_name() {
    for (f, expected) in [
        (Func::Log, "log(1)"),
        (Func::Sin, "sin(1)"),
        (Func::Cos, "cos(1)"),
        (Func::Tan, "tan(1)"),
        (Func::Ctg, "ctg(1)"),
        (Func::Sqrt, "sqrt(1)"),
    ] {
        assert_eq!(
            render(&vec![num("1"), Token::FunctionName(f)]),
            Ok(expected.to_string())
        );
    }
}

#[test]
fn render_fails_on_operator_without_operands() {
    assert_eq!(
        render(&vec![Token::Operator(Op::Add)]),
        Err(RenderError::MissingOperand)
    );
    assert_eq!(
        render(&vec![num("1"), Token::Operator(Op::Add)]),
        Err(RenderError::MissingOperand)
    );
}

#[test]
fn render_fails_on_function_without_operand() {
    assert_eq!(
        render(&vec![Token::FunctionName(Func::Sin)]),
        Err(RenderError::MissingOperand)
    );
}

#[test]
fn render_fails_on_empty_sequence() {
    assert_eq!(render(&Vec::new()), Err(RenderError::MissingOperand));
}

#[test]
fn render_fails_on_paren_token() {
    assert_eq!(render(&vec![Token::LeftParen]), Err(RenderError::ParenInPostfix));
    assert_eq!(
        render(&vec![num("1"), Token::RightParen]),
        Err(RenderError::ParenInPostfix)
    );
}

#[test]
fn operator_and_function_texts() {
    assert_eq!(Token::Operator(Op::Add), Token::Operator(Op::Add));
    assert_eq!(Op::Mul.text(), "*");
    assert_eq!(Func::Sqrt.text(), "sqrt");
    assert_eq!(Func::Ctg.text(), "ctg");
}
