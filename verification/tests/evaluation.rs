use stepcalc::eval::{evaluate, has_redex, postfix_is_wf, reduce_once, Arith, EvalError};
use stepcalc::lexer::lex;
use stepcalc::postfix::to_postfix;
use stepcalc::token::{Func, Op, Token};

/// The numeric kernel: 64-bit floating point, as the calculator defines
/// its arithmetic (`log` is base ten, `ctg` is the reciprocal tangent).
struct FloatArith;

impl Arith for FloatArith {
    fn apply_op(&self, op: Op, left: &str, right: &str) -> String {
        let a: f64 = left.parse().expect("left operand is a numeral");
        let b: f64 = right.parse().expect("right operand is a numeral");
        let v: f64 = match op {
            Op::Add => a + b,
            Op::Sub => a - b,
            Op::Mul => a * b,
            Op::Div => a / b,
            Op::Pow => a.powf(b),
        };
        v.to_string()
    }

    fn apply_func(&self, f: Func, arg: &str) -> String {
        let x: f64 = arg.parse().expect("operand is a numeral");
        let v: f64 = match f {
            Func::Log => x.log10(),
            Func::Sin => x.sin(),
            Func::Cos => x.cos(),
            Func::Tan => x.tan(),
            Func::Ctg => 1.0 / x.tan(),
            Func::Sqrt => x.sqrt(),
        };
        v.to_string()
    }
}

fn num(text: &str) -> Token {
    Token::Number(text.to_string())
}

/// Run the whole pipeline: the step trace and the final value.
fn run(expr: &str) -> (Vec<String>, String) {
    let tokens = lex(expr).expect("lexes");
    stepcalc::validate::validate(&tokens).expect("valid");
    let postfix = to_postfix(&tokens);
    assert!(postfix_is_wf(&postfix));
    let (lines, fin) = evaluate(postfix, &FloatArith);
    let value = match &fin[0] {
        Token::Number(s) => s.clone(),
        _ => panic!("evaluation did not end at a number"),
    };
    // the last rendering of the trace is the final value itself
    assert_eq!(lines.last().expect("trace is never empty"), &value);
    (lines, value)
}

#[test]
fn precedence_drives_reduction_order() {
    // the product reduces before the sum, and the trace shows it
    let (lines, value) = run("1 + 2 * 3");
    assert_eq!(
        lines,
        vec![
            "(1 + (2 * 3))".to_string(),
            "(1 + 6)".to_string(),
            "7".to_string(),
        ]
    );
    assert_eq!(value, "7");
}

#[test]
fn power_is_left_associative() {
    let (lines, value) = run("2 ^ 3 ^ 2");
    assert_eq!(lines[0], "((2 ^ 3) ^ 2)");
    assert_eq!(value, "64");
}

#[test]
fn function_application() {
    let (lines, value) = run("sqrt(16)");
    assert_eq!(lines, vec!["sqrt(16)".to_string(), "4".to_string()]);
    assert_eq!(value, "4");
}

#[test]
fn division_by_zero_is_infinity() {
    let (_, value) = run("1 / 0");
    assert_eq!(value, "inf");
    let parsed: f64 = value.parse().expect("numeral");
    assert!(parsed.is_infinite());
}

#[test]
fn single_number_takes_no_steps() {
    let (lines, value) = run("42");
    assert_eq!(lines, vec!["42".to_string()]);
    assert_eq!(value, "42");
}

#[test]
fn step_count_is_operator_plus_function_count() {
    // two operators and one function name: three reductions, so the
    // trace holds four renderings
    let (lines, _) = run("1 + 2 * sin(2)");
    assert_eq!(lines.len(), 4);
    // six operators and three function names
    let (lines, _) = run("(1 + 2 * sin(2 + sqrt(log(3 / 2)))) - 4 ^ 2");
    assert_eq!(lines.len(), 10);
}

#[test]
fn arithmetic_operand_order() {
    let (_, difference) = run("5 - 2");
    assert_eq!(difference, "3");
    let (_, quotient) = run("6 / 3");
    assert_eq!(quotient, "2");
    let (_, power) = run("2 ^ 3");
    assert_eq!(power, "8");
}

#[test]
fn mixed_expression_trace() {
    let (lines, value) = run("(1 + 2) * 3");
    assert_eq!(
        lines,
        vec![
            "((1 + 2) * 3)".to_string(),
            "(3 * 3)".to_string(),
            "9".to_string(),
        ]
    );
    assert_eq!(value, "9");
}

#[test]
fn reduce_once_reduces_leftmost() {
    let postfix = to_postfix(&lex("1 + 2 * 3").expect("lexes"));
    let reduced = reduce_once(postfix, &FloatArith).expect("reduces");
    assert_eq!(
        reduced,
        vec![num("1"), num("6"), Token::Operator(Op::Add)]
    );
}

#[test]
fn reduce_once_without_redex_returns_input() {
    let postfix = vec![num("5")];
    assert_eq!(reduce_once(postfix, &FloatArith), Ok(vec![num("5")]));
}

#[test]
fn reduce_once_underflow() {
    assert_eq!(
        reduce_once(vec![Token::Operator(Op::Add)], &FloatArith),
        Err(EvalError::MissingOperands)
    );
    assert_eq!(
        reduce_once(vec![num("1"), Token::Operator(Op::Add)], &FloatArith),
        Err(EvalError::MissingOperands)
    );
    assert_eq!(
        reduce_once(vec![Token::FunctionName(Func::Sin)], &FloatArith),
        Err(EvalError::MissingOperands)
    );
}

#[test]
fn reduce_once_bad_operand() {
    assert_eq!(
        reduce_once(
            vec![Token::LeftParen, Token::LeftParen, Token::Operator(Op::Add)],
            &FloatArith,
        ),
        Err(EvalError::BadOperand)
    );
}

#[test]
fn wf_checker() {
    assert!(postfix_is_wf(&vec![num("1")]));
    assert!(postfix_is_wf(&vec![num("1"), num("2"), Token::Operator(Op::Add)]));
    assert!(postfix_is_wf(&vec![num("1"), Token::FunctionName(Func::Sin)]));
    assert!(!postfix_is_wf(&Vec::new()));
    assert!(!postfix_is_wf(&vec![num("1"), num("2")]));
    assert!(!postfix_is_wf(&vec![Token::LeftParen]));
    assert!(!postfix_is_wf(&vec![num("1"), Token::Operator(Op::Add)]));
}

#[test]
fn redex_detection() {
    assert!(has_redex(&vec![num("1"), num("2"), Token::Operator(Op::Add)]));
    assert!(has_redex(&vec![num("1"), Token::FunctionName(Func::Cos)]));
    assert!(!has_redex(&vec![num("1")]));
    assert!(!has_redex(&Vec::new()));
}

#[test]
fn logarithm_is_base_ten() {
    let (_, value) = run("log(100)");
    assert_eq!(value, "2");
}
