//! The token alphabet of the calculator and its mathematical model.

use vstd::prelude::*;

verus! {

/// A binary operator symbol: one of `+ - * / ^`.
#[derive(Clone, Copy, Debug, PartialEq, Eq)]
pub enum Op {
    Add,
    Sub,
    Mul,
    Div,
    Pow,
}

/// One of the six function names the lexer recognises.
#[derive(Clone, Copy, Debug, PartialEq, Eq)]
pub enum Func {
    Log,
    Sin,
    Cos,
    Tan,
    Ctg,
    Sqrt,
}

/// A lexical token of an arithmetic expression.
///
/// A `Number` carries the decimal numeral exactly as it stood in the
/// input (or as the arithmetic supplied to the evaluator printed it);
/// the library itself never interprets the numeral as a number.
#[derive(Clone, Debug, PartialEq)]
pub enum Token {
    Number(String),
    Operator(Op),
    FunctionName(Func),
    LeftParen,
    RightParen,
}

/// The mathematical model of a token: a numeral is a character sequence.
pub enum TokenModel {
    Number(Seq<char>),
    Operator(Op),
    FunctionName(Func),
    LeftParen,
    RightParen,
}

impl View for Token {
    type V = TokenModel;

    open spec fn view(&self) -> TokenModel {
        match self {
            Token::Number(s) => TokenModel::Number(s@),
            Token::Operator(op) => TokenModel::Operator(*op),
            Token::FunctionName(f) => TokenModel::FunctionName(*f),
            Token::LeftParen => TokenModel::LeftParen,
            Token::RightParen => TokenModel::RightParen,
        }
    }
}

impl DeepView for Token {
    type V = TokenModel;

    open spec fn deep_view(&self) -> TokenModel {
        self.view()
    }
}

impl Token {
    /// An equal copy of the token.
    pub fn dup(&self) -> (t: Token)
        ensures
            t == *self,
    {
        match self {
            Token::Number(s) => Token::Number(s.clone()),
            Token::Operator(op) => Token::Operator(*op),
            Token::FunctionName(f) => Token::FunctionName(*f),
            Token::LeftParen => Token::LeftParen,
            Token::RightParen => Token::RightParen,
        }
    }

    pub fn is_number(&self) -> (b: bool)
        ensures
            b == (self@ is Number),
    {
        match self {
            Token::Number(_) => true,
            _ => false,
        }
    }

    pub fn is_operator(&self) -> (b: bool)
        ensures
            b == (self@ is Operator),
    {
        match self {
            Token::Operator(_) => true,
            _ => false,
        }
    }

    pub fn is_function_name(&self) -> (b: bool)
        ensures
            b == (self@ is FunctionName),
    {
        match self {
            Token::FunctionName(_) => true,
            _ => false,
        }
    }

    pub fn is_left_paren(&self) -> (b: bool)
        ensures
            b == (self@ is LeftParen),
    {
        match self {
            Token::LeftParen => true,
            _ => false,
        }
    }

    pub fn is_right_paren(&self) -> (b: bool)
        ensures
            b == (self@ is RightParen),
    {
        match self {
            Token::RightParen => true,
            _ => false,
        }
    }
}

/// The character an operator is written as.
pub open spec fn op_char(op: Op) -> char {
    match op {
        Op::Add => '+',
        Op::Sub => '-',
        Op::Mul => '*',
        Op::Div => '/',
        Op::Pow => '^',
    }
}

/// The name a function is written as.
pub open spec fn func_chars(f: Func) -> Seq<char> {
    match f {
        Func::Log => seq!['l', 'o', 'g'],
        Func::Sin => seq!['s', 'i', 'n'],
        Func::Cos => seq!['c', 'o', 's'],
        Func::Tan => seq!['t', 'a', 'n'],
        Func::Ctg => seq!['c', 't', 'g'],
        Func::Sqrt => seq!['s', 'q', 'r', 't'],
    }
}

impl Op {
    /// The operator's symbol as a one-character string.
    pub fn text(&self) -> (s: &'static str)
        ensures
            s@ == seq![op_char(*self)],
    {
        match self {
            Op::Add => {
                proof {
                    reveal_strlit("+");
                }
                "+"
            },
            Op::Sub => {
                proof {
                    reveal_strlit("-");
                }
                "-"
            },
            Op::Mul => {
                proof {
                    reveal_strlit("*");
                }
                "*"
            },
            Op::Div => {
                proof {
                    reveal_strlit("/");
                }
                "/"
            },
            Op::Pow => {
                proof {
                    reveal_strlit("^");
                }
                "^"
            },
        }
    }
}

impl Func {
    /// The function's name as a string.
    pub fn text(&self) -> (s: &'static str)
        ensures
            s@ == func_chars(*self),
    {
        match self {
            Func::Log => {
                proof {
                    reveal_strlit("log");
                }
                "log"
            },
            Func::Sin => {
                proof {
                    reveal_strlit("sin");
                }
                "sin"
            },
            Func::Cos => {
                proof {
                    reveal_strlit("cos");
                }
                "cos"
            },
            Func::Tan => {
                proof {
                    reveal_strlit("tan");
                }
                "tan"
            },
            Func::Ctg => {
                proof {
                    reveal_strlit("ctg");
                }
                "ctg"
            },
            Func::Sqrt => {
                proof {
                    reveal_strlit("sqrt");
                }
                "sqrt"
            },
        }
    }
}

/// The precedence rank that drives the infix-to-postfix conversion:
/// `+ -` bind loosest, `* /` tighter, `^` tightest; every token that is
/// not an operator ranks zero, so parentheses and function names are
/// never popped by a precedence comparison.
pub open spec fn spec_priority(t: TokenModel) -> i32 {
    match t {
        TokenModel::Operator(op) => match op {
            Op::Add => 1,
            Op::Sub => 1,
            Op::Mul => 2,
            Op::Div => 2,
            Op::Pow => 3,
        },
        _ => 0,
    }
}

/// The precedence rank of a token.
pub fn priority(t: &Token) -> (p: i32)
    ensures
        p == spec_priority(t@),
{
    match t {
        Token::Operator(op) => match op {
            Op::Add => 1,
            Op::Sub => 1,
            Op::Mul => 2,
            Op::Div => 2,
            Op::Pow => 3,
        },
        _ => 0,
    }
}

} // verus!
