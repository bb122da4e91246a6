//! The lexer: a single left-to-right scan that turns raw text into tokens.
//!
//! Three sub-modes drive the scan: whitespace is skipped; a maximal run
//! of digits and decimal points becomes a `Number` token if it forms a
//! proper numeral (at least one digit, at most one point); a maximal run
//! of letters must name one of the six known functions; any other single
//! character must be one of `+ - * / ^ ( )`.

use vstd::prelude::*;

use crate::token::{Func, Op, Token, TokenModel};

verus! {

/// Why lexing failed: an unparseable numeral, an unknown function name,
/// or a character that is no operator or parenthesis.
#[derive(Clone, Debug, PartialEq)]
pub enum LexError {
    BadNumber(String),
    UnknownFunction(String),
    UnknownSymbol(char),
}

/// The mathematical model of a lexing failure.
pub enum LexErrorModel {
    BadNumber(Seq<char>),
    UnknownFunction(Seq<char>),
    UnknownSymbol(char),
}

impl View for LexError {
    type V = LexErrorModel;

    open spec fn view(&self) -> LexErrorModel {
        match self {
            LexError::BadNumber(s) => LexErrorModel::BadNumber(s@),
            LexError::UnknownFunction(s) => LexErrorModel::UnknownFunction(s@),
            LexError::UnknownSymbol(c) => LexErrorModel::UnknownSymbol(*c),
        }
    }
}

/// An ASCII decimal digit.
pub open spec fn is_digit_char(c: char) -> bool {
    48 <= (c as u32) && (c as u32) <= 57
}

/// A character that may stand inside a numeral: a digit or a point.
pub open spec fn is_number_char(c: char) -> bool {
    is_digit_char(c) || c == '.'
}

/// An ASCII letter.
pub open spec fn is_alpha_char(c: char) -> bool {
    (65 <= (c as u32) && (c as u32) <= 90) || (97 <= (c as u32) && (c as u32) <= 122)
}

/// A character with the Unicode `White_Space` property.
pub open spec fn is_space_char(c: char) -> bool {
    let u = c as u32;
    (9 <= u && u <= 13) || u == 32 || u == 0x85 || u == 0xA0 || u == 0x1680 || (0x2000 <= u
        && u <= 0x200A) || u == 0x2028 || u == 0x2029 || u == 0x202F || u == 0x205F || u == 0x3000
}

/// How many decimal points a character sequence holds.
pub open spec fn count_dots(s: Seq<char>) -> int
    decreases s.len(),
{
    if s.len() == 0 {
        0
    } else {
        count_dots(s.drop_last()) + if s.last() == '.' {
            1int
        } else {
            0int
        }
    }
}

/// How many digits a character sequence holds.
pub open spec fn count_digits(s: Seq<char>) -> int
    decreases s.len(),
{
    if s.len() == 0 {
        0
    } else {
        count_digits(s.drop_last()) + if is_digit_char(s.last()) {
            1int
        } else {
            0int
        }
    }
}

/// A run of digits and points is a proper numeral when it has at least
/// one digit and at most one point; exactly then it denotes a number.
pub open spec fn numeral_ok(s: Seq<char>) -> bool {
    count_dots(s) <= 1 && count_digits(s) >= 1
}

/// The length of the maximal run of numeral characters starting at `i`.
pub open spec fn number_run_len(s: Seq<char>, i: int) -> nat
    decreases s.len() - i,
{
    if i < 0 || i >= s.len() {
        0
    } else if is_number_char(s[i]) {
        1 + number_run_len(s, i + 1)
    } else {
        0
    }
}

/// The length of the maximal run of letters starting at `i`.
pub open spec fn alpha_run_len(s: Seq<char>, i: int) -> nat
    decreases s.len() - i,
{
    if i < 0 || i >= s.len() {
        0
    } else if is_alpha_char(s[i]) {
        1 + alpha_run_len(s, i + 1)
    } else {
        0
    }
}

/// Where the numeral run that starts at `i` ends.
pub open spec fn number_run_end(s: Seq<char>, i: int) -> int {
    if i + 1 + number_run_len(s, i + 1) <= s.len() {
        i + 1 + number_run_len(s, i + 1)
    } else {
        s.len() as int
    }
}

/// Where the letter run that starts at `i` ends.
pub open spec fn alpha_run_end(s: Seq<char>, i: int) -> int {
    if i + 1 + alpha_run_len(s, i + 1) <= s.len() {
        i + 1 + alpha_run_len(s, i + 1)
    } else {
        s.len() as int
    }
}

/// The function a run of letters names, if any.
pub open spec fn func_of(s: Seq<char>) -> Option<Func> {
    if s == crate::token::func_chars(Func::Log) {
        Some(Func::Log)
    } else if s == crate::token::func_chars(Func::Sin) {
        Some(Func::Sin)
    } else if s == crate::token::func_chars(Func::Cos) {
        Some(Func::Cos)
    } else if s == crate::token::func_chars(Func::Tan) {
        Some(Func::Tan)
    } else if s == crate::token::func_chars(Func::Ctg) {
        Some(Func::Ctg)
    } else if s == crate::token::func_chars(Func::Sqrt) {
        Some(Func::Sqrt)
    } else {
        None
    }
}

/// The token a single symbol character stands for, if any.
pub open spec fn symbol_token(c: char) -> Option<TokenModel> {
    if c == '+' {
        Some(TokenModel::Operator(Op::Add))
    } else if c == '-' {
        Some(TokenModel::Operator(Op::Sub))
    } else if c == '*' {
        Some(TokenModel::Operator(Op::Mul))
    } else if c == '/' {
        Some(TokenModel::Operator(Op::Div))
    } else if c == '^' {
        Some(TokenModel::Operator(Op::Pow))
    } else if c == '(' {
        Some(TokenModel::LeftParen)
    } else if c == ')' {
        Some(TokenModel::RightParen)
    } else {
        None
    }
}

/// What lexing the suffix of `s` that starts at `i` yields.
pub open spec fn spec_lex_from(s: Seq<char>, i: int) -> Result<Seq<TokenModel>, LexErrorModel>
    decreases s.len() - i,
{
    if i < 0 || i >= s.len() {
        Ok(Seq::empty())
    } else if is_space_char(s[i]) {
        spec_lex_from(s, i + 1)
    } else if is_number_char(s[i]) {
        let j = number_run_end(s, i);
        let text = s.subrange(i, j);
        if numeral_ok(text) {
            match spec_lex_from(s, j) {
                Ok(rest) => Ok(seq![TokenModel::Number(text)] + rest),
                Err(e) => Err(e),
            }
        } else {
            Err(LexErrorModel::BadNumber(text))
        }
    } else if is_alpha_char(s[i]) {
        let j = alpha_run_end(s, i);
        let text = s.subrange(i, j);
        match func_of(text) {
            Some(f) => match spec_lex_from(s, j) {
                Ok(rest) => Ok(seq![TokenModel::FunctionName(f)] + rest),
                Err(e) => Err(e),
            },
            None => Err(LexErrorModel::UnknownFunction(text)),
        }
    } else {
        match symbol_token(s[i]) {
            Some(t) => match spec_lex_from(s, i + 1) {
                Ok(rest) => Ok(seq![t] + rest),
                Err(e) => Err(e),
            },
            None => Err(LexErrorModel::UnknownSymbol(s[i])),
        }
    }
}

/// What lexing a text yields: the token sequence, or the first failure.
pub open spec fn spec_lex(s: Seq<char>) -> Result<Seq<TokenModel>, LexErrorModel> {
    spec_lex_from(s, 0)
}

/// The tokens already made, together with what lexing must still yield
/// for the rest of the text, determine what lexing the whole text yields.
spec fn lex_continues(s: Seq<char>, i: int, done: Seq<TokenModel>) -> bool {
    match spec_lex_from(s, i) {
        Ok(rest) => spec_lex(s) == Ok::<Seq<TokenModel>, LexErrorModel>(done + rest),
        Err(e) => spec_lex(s) == Err::<Seq<TokenModel>, LexErrorModel>(e),
    }
}

fn digit_char(c: char) -> (b: bool)
    ensures
        b == is_digit_char(c),
{
    let u: u32 = c as u32;
    48 <= u && u <= 57
}

fn number_char(c: char) -> (b: bool)
    ensures
        b == is_number_char(c),
{
    digit_char(c) || c == '.'
}

fn alpha_char(c: char) -> (b: bool)
    ensures
        b == is_alpha_char(c),
{
    let u: u32 = c as u32;
    (65 <= u && u <= 90) || (97 <= u && u <= 122)
}

fn space_char(c: char) -> (b: bool)
    ensures
        b == is_space_char(c),
{
    let u: u32 = c as u32;
    (9 <= u && u <= 13) || u == 32 || u == 0x85 || u == 0xA0 || u == 0x1680 || (0x2000 <= u
        && u <= 0x200A) || u == 0x2028 || u == 0x2029 || u == 0x202F || u == 0x205F || u == 0x3000
}

proof fn lemma_number_run(s: Seq<char>, i: int, j: int)
    requires
        0 <= i <= j <= s.len(),
        forall|k: int| i <= k < j ==> is_number_char(s[k]),
        j == s.len() || !is_number_char(s[j]),
    ensures
        number_run_len(s, i) == j - i,
    decreases j - i,
{
    if i < j {
        lemma_number_run(s, i + 1, j);
    }
}

proof fn lemma_alpha_run(s: Seq<char>, i: int, j: int)
    requires
        0 <= i <= j <= s.len(),
        forall|k: int| i <= k < j ==> is_alpha_char(s[k]),
        j == s.len() || !is_alpha_char(s[j]),
    ensures
        alpha_run_len(s, i) == j - i,
    decreases j - i,
{
    if i < j {
        lemma_alpha_run(s, i + 1, j);
    }
}

/// Recognise which function a letter run names.
fn match_func(text: &str) -> (r: Option<Func>)
    ensures
        r == func_of(text@),
{
    let n = text.unicode_len();
    if n == 3 {
        let c0 = text.get_char(0);
        let c1 = text.get_char(1);
        let c2 = text.get_char(2);
        if c0 == 'l' && c1 == 'o' && c2 == 'g' {
            proof {
                assert(text@ =~= crate::token::func_chars(Func::Log));
            }
            Some(Func::Log)
        } else if c0 == 's' && c1 == 'i' && c2 == 'n' {
            proof {
                assert(text@ =~= crate::token::func_chars(Func::Sin));
            }
            Some(Func::Sin)
        } else if c0 == 'c' && c1 == 'o' && c2 == 's' {
            proof {
                assert(text@ =~= crate::token::func_chars(Func::Cos));
            }
            Some(Func::Cos)
        } else if c0 == 't' && c1 == 'a' && c2 == 'n' {
            proof {
                assert(text@ =~= crate::token::func_chars(Func::Tan));
            }
            Some(Func::Tan)
        } else if c0 == 'c' && c1 == 't' && c2 == 'g' {
            proof {
                assert(text@ =~= crate::token::func_chars(Func::Ctg));
            }
            Some(Func::Ctg)
        } else {
            None
        }
    } else if n == 4 {
        let c0 = text.get_char(0);
        let c1 = text.get_char(1);
        let c2 = text.get_char(2);
        let c3 = text.get_char(3);
        if c0 == 's' && c1 == 'q' && c2 == 'r' && c3 == 't' {
            proof {
                assert(text@ =~= crate::token::func_chars(Func::Sqrt));
            }
            Some(Func::Sqrt)
        } else {
            None
        }
    } else {
        None
    }
}

/// Convert raw text into a token sequence, or report the first offending
/// piece of text.
pub fn lex(text: &str) -> (r: Result<Vec<Token>, LexError>)
    ensures
        match r {
            Ok(v) => spec_lex(text@) == Ok::<Seq<TokenModel>, LexErrorModel>(v.deep_view()),
            Err(e) => spec_lex(text@) == Err::<Seq<TokenModel>, LexErrorModel>(e@),
        },
{
    let ghost s = text@;
    let n = text.unicode_len();
    let mut i: usize = 0;
    let mut out: Vec<Token> = Vec::new();
    while i < n
        invariant
            n == s.len(),
            text@ == s,
            i <= n,
            lex_continues(s, i as int, out.deep_view()),
        decreases n - i,
    {
        let ghost out_before = out.deep_view();
        let c = text.get_char(i);
        if space_char(c) {
            i = i + 1;
        } else if number_char(c) {
            let mut j: usize = i;
            let mut dots: usize = 0;
            let mut digits: usize = 0;
            while j < n && number_char(text.get_char(j))
                invariant
                    n == s.len(),
                    text@ == s,
                    i <= j <= n,
                    forall|k: int| i <= k < j ==> is_number_char(s[k]),
                    dots == count_dots(s.subrange(i as int, j as int)),
                    digits == count_digits(s.subrange(i as int, j as int)),
                    dots + digits <= j - i,
                decreases n - j,
            {
                let cj = text.get_char(j);
                proof {
                    assert(s.subrange(i as int, j + 1 as int) =~= s.subrange(
                        i as int,
                        j as int,
                    ).push(s[j as int]));
                    assert(s.subrange(i as int, j + 1 as int).drop_last() =~= s.subrange(
                        i as int,
                        j as int,
                    ));
                }
                if cj == '.' {
                    dots = dots + 1;
                } else {
                    digits = digits + 1;
                }
                j = j + 1;
            }
            proof {
                lemma_number_run(s, i as int, j as int);
            }
            let piece = text.substring_char(i, j);
            if dots <= 1 && digits >= 1 {
                out.push(Token::Number(piece.to_owned()));
                proof {
                    assert(out.deep_view() =~= out_before + seq![
                        TokenModel::Number(s.subrange(i as int, j as int)),
                    ]);
                    if let Ok(rest) = spec_lex_from(s, j as int) {
                        assert(out_before + (seq![
                            TokenModel::Number(s.subrange(i as int, j as int)),
                        ] + rest) =~= out.deep_view() + rest);
                    }
                }
                i = j;
            } else {
                return Err(LexError::BadNumber(piece.to_owned()));
            }
        } else if alpha_char(c) {
            let mut j: usize = i;
            while j < n && alpha_char(text.get_char(j))
                invariant
                    n == s.len(),
                    text@ == s,
                    i <= j <= n,
                    forall|k: int| i <= k < j ==> is_alpha_char(s[k]),
                decreases n - j,
            {
                j = j + 1;
            }
            proof {
                lemma_alpha_run(s, i as int, j as int);
            }
            let piece = text.substring_char(i, j);
            match match_func(piece) {
                Some(f) => {
                    out.push(Token::FunctionName(f));
                    proof {
                        assert(out.deep_view() =~= out_before + seq![TokenModel::FunctionName(f)]);
                        if let Ok(rest) = spec_lex_from(s, j as int) {
                            assert(out_before + (seq![TokenModel::FunctionName(f)] + rest)
                                =~= out.deep_view() + rest);
                        }
                    }
                    i = j;
                },
                None => {
                    return Err(LexError::UnknownFunction(piece.to_owned()));
                },
            }
        } else {
            let tok = match c {
                '+' => Token::Operator(Op::Add),
                '-' => Token::Operator(Op::Sub),
                '*' => Token::Operator(Op::Mul),
                '/' => Token::Operator(Op::Div),
                '^' => Token::Operator(Op::Pow),
                '(' => Token::LeftParen,
                ')' => Token::RightParen,
                _ => {
                    return Err(LexError::UnknownSymbol(c));
                },
            };
            out.push(tok);
            proof {
                assert(out.deep_view() =~= out_before + seq![symbol_token(s[i as int])->Some_0]);
                if let Ok(rest) = spec_lex_from(s, i + 1 as int) {
                    assert(out_before + (seq![symbol_token(s[i as int])->Some_0] + rest)
                        =~= out.deep_view() + rest);
                }
            }
            i = i + 1;
        }
    }
    proof {
        assert(out.deep_view() + Seq::<TokenModel>::empty() =~= out.deep_view());
    }
    Ok(out)
}

} // verus!
