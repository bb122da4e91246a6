//! The infix renderer: turns any postfix sequence back into a fully
//! parenthesized infix string for display. Every binary operation is
//! parenthesized whether or not the original input wrote the
//! parentheses; a number renders as the numeral it carries.

use vstd::prelude::*;

use crate::token::{func_chars, op_char, Token, TokenModel};

verus! {

/// Why rendering failed: an operator or function name without enough
/// rendered operands beneath it, or a parenthesis token, which has no
/// place in a postfix sequence.
#[derive(Clone, Copy, Debug, PartialEq, Eq, Structural)]
pub enum RenderError {
    MissingOperand,
    ParenInPostfix,
}

/// How one token transforms the stack of rendered substrings.
pub open spec fn render_token(stack: Seq<Seq<char>>, t: TokenModel) -> Result<
    Seq<Seq<char>>,
    RenderError,
> {
    match t {
        TokenModel::Number(text) => Ok(stack.push(text)),
        TokenModel::FunctionName(f) => if stack.len() >= 1 {
            Ok(stack.drop_last().push(func_chars(f) + seq!['('] + stack.last() + seq![')']))
        } else {
            Err(RenderError::MissingOperand)
        },
        TokenModel::Operator(op) => if stack.len() >= 2 {
            Ok(
                stack.drop_last().drop_last().push(
                    seq!['('] + stack[stack.len() - 2] + seq![' '] + seq![op_char(op)] + seq![' ']
                        + stack.last() + seq![')'],
                ),
            )
        } else {
            Err(RenderError::MissingOperand)
        },
        TokenModel::LeftParen => Err(RenderError::ParenInPostfix),
        TokenModel::RightParen => Err(RenderError::ParenInPostfix),
    }
}

/// The stack of rendered substrings after processing `s` from `i` on.
pub open spec fn render_run(s: Seq<TokenModel>, i: int, stack: Seq<Seq<char>>) -> Result<
    Seq<Seq<char>>,
    RenderError,
>
    decreases s.len() - i,
{
    if i < 0 || i >= s.len() {
        Ok(stack)
    } else {
        match render_token(stack, s[i]) {
            Ok(st) => render_run(s, i + 1, st),
            Err(e) => Err(e),
        }
    }
}

/// What rendering a postfix sequence yields: the topmost rendered
/// substring, or the first failure in scan order.
pub open spec fn spec_render(s: Seq<TokenModel>) -> Result<Seq<char>, RenderError> {
    match render_run(s, 0, Seq::empty()) {
        Ok(st) => if st.len() >= 1 {
            Ok(st.last())
        } else {
            Err(RenderError::MissingOperand)
        },
        Err(e) => Err(e),
    }
}

proof fn lemma_render_run_wf(s: Seq<TokenModel>, i: int, stack: Seq<Seq<char>>)
    requires
        crate::eval::wf_postfix(s),
        0 <= i <= s.len(),
        stack.len() == crate::eval::height(s, i),
    ensures
        render_run(s, i, stack) is Ok,
        render_run(s, i, stack)->Ok_0.len() == crate::eval::height(s, s.len() as int),
    decreases s.len() - i,
{
    if i < s.len() {
        match s[i] {
            TokenModel::Number(text) => {
                lemma_render_run_wf(s, i + 1, stack.push(text));
            },
            TokenModel::FunctionName(f) => {
                lemma_render_run_wf(
                    s,
                    i + 1,
                    stack.drop_last().push(func_chars(f) + seq!['('] + stack.last() + seq![')']),
                );
            },
            TokenModel::Operator(op) => {
                lemma_render_run_wf(
                    s,
                    i + 1,
                    stack.drop_last().drop_last().push(
                        seq!['('] + stack[stack.len() - 2] + seq![' '] + seq![op_char(op)]
                            + seq![' '] + stack.last() + seq![')'],
                    ),
                );
            },
            TokenModel::LeftParen => {
                assert(false);
            },
            TokenModel::RightParen => {
                assert(false);
            },
        }
    }
}

/// Rendering cannot fail on a well-formed postfix sequence: every
/// operator and function call finds its operands already rendered, and
/// exactly one rendered string is left at the end.
pub proof fn lemma_wf_render_ok(s: Seq<TokenModel>)
    requires
        crate::eval::wf_postfix(s),
    ensures
        spec_render(s) is Ok,
{
    lemma_render_run_wf(s, 0, Seq::empty());
}

/// Rendering a postfix sequence that is a single number yields exactly
/// that number's numeral, with nothing added around it.
pub proof fn lemma_render_single_number(s: Seq<TokenModel>)
    requires
        s.len() == 1,
        s[0] is Number,
    ensures
        spec_render(s) == Ok::<Seq<char>, RenderError>(s[0]->Number_0),
{
    let st1 = Seq::<Seq<char>>::empty().push(s[0]->Number_0);
    assert(render_run(s, 0, Seq::empty()) == render_run(s, 1, st1));
    assert(render_run(s, 1, st1) == Ok::<Seq<Seq<char>>, RenderError>(st1));
}

/// Render a postfix sequence as a fully parenthesized infix string.
pub fn render(postfix: &Vec<Token>) -> (r: Result<String, RenderError>)
    ensures
        match r {
            Ok(out) => spec_render(postfix.deep_view()) == Ok::<Seq<char>, RenderError>(out@),
            Err(e) => spec_render(postfix.deep_view()) == Err::<Seq<char>, RenderError>(e),
        },
{
    let ghost s = postfix.deep_view();
    let n = postfix.len();
    proof {
        assert(s.len() == n);
    }
    let mut stack: Vec<String> = Vec::new();
    proof {
        assert(stack.deep_view() =~= Seq::<Seq<char>>::empty());
    }
    let mut i: usize = 0;
    while i < n
        invariant
            n == postfix.len(),
            s == postfix.deep_view(),
            s.len() == n,
            i <= n,
            render_run(s, 0, Seq::empty()) == render_run(s, i as int, stack.deep_view()),
        decreases n - i,
    {
        let ghost st0 = stack.deep_view();
        match &postfix[i] {
            Token::Number(text) => {
                stack.push(text.clone());
                proof {
                    assert(stack.deep_view() =~= st0.push(s[i as int]->Number_0));
                }
            },
            Token::FunctionName(f) => {
                match stack.pop() {
                    Some(arg) => {
                        proof {
                            assert(arg@ == st0.last());
                        }
                        let mut b = f.text().to_owned();
                        b.append("(");
                        b.append(arg.as_str());
                        b.append(")");
                        stack.push(b);
                        proof {
                            reveal_strlit("(");
                            reveal_strlit(")");
                            assert("("@ =~= seq!['(']);
                            assert(")"@ =~= seq![')']);
                            assert(stack.deep_view() =~= st0.drop_last().push(
                                func_chars(*f) + seq!['('] + st0.last() + seq![')'],
                            ));
                        }
                    },
                    None => {
                        return Err(RenderError::MissingOperand);
                    },
                }
            },
            Token::Operator(op) => {
                let rhs = match stack.pop() {
                    Some(t) => t,
                    None => {
                        return Err(RenderError::MissingOperand);
                    },
                };
                let lhs = match stack.pop() {
                    Some(t) => t,
                    None => {
                        return Err(RenderError::MissingOperand);
                    },
                };
                proof {
                    assert(rhs@ == st0.last());
                    assert(lhs@ == st0[st0.len() - 2]);
                }
                let mut b = "(".to_owned();
                b.append(lhs.as_str());
                b.append(" ");
                b.append(op.text());
                b.append(" ");
                b.append(rhs.as_str());
                b.append(")");
                stack.push(b);
                proof {
                    reveal_strlit("(");
                    reveal_strlit(")");
                    reveal_strlit(" ");
                    assert("("@ =~= seq!['(']);
                    assert(")"@ =~= seq![')']);
                    assert(" "@ =~= seq![' ']);
                    assert(stack.deep_view() =~= st0.drop_last().drop_last().push(
                        seq!['('] + st0[st0.len() - 2] + seq![' '] + seq![op_char(*op)] + seq![' ']
                            + st0.last() + seq![')'],
                    ));
                }
            },
            Token::LeftParen => {
                return Err(RenderError::ParenInPostfix);
            },
            Token::RightParen => {
                return Err(RenderError::ParenInPostfix);
            },
        }
        i = i + 1;
    }
    let ghost st_end = stack.deep_view();
    match stack.pop() {
        Some(top) => {
            proof {
                assert(top@ == st_end.last());
            }
            Ok(top)
        },
        None => Err(RenderError::MissingOperand),
    }
}

} // verus!
