//! The infix-to-postfix converter: the classic operator-precedence
//! (shunting-yard) reordering with an explicit operator stack.
//!
//! All five operators are treated as left-associative — the stack is
//! popped while its top has priority greater than *or equal to* the
//! incoming operator's — so `2 ^ 3 ^ 2` groups as `(2 ^ 3) ^ 2`.

use vstd::prelude::*;

use crate::token::{spec_priority, Token, TokenModel};

verus! {

/// One run of the shunting-yard conversion, from position `i` with the
/// given output and stack already accumulated. Each recursive step
/// mirrors one move of the executable converter:
/// numbers go straight to the output; an operator first pops every
/// stacked operator of equal or higher priority; function names and
/// opening parentheses are pushed unconditionally; a closing parenthesis
/// pops to the output until an opening one is discarded, then pops a
/// function name if one sits beneath; at the end of input the stack is
/// drained to the output.
pub open spec fn spec_shunt(
    s: Seq<TokenModel>,
    i: int,
    out: Seq<TokenModel>,
    stack: Seq<TokenModel>,
) -> Seq<TokenModel>
    decreases s.len() - i, stack.len(),
{
    if i < 0 {
        out
    } else if i >= s.len() {
        if stack.len() == 0 {
            out
        } else {
            spec_shunt(s, i, out.push(stack.last()), stack.drop_last())
        }
    } else {
        match s[i] {
            TokenModel::Number(_) => spec_shunt(s, i + 1, out.push(s[i]), stack),
            TokenModel::Operator(_) => if stack.len() > 0 && spec_priority(stack.last())
                >= spec_priority(s[i]) {
                spec_shunt(s, i, out.push(stack.last()), stack.drop_last())
            } else {
                spec_shunt(s, i + 1, out, stack.push(s[i]))
            },
            TokenModel::FunctionName(_) => spec_shunt(s, i + 1, out, stack.push(s[i])),
            TokenModel::LeftParen => spec_shunt(s, i + 1, out, stack.push(s[i])),
            TokenModel::RightParen => if stack.len() == 0 {
                spec_shunt(s, i + 1, out, stack)
            } else if stack.last() is LeftParen {
                if stack.len() >= 2 && stack[stack.len() - 2] is FunctionName {
                    spec_shunt(
                        s,
                        i + 1,
                        out.push(stack[stack.len() - 2]),
                        stack.drop_last().drop_last(),
                    )
                } else {
                    spec_shunt(s, i + 1, out, stack.drop_last())
                }
            } else {
                spec_shunt(s, i, out.push(stack.last()), stack.drop_last())
            },
        }
    }
}

/// The postfix form of a token sequence.
pub open spec fn spec_to_postfix(s: Seq<TokenModel>) -> Seq<TokenModel> {
    spec_shunt(s, 0, Seq::empty(), Seq::empty())
}

/// Reorder a token sequence into postfix (Reverse Polish) order.
pub fn to_postfix(tokens: &Vec<Token>) -> (r: Vec<Token>)
    ensures
        r.deep_view() == spec_to_postfix(tokens.deep_view()),
{
    let ghost s = tokens.deep_view();
    let n = tokens.len();
    proof {
        assert(s.len() == n);
    }
    let mut out: Vec<Token> = Vec::new();
    let mut stack: Vec<Token> = Vec::new();
    proof {
        assert(out.deep_view() =~= Seq::<TokenModel>::empty());
        assert(stack.deep_view() =~= Seq::<TokenModel>::empty());
    }
    let mut i: usize = 0;
    while i < n
        invariant
            n == tokens.len(),
            s == tokens.deep_view(),
            s.len() == n,
            i <= n,
            spec_shunt(s, i as int, out.deep_view(), stack.deep_view()) == spec_to_postfix(s),
        decreases n - i,
    {
        match &tokens[i] {
            Token::Number(_) => {
                let ghost out0 = out.deep_view();
                out.push(tokens[i].dup());
                proof {
                    assert(out.deep_view() =~= out0.push(s[i as int]));
                }
            },
            Token::Operator(_) => {
                while stack.len() > 0 && crate::token::priority(&stack[stack.len() - 1])
                    >= crate::token::priority(&tokens[i])
                    invariant
                        n == tokens.len(),
                        s == tokens.deep_view(),
                        s.len() == n,
                        i < n,
                        s[i as int] is Operator,
                        spec_shunt(s, i as int, out.deep_view(), stack.deep_view())
                            == spec_to_postfix(s),
                    decreases stack.len(),
                {
                    let ghost out0 = out.deep_view();
                    let ghost st0 = stack.deep_view();
                    let top = match stack.pop() {
                        Some(t) => t,
                        None => {
                            proof {
                                assert(false);
                            }
                            Token::LeftParen
                        },
                    };
                    out.push(top);
                    proof {
                        assert(out.deep_view() =~= out0.push(st0.last()));
                        assert(stack.deep_view() =~= st0.drop_last());
                    }
                }
                let ghost st0 = stack.deep_view();
                stack.push(tokens[i].dup());
                proof {
                    assert(stack.deep_view() =~= st0.push(s[i as int]));
                }
            },
            Token::FunctionName(_) => {
                let ghost st0 = stack.deep_view();
                stack.push(tokens[i].dup());
                proof {
                    assert(stack.deep_view() =~= st0.push(s[i as int]));
                }
            },
            Token::LeftParen => {
                let ghost st0 = stack.deep_view();
                stack.push(tokens[i].dup());
                proof {
                    assert(stack.deep_view() =~= st0.push(s[i as int]));
                }
            },
            Token::RightParen => {
                loop
                    invariant_except_break
                        spec_shunt(s, i as int, out.deep_view(), stack.deep_view())
                            == spec_to_postfix(s),
                    invariant
                        n == tokens.len(),
                        s == tokens.deep_view(),
                        s.len() == n,
                        i < n,
                        s[i as int] is RightParen,
                    ensures
                        spec_shunt(s, i + 1 as int, out.deep_view(), stack.deep_view())
                            == spec_to_postfix(s),
                    decreases stack.len(),
                {
                    let ghost out0 = out.deep_view();
                    let ghost st0 = stack.deep_view();
                    match stack.pop() {
                        None => {
                            break ;
                        },
                        Some(top) => {
                            proof {
                                assert(stack.deep_view() =~= st0.drop_last());
                                assert(top@ == st0.last());
                            }
                            if top.is_left_paren() {
                                // A function name directly beneath the opening
                                // parenthesis belongs to the closed group.
                                let take_func = stack.len() > 0 && stack[stack.len()
                                    - 1].is_function_name();
                                if take_func {
                                    let ghost st1 = stack.deep_view();
                                    let f = match stack.pop() {
                                        Some(t) => t,
                                        None => {
                                            proof {
                                                assert(false);
                                            }
                                            Token::LeftParen
                                        },
                                    };
                                    out.push(f);
                                    proof {
                                        assert(out.deep_view() =~= out0.push(
                                            st0[st0.len() - 2],
                                        ));
                                        assert(stack.deep_view() =~= st0.drop_last().drop_last());
                                    }
                                }
                                break ;
                            } else {
                                out.push(top);
                                proof {
                                    assert(out.deep_view() =~= out0.push(st0.last()));
                                }
                            }
                        },
                    }
                }
            },
        }
        i = i + 1;
    }
    while stack.len() > 0
        invariant
            s.len() == n,
            spec_shunt(s, n as int, out.deep_view(), stack.deep_view()) == spec_to_postfix(s),
        decreases stack.len(),
    {
        let ghost out0 = out.deep_view();
        let ghost st0 = stack.deep_view();
        let top = match stack.pop() {
            Some(t) => t,
            None => {
                proof {
                    assert(false);
                }
                Token::LeftParen
            },
        };
        out.push(top);
        proof {
            assert(out.deep_view() =~= out0.push(st0.last()));
            assert(stack.deep_view() =~= st0.drop_last());
        }
    }
    out
}

} // verus!
