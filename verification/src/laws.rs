//! The global laws of the pipeline: what the infix-to-postfix
//! conversion guarantees about its output for every structurally valid
//! expression, proved once and for all over the specification of the
//! converter.

use vstd::prelude::*;

use crate::eval::{
    first_redex, height, height_delta, is_redex, lemma_reduce_preserves_wf,
    lemma_wf_no_redex_single, redex_count, reduce_outcome, wf_postfix,
};
use crate::postfix::{spec_shunt, spec_to_postfix};
use crate::token::{spec_priority, TokenModel};
use crate::validate::{
    balanced_prefixes, paren_count, paren_depth, token_ok_at, valid_tokens,
};

verus! {

/// How many operator and function-name tokens stand among the first `k`.
pub open spec fn redex_prefix(s: Seq<TokenModel>, k: int) -> int
    decreases k,
{
    if k <= 0 {
        0
    } else {
        redex_prefix(s, k - 1) + if is_redex(s[k - 1]) {
            1int
        } else {
            0int
        }
    }
}

proof fn lemma_redex_prefix_eq(s: Seq<TokenModel>, k: int)
    requires
        0 <= k <= s.len(),
    ensures
        redex_prefix(s, k) == redex_count(s.subrange(0, k)),
    decreases k,
{
    if k > 0 {
        lemma_redex_prefix_eq(s, k - 1);
        assert(s.subrange(0, k).drop_last() =~= s.subrange(0, k - 1));
        assert(s.subrange(0, k).last() == s[k - 1]);
    }
}

/// The number of reduction steps a sequence takes equals the number of
/// operator and function-name tokens it holds.
pub proof fn lemma_redex_count_is_prefix(s: Seq<TokenModel>)
    ensures
        redex_count(s) == redex_prefix(s, s.len() as int),
{
    lemma_redex_prefix_eq(s, s.len() as int);
    assert(s.subrange(0, s.len() as int) =~= s);
}

/// The converter's stack only ever holds operators, function names and
/// opening parentheses.
spec fn stack_ok(stack: Seq<TokenModel>) -> bool {
    forall|k: int|
        0 <= k < stack.len() ==> (#[trigger] stack[k] is Operator || stack[k] is FunctionName
            || stack[k] is LeftParen)
}

/// How many opening parentheses the stack holds.
spec fn lp_count(stack: Seq<TokenModel>) -> int
    decreases stack.len(),
{
    if stack.len() == 0 {
        0
    } else {
        lp_count(stack.drop_last()) + if stack.last() is LeftParen {
            1int
        } else {
            0int
        }
    }
}

/// How many binary operators the stack holds.
spec fn bin_count(stack: Seq<TokenModel>) -> int
    decreases stack.len(),
{
    if stack.len() == 0 {
        0
    } else {
        bin_count(stack.drop_last()) + if stack.last() is Operator {
            1int
        } else {
            0int
        }
    }
}

proof fn lemma_lp_le_len(stack: Seq<TokenModel>)
    ensures
        0 <= lp_count(stack) <= stack.len(),
    decreases stack.len(),
{
    if stack.len() > 0 {
        lemma_lp_le_len(stack.drop_last());
    }
}

proof fn lemma_count_push(stack: Seq<TokenModel>, t: TokenModel)
    ensures
        lp_count(stack.push(t)) == lp_count(stack) + if t is LeftParen {
            1int
        } else {
            0int
        },
        bin_count(stack.push(t)) == bin_count(stack) + if t is Operator {
            1int
        } else {
            0int
        },
{
    assert(stack.push(t).drop_last() =~= stack);
    assert(stack.push(t).last() == t);
}

proof fn lemma_redex_count_push(out: Seq<TokenModel>, t: TokenModel)
    ensures
        redex_count(out.push(t)) == redex_count(out) + if is_redex(t) {
            1int
        } else {
            0int
        },
{
    assert(out.push(t).drop_last() =~= out);
    assert(out.push(t).last() == t);
}

proof fn lemma_height_prefix_stable(a: Seq<TokenModel>, b: Seq<TokenModel>, k: int)
    requires
        0 <= k <= a.len(),
        k <= b.len(),
        forall|j: int| 0 <= j < k ==> a[j] == b[j],
    ensures
        height(a, k) == height(b, k),
    decreases k,
{
    if k > 0 {
        lemma_height_prefix_stable(a, b, k - 1);
    }
}

/// The output of the conversion holds every non-parenthesis token of the
/// input and nothing else: one length-and-count bookkeeping induction
/// over the converter's moves.
proof fn lemma_shunt_counts(
    s: Seq<TokenModel>,
    i: int,
    out: Seq<TokenModel>,
    stack: Seq<TokenModel>,
)
    requires
        0 <= i <= s.len(),
        stack_ok(stack),
        lp_count(stack) == paren_depth(s, i),
        paren_depth(s, s.len() as int) == 0,
        forall|k: int| i <= k <= s.len() ==> paren_depth(s, k) >= 0,
    ensures
        spec_shunt(s, i, out, stack).len() == out.len() + (stack.len() - lp_count(stack)) + (
        s.len() - i) - (paren_count(s, s.len() as int) - paren_count(s, i)),
        redex_count(spec_shunt(s, i, out, stack)) == redex_count(out) + (stack.len() - lp_count(
            stack,
        )) + (redex_prefix(s, s.len() as int) - redex_prefix(s, i)),
        (forall|k: int|
            0 <= k < out.len() ==> !(#[trigger] out[k] is LeftParen) && !(out[k] is RightParen))
            ==> (forall|k: int|
            0 <= k < spec_shunt(s, i, out, stack).len() ==> !(#[trigger] spec_shunt(
                s,
                i,
                out,
                stack,
            )[k] is LeftParen) && !(spec_shunt(s, i, out, stack)[k] is RightParen)),
    decreases s.len() - i, stack.len(),
{
    lemma_lp_le_len(stack);
    if i >= s.len() {
        if stack.len() == 0 {
        } else {
            assert(lp_count(stack) == 0);
            assert(stack.last() is Operator || stack.last() is FunctionName || stack.last()
                is LeftParen);
            if stack.last() is LeftParen {
                assert(lp_count(stack) >= 1) by {
                    lemma_lp_le_len(stack.drop_last());
                }
                assert(false);
            }
            assert(stack_ok(stack.drop_last()));
            lemma_redex_count_push(out, stack.last());
            lemma_shunt_counts(s, i, out.push(stack.last()), stack.drop_last());
        }
    } else {
        match s[i] {
            TokenModel::Number(_) => {
                lemma_redex_count_push(out, s[i]);
                lemma_shunt_counts(s, i + 1, out.push(s[i]), stack);
            },
            TokenModel::Operator(_) => {
                if stack.len() > 0 && spec_priority(stack.last()) >= spec_priority(s[i]) {
                    assert(spec_priority(s[i]) >= 1);
                    assert(stack.last() is Operator);
                    assert(stack_ok(stack.drop_last()));
                    lemma_redex_count_push(out, stack.last());
                    lemma_shunt_counts(s, i, out.push(stack.last()), stack.drop_last());
                } else {
                    lemma_count_push(stack, s[i]);
                    lemma_shunt_counts(s, i + 1, out, stack.push(s[i]));
                }
            },
            TokenModel::FunctionName(_) => {
                lemma_count_push(stack, s[i]);
                lemma_shunt_counts(s, i + 1, out, stack.push(s[i]));
            },
            TokenModel::LeftParen => {
                lemma_count_push(stack, s[i]);
                lemma_shunt_counts(s, i + 1, out, stack.push(s[i]));
            },
            TokenModel::RightParen => {
                assert(paren_depth(s, i + 1) == paren_depth(s, i) - 1);
                assert(paren_depth(s, i + 1) >= 0);
                assert(lp_count(stack) >= 1);
                if stack.len() == 0 {
                    assert(false);
                } else if stack.last() is LeftParen {
                    if stack.len() >= 2 && stack[stack.len() - 2] is FunctionName {
                        let st2 = stack.drop_last().drop_last();
                        assert(stack.drop_last().last() == stack[stack.len() - 2]);
                        assert(lp_count(stack) == lp_count(stack.drop_last()) + 1);
                        assert(lp_count(stack.drop_last()) == lp_count(st2));
                        assert(bin_count(stack) == bin_count(stack.drop_last()));
                        assert(bin_count(stack.drop_last()) == bin_count(st2));
                        assert(stack_ok(st2));
                        lemma_redex_count_push(out, stack[stack.len() - 2]);
                        lemma_shunt_counts(s, i + 1, out.push(stack[stack.len() - 2]), st2);
                    } else {
                        assert(stack_ok(stack.drop_last()));
                        lemma_shunt_counts(s, i + 1, out, stack.drop_last());
                    }
                } else {
                    assert(stack_ok(stack.drop_last()));
                    lemma_redex_count_push(out, stack.last());
                    lemma_shunt_counts(s, i, out.push(stack.last()), stack.drop_last());
                }
            },
        }
    }
}

/// For every expression whose parentheses balance — in particular every
/// structurally valid one — the postfix form holds exactly the
/// non-parenthesis tokens of the input: its length is the input's token
/// count minus its parenthesis count, it holds no parenthesis itself,
/// and it holds exactly the input's operators and function names.
pub proof fn lemma_postfix_length(s: Seq<TokenModel>)
    requires
        paren_depth(s, s.len() as int) == 0,
        balanced_prefixes(s),
    ensures
        spec_to_postfix(s).len() + paren_count(s, s.len() as int) == s.len(),
        redex_count(spec_to_postfix(s)) == redex_prefix(s, s.len() as int),
        forall|k: int|
            0 <= k < spec_to_postfix(s).len() ==> !(#[trigger] spec_to_postfix(s)[k] is LeftParen)
                && !(spec_to_postfix(s)[k] is RightParen),
{
    lemma_shunt_counts(s, 0, Seq::empty(), Seq::empty());
}

/// Whether the scan at position `i` has just completed an operand (a
/// number or a closed group), so that one more operand than every
/// stacked operator demands is already rendered to the output.
spec fn operand_done(s: Seq<TokenModel>, i: int) -> int {
    if i <= 0 {
        0
    } else if s[i - 1] is Number || s[i - 1] is RightParen {
        1
    } else {
        0
    }
}

/// Every function name inside the converter's stack sits directly below
/// an opening parenthesis, except a just-pushed one whose parenthesis is
/// the very next input token.
spec fn funcs_below_parens(s: Seq<TokenModel>, i: int, stack: Seq<TokenModel>) -> bool {
    forall|k: int|
        0 <= k < stack.len() && #[trigger] stack[k] is FunctionName ==> ((k + 1 < stack.len()
            && stack[k + 1] is LeftParen) || (k == stack.len() - 1 && i >= 1 && s[i - 1]
            is FunctionName))
}

/// The prefix of a well-formed postfix sequence that the converter has
/// already emitted: no parentheses, and every operator and function
/// name it holds found its operands.
spec fn out_prefix_wf(out: Seq<TokenModel>) -> bool {
    &&& forall|k: int|
        0 <= k < out.len() ==> !(#[trigger] out[k] is LeftParen) && !(out[k] is RightParen)
    &&& forall|k: int| 0 <= k < out.len() && #[trigger] out[k] is Operator ==> height(out, k) >= 2
    &&& forall|k: int|
        0 <= k < out.len() && #[trigger] out[k] is FunctionName ==> height(out, k) >= 1
}

proof fn lemma_out_push_wf(out: Seq<TokenModel>, t: TokenModel)
    requires
        out_prefix_wf(out),
        !(t is LeftParen),
        !(t is RightParen),
        t is Operator ==> height(out, out.len() as int) >= 2,
        t is FunctionName ==> height(out, out.len() as int) >= 1,
    ensures
        out_prefix_wf(out.push(t)),
        height(out.push(t), out.push(t).len() as int) == height(out, out.len() as int)
            + height_delta(t),
{
    let o2 = out.push(t);
    assert forall|k: int| 0 <= k <= out.len() implies height(o2, k) == height(out, k) by {
        lemma_height_prefix_stable(out, o2, k);
    }
    assert(height(o2, o2.len() as int) == height(o2, out.len() as int) + height_delta(
        o2[out.len() as int],
    ));
}

/// The converter's intermediate state fits the input: the stack mirrors
/// the open parentheses, the output is a well-formed prefix, and its
/// operand surplus matches the stacked operators plus the operand the
/// scan has just completed.
spec fn shunt_inv(s: Seq<TokenModel>, i: int, out: Seq<TokenModel>, stack: Seq<TokenModel>) -> bool {
    &&& valid_tokens(s)
    &&& balanced_prefixes(s)
    &&& s.len() > 0
    &&& 0 <= i <= s.len()
    &&& stack_ok(stack)
    &&& lp_count(stack) == paren_depth(s, i)
    &&& funcs_below_parens(s, i, stack)
    &&& out_prefix_wf(out)
    &&& height(out, out.len() as int) == bin_count(stack) + operand_done(s, i)
}

proof fn lemma_expect_operand(s: Seq<TokenModel>, i: int)
    requires
        valid_tokens(s),
        0 <= i < s.len(),
        s[i] is Number || s[i] is FunctionName || s[i] is LeftParen,
    ensures
        operand_done(s, i) == 0,
{
    if i >= 1 {
        assert(token_ok_at(s, i - 1));
    }
}

proof fn lemma_expect_operator(s: Seq<TokenModel>, i: int)
    requires
        valid_tokens(s),
        0 <= i < s.len(),
        s[i] is Operator || s[i] is RightParen,
    ensures
        operand_done(s, i) == 1,
        i >= 1,
        s[i - 1] is Number || s[i - 1] is RightParen,
{
    assert(token_ok_at(s, i));
}

proof fn lemma_prev_not_func(s: Seq<TokenModel>, i: int)
    requires
        valid_tokens(s),
        0 <= i <= s.len(),
        i < s.len() ==> !(s[i] is LeftParen),
        i == s.len() ==> s.len() > 0,
    ensures
        i >= 1 ==> !(s[i - 1] is FunctionName),
{
    if i >= 1 {
        assert(token_ok_at(s, i - 1));
    }
}

proof fn step_number(s: Seq<TokenModel>, i: int, out: Seq<TokenModel>, stack: Seq<TokenModel>)
    requires
        shunt_inv(s, i, out, stack),
        i < s.len(),
        s[i] is Number,
    ensures
        shunt_inv(s, i + 1, out.push(s[i]), stack),
{
    lemma_expect_operand(s, i);
    lemma_prev_not_func(s, i);
    lemma_out_push_wf(out, s[i]);
    assert(paren_depth(s, i + 1) == paren_depth(s, i));
    assert(operand_done(s, i + 1) == 1);
    assert(funcs_below_parens(s, i + 1, stack)) by {
        assert forall|k: int|
            0 <= k < stack.len() && #[trigger] stack[k] is FunctionName implies (k + 1
            < stack.len() && stack[k + 1] is LeftParen) by {
            assert(funcs_below_parens(s, i, stack));
            assert(stack[k] is FunctionName);
        }
    }
}

proof fn step_op_pop(s: Seq<TokenModel>, i: int, out: Seq<TokenModel>, stack: Seq<TokenModel>)
    requires
        shunt_inv(s, i, out, stack),
        i < s.len(),
        s[i] is Operator || s[i] is RightParen,
        stack.len() > 0,
        stack.last() is Operator,
    ensures
        shunt_inv(s, i, out.push(stack.last()), stack.drop_last()),
{
    lemma_expect_operator(s, i);
    lemma_bin_nonneg(stack.drop_last());
    assert(bin_count(stack) == bin_count(stack.drop_last()) + 1);
    assert(lp_count(stack) == lp_count(stack.drop_last()));
    lemma_out_push_wf(out, stack.last());
    assert(stack_ok(stack.drop_last()));
    assert(funcs_below_parens(s, i, stack.drop_last())) by {
        assert forall|k: int|
            0 <= k < stack.len() - 1 && #[trigger] stack.drop_last()[k] is FunctionName implies (k
            + 1 < stack.len() - 1 && stack.drop_last()[k + 1] is LeftParen) by {
            assert(stack[k] is FunctionName);
            assert(k + 1 < stack.len() && stack[k + 1] is LeftParen);
            if k + 1 == stack.len() - 1 {
                assert(stack.last() is LeftParen);
                assert(false);
            }
        }
    }
}

proof fn step_push(s: Seq<TokenModel>, i: int, out: Seq<TokenModel>, stack: Seq<TokenModel>)
    requires
        shunt_inv(s, i, out, stack),
        i < s.len(),
        s[i] is Operator || s[i] is FunctionName || s[i] is LeftParen,
    ensures
        shunt_inv(s, i + 1, out, stack.push(s[i])),
{
    lemma_count_push(stack, s[i]);
    if s[i] is Operator {
        lemma_expect_operator(s, i);
        lemma_prev_not_func(s, i);
        assert(operand_done(s, i + 1) == 0);
    } else {
        lemma_expect_operand(s, i);
        assert(operand_done(s, i + 1) == 0);
    }
    if !(s[i] is LeftParen) {
        lemma_prev_not_func(s, i);
    }
    assert(paren_depth(s, i + 1) == paren_depth(s, i) + if s[i] is LeftParen { 1int } else { 0int });
    let st2 = stack.push(s[i]);
    assert(funcs_below_parens(s, i + 1, st2)) by {
        assert forall|k: int|
            0 <= k < st2.len() && #[trigger] st2[k] is FunctionName implies ((k + 1 < st2.len()
            && st2[k + 1] is LeftParen) || (k == st2.len() - 1 && s[i] is FunctionName)) by {
            if k < stack.len() {
                assert(stack[k] is FunctionName);
                if !(k + 1 < stack.len() && stack[k + 1] is LeftParen) {
                    // the lone exception: a function name at the old top,
                    // whose opening parenthesis is the token pushed now
                    assert(k == stack.len() - 1 && i >= 1 && s[i - 1] is FunctionName);
                    assert(token_ok_at(s, i - 1));
                    assert(s[i] is LeftParen);
                    assert(st2[k + 1] is LeftParen);
                }
            }
        }
    }
}

#[verifier::rlimit(60)]
proof fn step_rp_close(s: Seq<TokenModel>, i: int, out: Seq<TokenModel>, stack: Seq<TokenModel>)
    requires
        shunt_inv(s, i, out, stack),
        i < s.len(),
        s[i] is RightParen,
        stack.len() > 0,
        stack.last() is LeftParen,
    ensures
        stack.len() >= 2 && stack[stack.len() - 2] is FunctionName ==> shunt_inv(
            s,
            i + 1,
            out.push(stack[stack.len() - 2]),
            stack.drop_last().drop_last(),
        ),
        !(stack.len() >= 2 && stack[stack.len() - 2] is FunctionName) ==> shunt_inv(
            s,
            i + 1,
            out,
            stack.drop_last(),
        ),
{
    lemma_expect_operator(s, i);
    lemma_prev_not_func(s, i);
    assert(paren_depth(s, i + 1) == paren_depth(s, i) - 1);
    assert(operand_done(s, i + 1) == 1);
    assert(lp_count(stack) == lp_count(stack.drop_last()) + 1);
    assert(bin_count(stack) == bin_count(stack.drop_last()));
    if stack.len() >= 2 && stack[stack.len() - 2] is FunctionName {
        let st2 = stack.drop_last().drop_last();
        assert(stack.drop_last().last() == stack[stack.len() - 2]);
        assert(lp_count(stack.drop_last()) == lp_count(st2));
        assert(bin_count(stack.drop_last()) == bin_count(st2));
        lemma_bin_nonneg(stack);
        lemma_out_push_wf(out, stack[stack.len() - 2]);
        assert(stack_ok(st2));
        assert(funcs_below_parens(s, i + 1, st2)) by {
            assert forall|k: int|
                0 <= k < st2.len() && #[trigger] st2[k] is FunctionName implies (k + 1 < st2.len()
                && st2[k + 1] is LeftParen) by {
                assert(stack[k] is FunctionName);
                assert(k + 1 < stack.len() && stack[k + 1] is LeftParen);
                if k + 1 == stack.len() - 2 {
                    assert(stack[k + 1] is FunctionName);
                    assert(false);
                }
            }
        }
    } else {
        assert(stack_ok(stack.drop_last()));
        assert(funcs_below_parens(s, i + 1, stack.drop_last())) by {
            assert forall|k: int|
                0 <= k < stack.len() - 1 && #[trigger] stack.drop_last()[k] is FunctionName
                implies (k + 1 < stack.len() - 1 && stack.drop_last()[k + 1] is LeftParen) by {
                assert(stack[k] is FunctionName);
                assert(k + 1 < stack.len() && stack[k + 1] is LeftParen);
                if k + 1 == stack.len() - 1 {
                    assert(k == stack.len() - 2);
                    assert(false);
                }
            }
        }
    }
}

proof fn step_drain(s: Seq<TokenModel>, i: int, out: Seq<TokenModel>, stack: Seq<TokenModel>)
    requires
        shunt_inv(s, i, out, stack),
        i >= s.len(),
        stack.len() > 0,
    ensures
        shunt_inv(s, i, out.push(stack.last()), stack.drop_last()),
{
    assert(token_ok_at(s, s.len() - 1));
    assert(operand_done(s, i) == 1);
    assert(lp_count(stack) == paren_depth(s, s.len() as int));
    if stack.last() is LeftParen {
        lemma_lp_le_len(stack.drop_last());
        assert(lp_count(stack) >= 1);
        assert(false);
    }
    if stack.last() is FunctionName {
        lemma_prev_not_func(s, i);
        assert(stack.len() - 1 + 1 < stack.len());
        assert(false);
    }
    assert(stack.last() is Operator);
    lemma_bin_nonneg(stack.drop_last());
    assert(bin_count(stack) == bin_count(stack.drop_last()) + 1);
    assert(lp_count(stack) == lp_count(stack.drop_last()));
    lemma_out_push_wf(out, stack.last());
    assert(stack_ok(stack.drop_last()));
    assert(funcs_below_parens(s, i, stack.drop_last())) by {
        assert forall|k: int|
            0 <= k < stack.len() - 1 && #[trigger] stack.drop_last()[k] is FunctionName implies (k
            + 1 < stack.len() - 1 && stack.drop_last()[k + 1] is LeftParen) by {
            assert(stack[k] is FunctionName);
            lemma_prev_not_func(s, i);
            assert(k + 1 < stack.len() && stack[k + 1] is LeftParen);
            if k + 1 == stack.len() - 1 {
                assert(stack.last() is LeftParen);
                assert(false);
            }
        }
    }
}

/// The heart of the conversion's correctness: from any intermediate
/// state whose output, stack and remaining input fit together, the
/// conversion of a structurally valid expression ends in a well-formed
/// postfix sequence. One induction over the converter's moves.
proof fn lemma_shunt_wf(s: Seq<TokenModel>, i: int, out: Seq<TokenModel>, stack: Seq<TokenModel>)
    requires
        shunt_inv(s, i, out, stack),
    ensures
        wf_postfix(spec_shunt(s, i, out, stack)),
    decreases s.len() - i, stack.len(),
{
    if i >= s.len() {
        if stack.len() == 0 {
            assert(token_ok_at(s, s.len() - 1));
            assert(operand_done(s, i) == 1);
            assert(height(out, out.len() as int) == 1);
            assert(spec_shunt(s, i, out, stack) == out);
        } else {
            step_drain(s, i, out, stack);
            lemma_shunt_wf(s, i, out.push(stack.last()), stack.drop_last());
        }
    } else {
        match s[i] {
            TokenModel::Number(_) => {
                step_number(s, i, out, stack);
                lemma_shunt_wf(s, i + 1, out.push(s[i]), stack);
            },
            TokenModel::Operator(_) => {
                if stack.len() > 0 && spec_priority(stack.last()) >= spec_priority(s[i]) {
                    assert(spec_priority(s[i]) >= 1);
                    assert(stack.last() is Operator);
                    step_op_pop(s, i, out, stack);
                    lemma_shunt_wf(s, i, out.push(stack.last()), stack.drop_last());
                } else {
                    step_push(s, i, out, stack);
                    lemma_shunt_wf(s, i + 1, out, stack.push(s[i]));
                }
            },
            TokenModel::FunctionName(_) => {
                step_push(s, i, out, stack);
                lemma_shunt_wf(s, i + 1, out, stack.push(s[i]));
            },
            TokenModel::LeftParen => {
                step_push(s, i, out, stack);
                lemma_shunt_wf(s, i + 1, out, stack.push(s[i]));
            },
            TokenModel::RightParen => {
                lemma_expect_operator(s, i);
                assert(paren_depth(s, i + 1) == paren_depth(s, i) - 1);
                assert(paren_depth(s, i + 1) >= 0);
                lemma_lp_le_len(stack);
                assert(stack.len() > 0);
                if stack.last() is LeftParen {
                    step_rp_close(s, i, out, stack);
                    if stack.len() >= 2 && stack[stack.len() - 2] is FunctionName {
                        lemma_shunt_wf(
                            s,
                            i + 1,
                            out.push(stack[stack.len() - 2]),
                            stack.drop_last().drop_last(),
                        );
                    } else {
                        lemma_shunt_wf(s, i + 1, out, stack.drop_last());
                    }
                } else {
                    if stack.last() is FunctionName {
                        lemma_prev_not_func(s, i);
                        assert(false);
                    }
                    assert(stack.last() is Operator);
                    step_op_pop(s, i, out, stack);
                    lemma_shunt_wf(s, i, out.push(stack.last()), stack.drop_last());
                }
            },
        }
    }
}

proof fn lemma_bin_nonneg(stack: Seq<TokenModel>)
    ensures
        bin_count(stack) >= 0,
    decreases stack.len(),
{
    if stack.len() > 0 {
        lemma_bin_nonneg(stack.drop_last());
    }
}

/// The postfix form of every nonempty, structurally valid expression
/// whose prefixes never close an unopened parenthesis is a well-formed
/// postfix sequence: stepwise reduction of it is guaranteed to succeed
/// and, by the reduction laws, to end at a single number after exactly
/// one step per operator and function name.
pub proof fn lemma_to_postfix_wf(s: Seq<TokenModel>)
    requires
        valid_tokens(s),
        balanced_prefixes(s),
        s.len() > 0,
    ensures
        wf_postfix(spec_to_postfix(s)),
        redex_count(spec_to_postfix(s)) == redex_prefix(s, s.len() as int),
{
    lemma_shunt_wf(s, 0, Seq::empty(), Seq::empty());
    lemma_shunt_counts(s, 0, Seq::empty(), Seq::empty());
}

/// One reduction step: the sequence still holds an operator or function
/// name, and `t` is a permitted result of reducing `s` once.
pub open spec fn reduce_step(s: Seq<TokenModel>, t: Seq<TokenModel>) -> bool {
    first_redex(s) < s.len() && reduce_outcome(s, Ok(t))
}

proof fn lemma_trace_invariant(trace: Seq<Seq<TokenModel>>, j: int)
    requires
        trace.len() >= 1,
        wf_postfix(trace[0]),
        forall|m: int| 0 <= m < trace.len() - 1 ==> reduce_step(#[trigger] trace[m], trace[m + 1]),
        0 <= j < trace.len(),
    ensures
        wf_postfix(trace[j]),
        redex_count(trace[j]) == redex_count(trace[0]) - j,
    decreases j,
{
    if j > 0 {
        lemma_trace_invariant(trace, j - 1);
        lemma_reduce_preserves_wf(trace[j - 1], trace[j]);
    }
}

/// Repeatedly reducing the postfix form of a nonempty, structurally
/// valid expression terminates, after exactly one step per operator and
/// function name of the input, at a sequence that is a single number:
/// whatever numerals the arithmetic produced along the way.
pub proof fn lemma_reduction_terminates(s: Seq<TokenModel>, trace: Seq<Seq<TokenModel>>)
    requires
        valid_tokens(s),
        balanced_prefixes(s),
        s.len() > 0,
        trace.len() >= 1,
        trace[0] == spec_to_postfix(s),
        forall|m: int| 0 <= m < trace.len() - 1 ==> reduce_step(#[trigger] trace[m], trace[m + 1]),
        first_redex(trace.last()) == trace.last().len(),
    ensures
        trace.len() == redex_prefix(s, s.len() as int) + 1,
        trace.last().len() == 1,
        trace.last()[0] is Number,
{
    lemma_to_postfix_wf(s);
    lemma_trace_invariant(trace, trace.len() - 1);
    assert(trace.last() == trace[trace.len() - 1]);
    lemma_wf_no_redex_single(trace.last());
    assert(redex_count(trace.last()) == 0) by {
        let lastv = trace.last();
        assert(lastv.last() == lastv[0]);
        assert(!is_redex(lastv.last()));
        assert(lastv.drop_last() =~= Seq::<TokenModel>::empty());
        assert(redex_count(lastv.drop_last()) == 0);
        assert(redex_count(lastv) == redex_count(lastv.drop_last()));
    }
}

} // verus!
