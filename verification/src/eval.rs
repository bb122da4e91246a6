//! The stepwise evaluator: each call collapses the leftmost operator or
//! function call of a postfix sequence into a single number, so that a
//! caller can display the evaluation one reduction at a time.
//!
//! The numbers themselves are decimal numerals carried as text; how two
//! numerals combine under an operator or a function is delegated to an
//! [`Arith`] implementation supplied by the caller. Everything proved
//! here holds whatever numerals such an implementation hands back.

use vstd::prelude::*;

use crate::render::{render, spec_render};
use crate::token::{Func, Op, Token, TokenModel};

verus! {

/// Why a reduction step failed: an operator or function name stood
/// without enough preceding output, or what preceded it was not a
/// number. Neither can happen to the postfix form of a validated
/// expression; both are still checked.
#[derive(Clone, Copy, Debug, PartialEq, Eq, Structural)]
pub enum EvalError {
    MissingOperands,
    BadOperand,
}

/// The numeric kernel the evaluator delegates to. The library never
/// interprets numerals as numbers (the calculator's numbers are binary
/// floating point, which stays outside the verified code), so an
/// implementation is supplied by the caller; nothing proved about the
/// evaluator depends on what it returns.
pub trait Arith {
    /// The numeral for `left op right`.
    fn apply_op(&self, op: Op, left: &str, right: &str) -> String;

    /// The numeral for `f(arg)`.
    fn apply_func(&self, f: Func, arg: &str) -> String;
}

/// A token that drives a reduction: an operator or a function name.
pub open spec fn is_redex(t: TokenModel) -> bool {
    t is Operator || t is FunctionName
}

/// The position of the first operator or function name at or after `i`,
/// or the sequence's length if there is none.
pub open spec fn first_redex_from(s: Seq<TokenModel>, i: int) -> int
    decreases s.len() - i,
{
    if i < 0 || i >= s.len() {
        s.len() as int
    } else if is_redex(s[i]) {
        i
    } else {
        first_redex_from(s, i + 1)
    }
}

/// The position of the first operator or function name.
pub open spec fn first_redex(s: Seq<TokenModel>) -> int {
    first_redex_from(s, 0)
}

/// How many operators and function names the sequence holds — the
/// number of reduction steps it takes to a single number.
pub open spec fn redex_count(s: Seq<TokenModel>) -> int
    decreases s.len(),
{
    if s.len() == 0 {
        0
    } else {
        redex_count(s.drop_last()) + if is_redex(s.last()) {
            1int
        } else {
            0int
        }
    }
}

/// The net contribution of one token to the operand-stack height of a
/// postfix scan: a number supplies an operand, a binary operator
/// consumes two and yields one, a function call consumes and yields one.
pub open spec fn height_delta(t: TokenModel) -> int {
    match t {
        TokenModel::Number(_) => 1,
        TokenModel::Operator(_) => -1,
        TokenModel::FunctionName(_) => 0,
        TokenModel::LeftParen => 0,
        TokenModel::RightParen => 0,
    }
}

/// The operand-stack height after the first `k` tokens of a postfix scan.
pub open spec fn height(s: Seq<TokenModel>, k: int) -> int
    decreases k,
{
    if k <= 0 {
        0
    } else {
        height(s, k - 1) + height_delta(s[k - 1])
    }
}

/// A well-formed postfix sequence: no parentheses, every operator finds
/// two operands beneath it and every function call one, and exactly one
/// operand is left at the end.
pub open spec fn wf_postfix(s: Seq<TokenModel>) -> bool {
    &&& forall|k: int|
        0 <= k < s.len() ==> !(#[trigger] s[k] is LeftParen) && !(s[k] is RightParen)
    &&& forall|k: int| 0 <= k < s.len() && #[trigger] s[k] is Operator ==> height(s, k) >= 2
    &&& forall|k: int| 0 <= k < s.len() && #[trigger] s[k] is FunctionName ==> height(s, k) >= 1
    &&& height(s, s.len() as int) == 1
}

/// The failure reported when the token at `i` is an operator, if any:
/// the two tokens before it must both be numbers.
pub open spec fn op_error(s: Seq<TokenModel>, i: int) -> Option<EvalError> {
    if i < 1 {
        Some(EvalError::MissingOperands)
    } else if !(s[i - 1] is Number) {
        Some(EvalError::BadOperand)
    } else if i < 2 {
        Some(EvalError::MissingOperands)
    } else if !(s[i - 2] is Number) {
        Some(EvalError::BadOperand)
    } else {
        None
    }
}

/// The failure reported when the token at `i` is a function name, if
/// any: the token before it must be a number.
pub open spec fn func_error(s: Seq<TokenModel>, i: int) -> Option<EvalError> {
    if i < 1 {
        Some(EvalError::MissingOperands)
    } else if !(s[i - 1] is Number) {
        Some(EvalError::BadOperand)
    } else {
        None
    }
}

/// What one reduction step must yield on input `s`. When no operator or
/// function name exists the sequence comes back unchanged; otherwise the
/// leftmost one and its operands collapse into a single number, and
/// everything around them is untouched.
pub open spec fn reduce_outcome(
    s: Seq<TokenModel>,
    r: Result<Seq<TokenModel>, EvalError>,
) -> bool {
    let i = first_redex(s);
    if i == s.len() {
        r == Ok::<Seq<TokenModel>, EvalError>(s)
    } else if s[i] is Operator {
        match op_error(s, i) {
            Some(e) => r == Err::<Seq<TokenModel>, EvalError>(e),
            None => match r {
                Ok(t) => {
                    &&& t.len() == s.len() - 2
                    &&& t[i - 2] is Number
                    &&& t.subrange(0, i - 2) == s.subrange(0, i - 2)
                    &&& t.subrange(i - 1, t.len() as int) == s.subrange(i + 1, s.len() as int)
                },
                Err(_) => false,
            },
        }
    } else {
        match func_error(s, i) {
            Some(e) => r == Err::<Seq<TokenModel>, EvalError>(e),
            None => match r {
                Ok(t) => {
                    &&& t.len() == s.len() - 1
                    &&& t[i - 1] is Number
                    &&& t.subrange(0, i - 1) == s.subrange(0, i - 1)
                    &&& t.subrange(i, t.len() as int) == s.subrange(i + 1, s.len() as int)
                },
                Err(_) => false,
            },
        }
    }
}

/// The model of a reduction step's result.
pub open spec fn reduce_result_model(r: Result<Vec<Token>, EvalError>) -> Result<
    Seq<TokenModel>,
    EvalError,
> {
    match r {
        Ok(v) => Ok(v.deep_view()),
        Err(e) => Err(e),
    }
}

proof fn lemma_first_redex_props(s: Seq<TokenModel>, i: int)
    requires
        0 <= i <= s.len(),
    ensures
        i <= first_redex_from(s, i) <= s.len(),
        forall|k: int| i <= k < first_redex_from(s, i) ==> !is_redex(#[trigger] s[k]),
        first_redex_from(s, i) < s.len() ==> is_redex(s[first_redex_from(s, i)]),
    decreases s.len() - i,
{
    if i < s.len() && !is_redex(s[i]) {
        lemma_first_redex_props(s, i + 1);
    }
}

proof fn lemma_first_redex_at(s: Seq<TokenModel>, i: int, j: int)
    requires
        0 <= i <= j <= s.len(),
        forall|k: int| i <= k < j ==> !is_redex(#[trigger] s[k]),
        j == s.len() || is_redex(s[j]),
    ensures
        first_redex_from(s, i) == j,
    decreases j - i,
{
    if i < j {
        lemma_first_redex_at(s, i + 1, j);
    }
}

proof fn lemma_height_numbers(s: Seq<TokenModel>, k: int)
    requires
        0 <= k <= s.len(),
        forall|j: int| 0 <= j < k ==> #[trigger] s[j] is Number,
    ensures
        height(s, k) == k,
    decreases k,
{
    if k > 0 {
        lemma_height_numbers(s, k - 1);
    }
}

proof fn lemma_height_shift(s: Seq<TokenModel>, t: Seq<TokenModel>, d: int, lo: int, k: int)
    requires
        0 <= lo <= k <= t.len(),
        0 <= lo + d,
        k + d <= s.len(),
        height(t, lo) == height(s, lo + d),
        forall|j: int| lo <= j < k ==> #[trigger] t[j] == s[j + d],
    ensures
        height(t, k) == height(s, k + d),
    decreases k - lo,
{
    if lo < k {
        lemma_height_shift(s, t, d, lo, k - 1);
        assert(t[k - 1] == s[k - 1 + d]);
        assert(height(t, k) == height(t, k - 1) + height_delta(t[k - 1]));
        assert(height(s, k + d) == height(s, k + d - 1) + height_delta(s[k + d - 1]));
    }
}

proof fn lemma_redex_count_concat(a: Seq<TokenModel>, b: Seq<TokenModel>)
    ensures
        redex_count(a + b) == redex_count(a) + redex_count(b),
    decreases b.len(),
{
    if b.len() == 0 {
        assert(a + b =~= a);
    } else {
        assert((a + b).drop_last() =~= a + b.drop_last());
        lemma_redex_count_concat(a, b.drop_last());
    }
}

proof fn lemma_redex_count_numbers(s: Seq<TokenModel>)
    requires
        forall|j: int| 0 <= j < s.len() ==> !is_redex(#[trigger] s[j]),
    ensures
        redex_count(s) == 0,
    decreases s.len(),
{
    if s.len() > 0 {
        lemma_redex_count_numbers(s.drop_last());
    }
}

/// On a well-formed postfix sequence a reduction step cannot fail, and
/// what it yields is well-formed again, one reduction shorter: the
/// ground for the fact that evaluation ends, after exactly as many steps
/// as there are operators and function names, at a single number.
pub proof fn lemma_reduce_preserves_wf(s: Seq<TokenModel>, t: Seq<TokenModel>)
    requires
        wf_postfix(s),
        first_redex(s) < s.len(),
        reduce_outcome(s, Ok(t)),
    ensures
        wf_postfix(t),
        redex_count(t) == redex_count(s) - 1,
{
    let i = first_redex(s);
    lemma_first_redex_props(s, 0);
    assert(forall|k: int| 0 <= k < i ==> #[trigger] s[k] is Number);
    lemma_height_numbers(s, i);
    let arity: int = if s[i] is Operator {
        2
    } else {
        1
    };
    if s[i] is Operator {
        assert(height(s, i) >= 2);
        assert(op_error(s, i) is None);
    } else {
        assert(is_redex(s[i]));
        assert(s[i] is FunctionName);
        assert(func_error(s, i) is None);
    }
    let cut = i - arity;
    assert(t.len() == s.len() - arity);
    assert(t[cut] is Number);
    assert(t.subrange(0, cut) == s.subrange(0, cut));
    assert(t.subrange(cut + 1, t.len() as int) == s.subrange(i + 1, s.len() as int));
    assert forall|k: int| 0 <= k < cut implies #[trigger] t[k] == s[k] by {
        assert(t.subrange(0, cut)[k] == s.subrange(0, cut)[k]);
    }
    assert forall|k: int| cut + 1 <= k < t.len() implies #[trigger] t[k] == s[k + arity] by {
        assert(t.subrange(cut + 1, t.len() as int)[k - cut - 1] == s.subrange(
            i + 1,
            s.len() as int,
        )[k - cut - 1]);
    }
    assert(forall|k: int| 0 <= k <= cut ==> #[trigger] t[k] is Number);
    // No parentheses anywhere in t.
    assert forall|k: int|
        0 <= k < t.len() implies !(#[trigger] t[k] is LeftParen) && !(t[k] is RightParen) by {
        if k <= cut {
            assert(t[k] is Number);
        } else {
            assert(t[k] == s[k + arity]);
        }
    }
    // Heights: the prefix of t is all numbers, so its height climbs one
    // per token; past the splice the heights of t track those of s.
    lemma_height_numbers(t, cut + 1);
    assert(height(t, cut + 1) == cut + 1);
    assert(height(s, i + 1) == height(s, i) + height_delta(s[i]));
    assert(height(t, cut + 1) == height(s, cut + 1 + arity));
    assert forall|k: int| cut + 1 <= k <= t.len() implies height(t, k) == height(
        s,
        k + arity,
    ) by {
        lemma_height_shift(s, t, arity, cut + 1, k);
    }
    assert(height(t, t.len() as int) == height(s, s.len() as int));
    assert forall|k: int| 0 <= k < t.len() && #[trigger] t[k] is Operator implies height(t, k)
        >= 2 by {
        if k <= cut {
            assert(t[k] is Number);
        } else {
            assert(t[k] == s[k + arity]);
            assert(height(t, k) == height(s, k + arity));
        }
    }
    assert forall|k: int| 0 <= k < t.len() && #[trigger] t[k] is FunctionName implies height(t, k)
        >= 1 by {
        if k <= cut {
            assert(t[k] is Number);
        } else {
            assert(t[k] == s[k + arity]);
            assert(height(t, k) == height(s, k + arity));
        }
    }
    lemma_splice_counts(s, t, i, cut, arity);
}

proof fn lemma_splice_counts(
    s: Seq<TokenModel>,
    t: Seq<TokenModel>,
    i: int,
    cut: int,
    arity: int,
)
    requires
        1 <= arity <= 2,
        cut == i - arity,
        0 <= cut <= i < s.len(),
        is_redex(s[i]),
        t.len() == s.len() - arity,
        forall|k: int| 0 <= k < i ==> #[trigger] s[k] is Number,
        forall|k: int| 0 <= k <= cut ==> #[trigger] t[k] is Number,
        t.subrange(cut + 1, t.len() as int) == s.subrange(i + 1, s.len() as int),
    ensures
        redex_count(t) == redex_count(s) - 1,
{
    let s_pre = s.subrange(0, i + 1);
    let s_tail = s.subrange(i + 1, s.len() as int);
    let t_pre = t.subrange(0, cut + 1);
    let t_tail = t.subrange(cut + 1, t.len() as int);
    assert(s =~= s_pre + s_tail);
    assert(t =~= t_pre + t_tail);
    lemma_redex_count_concat(s_pre, s_tail);
    lemma_redex_count_concat(t_pre, t_tail);
    assert(s_pre.drop_last() =~= s.subrange(0, i));
    assert(forall|k: int| 0 <= k < i ==> !is_redex(#[trigger] s.subrange(0, i)[k]));
    lemma_redex_count_numbers(s.subrange(0, i));
    assert(redex_count(s_pre) == 1);
    assert(forall|k: int| 0 <= k < t_pre.len() ==> !is_redex(#[trigger] t_pre[k]));
    lemma_redex_count_numbers(t_pre);
}

/// A well-formed postfix sequence without operators or function names is
/// exactly one number: where stepwise evaluation comes to rest.
pub proof fn lemma_wf_no_redex_single(s: Seq<TokenModel>)
    requires
        wf_postfix(s),
        first_redex(s) == s.len(),
    ensures
        s.len() == 1,
        s[0] is Number,
{
    lemma_first_redex_props(s, 0);
    assert(forall|k: int| 0 <= k < s.len() ==> #[trigger] s[k] is Number);
    lemma_height_numbers(s, s.len() as int);
}

/// Reduce the leftmost operator or function call of a postfix sequence
/// into a single number computed by `arith`, leaving everything else
/// unchanged; a sequence without one comes back as it is.
pub fn reduce_once<A: Arith>(postfix: Vec<Token>, arith: &A) -> (r: Result<Vec<Token>, EvalError>)
    ensures
        reduce_outcome(postfix.deep_view(), reduce_result_model(r)),
{
    let ghost s = postfix.deep_view();
    let n = postfix.len();
    proof {
        assert(s.len() == n);
    }
    let mut i: usize = 0;
    while i < n && !(postfix[i].is_operator() || postfix[i].is_function_name())
        invariant
            n == postfix.len(),
            s == postfix.deep_view(),
            s.len() == n,
            i <= n,
            forall|k: int| 0 <= k < i ==> !is_redex(#[trigger] s[k]),
        decreases n - i,
    {
        i = i + 1;
    }
    proof {
        lemma_first_redex_at(s, 0, i as int);
    }
    if i == n {
        return Ok(postfix);
    }
    let is_op = postfix[i].is_operator();
    if i < 1 {
        return Err(EvalError::MissingOperands);
    }
    let right = match &postfix[i - 1] {
        Token::Number(t) => t.clone(),
        _ => {
            return Err(EvalError::BadOperand);
        },
    };
    if is_op {
        if i < 2 {
            return Err(EvalError::MissingOperands);
        }
        let left = match &postfix[i - 2] {
            Token::Number(t) => t.clone(),
            _ => {
                return Err(EvalError::BadOperand);
            },
        };
        let op = match &postfix[i] {
            Token::Operator(op) => *op,
            _ => {
                proof {
                    assert(false);
                }
                Op::Add
            },
        };
        let value = arith.apply_op(op, left.as_str(), right.as_str());
        let mut out: Vec<Token> = Vec::new();
        let mut k: usize = 0;
        while k < i - 2
            invariant
                n == postfix.len(),
                s == postfix.deep_view(),
                s.len() == n,
                2 <= i < n,
                k <= i - 2,
                out.deep_view() =~= s.subrange(0, k as int),
            decreases i - k,
        {
            let ghost o0 = out.deep_view();
            out.push(postfix[k].dup());
            proof {
                assert(out.deep_view() =~= o0.push(s[k as int]));
                assert(out.deep_view() =~= s.subrange(0, k + 1 as int));
            }
            k = k + 1;
        }
        let ghost o1 = out.deep_view();
        let ghost vv = value@;
        out.push(Token::Number(value));
        proof {
            assert(out.deep_view() =~= o1.push(TokenModel::Number(vv)));
        }
        let mut k2: usize = i + 1;
        while k2 < n
            invariant
                n == postfix.len(),
                s == postfix.deep_view(),
                s.len() == n,
                i + 1 <= k2 <= n,
                2 <= i < n,
                out.deep_view().len() == (i - 2) + 1 + (k2 - i - 1),
                out.deep_view().subrange(0, i - 2) =~= s.subrange(0, i - 2),
                out.deep_view()[i - 2] is Number,
                out.deep_view().subrange(i - 1, out.deep_view().len() as int) =~= s.subrange(
                    i + 1,
                    k2 as int,
                ),
            decreases n - k2,
        {
            let ghost o2 = out.deep_view();
            out.push(postfix[k2].dup());
            proof {
                assert(out.deep_view() =~= o2.push(s[k2 as int]));
                assert(out.deep_view().subrange(0, i - 2) =~= o2.subrange(0, i - 2));
                assert(out.deep_view().subrange(i - 1, out.deep_view().len() as int)
                    =~= o2.subrange(i - 1, o2.len() as int).push(s[k2 as int]));
                assert(s.subrange(i + 1, k2 + 1 as int) =~= s.subrange(i + 1, k2 as int).push(
                    s[k2 as int],
                ));
            }
            k2 = k2 + 1;
        }
        proof {
            assert(out.deep_view().subrange(0, i - 2) == s.subrange(0, i - 2));
            assert(out.deep_view().subrange(i - 1, out.deep_view().len() as int) == s.subrange(
                i + 1,
                s.len() as int,
            ));
        }
        Ok(out)
    } else {
        let f = match &postfix[i] {
            Token::FunctionName(f) => *f,
            _ => {
                proof {
                    assert(false);
                }
                Func::Log
            },
        };
        let value = arith.apply_func(f, right.as_str());
        let mut out: Vec<Token> = Vec::new();
        let mut k: usize = 0;
        while k < i - 1
            invariant
                n == postfix.len(),
                s == postfix.deep_view(),
                s.len() == n,
                1 <= i < n,
                k <= i - 1,
                out.deep_view() =~= s.subrange(0, k as int),
            decreases i - k,
        {
            let ghost o0 = out.deep_view();
            out.push(postfix[k].dup());
            proof {
                assert(out.deep_view() =~= o0.push(s[k as int]));
                assert(out.deep_view() =~= s.subrange(0, k + 1 as int));
            }
            k = k + 1;
        }
        let ghost o1 = out.deep_view();
        let ghost vv = value@;
        out.push(Token::Number(value));
        proof {
            assert(out.deep_view() =~= o1.push(TokenModel::Number(vv)));
        }
        let mut k2: usize = i + 1;
        while k2 < n
            invariant
                n == postfix.len(),
                s == postfix.deep_view(),
                s.len() == n,
                i + 1 <= k2 <= n,
                1 <= i < n,
                out.deep_view().len() == (i - 1) + 1 + (k2 - i - 1),
                out.deep_view().subrange(0, i - 1) =~= s.subrange(0, i - 1),
                out.deep_view()[i - 1] is Number,
                out.deep_view().subrange(i as int, out.deep_view().len() as int) =~= s.subrange(
                    i + 1,
                    k2 as int,
                ),
            decreases n - k2,
        {
            let ghost o2 = out.deep_view();
            out.push(postfix[k2].dup());
            proof {
                assert(out.deep_view() =~= o2.push(s[k2 as int]));
                assert(out.deep_view().subrange(0, i - 1) =~= o2.subrange(0, i - 1));
                assert(out.deep_view().subrange(i as int, out.deep_view().len() as int)
                    =~= o2.subrange(i as int, o2.len() as int).push(s[k2 as int]));
                assert(s.subrange(i + 1, k2 + 1 as int) =~= s.subrange(i + 1, k2 as int).push(
                    s[k2 as int],
                ));
            }
            k2 = k2 + 1;
        }
        proof {
            assert(out.deep_view().subrange(0, i - 1) == s.subrange(0, i - 1));
            assert(out.deep_view().subrange(i as int, out.deep_view().len() as int) == s.subrange(
                i + 1,
                s.len() as int,
            ));
        }
        Ok(out)
    }
}

/// Whether a postfix sequence still holds an operator or function name
/// to reduce.
pub fn has_redex(postfix: &Vec<Token>) -> (b: bool)
    ensures
        b == (first_redex(postfix.deep_view()) < postfix.deep_view().len()),
{
    let ghost s = postfix.deep_view();
    let n = postfix.len();
    proof {
        assert(s.len() == n);
    }
    let mut i: usize = 0;
    while i < n && !(postfix[i].is_operator() || postfix[i].is_function_name())
        invariant
            n == postfix.len(),
            s == postfix.deep_view(),
            s.len() == n,
            i <= n,
            forall|k: int| 0 <= k < i ==> !is_redex(#[trigger] s[k]),
        decreases n - i,
    {
        i = i + 1;
    }
    proof {
        lemma_first_redex_at(s, 0, i as int);
    }
    i < n
}

/// Whether a token sequence is a well-formed postfix expression, the
/// condition under which stepwise evaluation is guaranteed to succeed.
pub fn postfix_is_wf(postfix: &Vec<Token>) -> (b: bool)
    ensures
        b == wf_postfix(postfix.deep_view()),
{
    let ghost s = postfix.deep_view();
    let n = postfix.len();
    proof {
        assert(s.len() == n);
    }
    let mut h: usize = 0;
    let mut i: usize = 0;
    while i < n
        invariant
            n == postfix.len(),
            s == postfix.deep_view(),
            s.len() == n,
            i <= n,
            h <= i,
            h == height(s, i as int),
            forall|k: int|
                0 <= k < i ==> !(#[trigger] s[k] is LeftParen) && !(s[k] is RightParen),
            forall|k: int| 0 <= k < i && #[trigger] s[k] is Operator ==> height(s, k) >= 2,
            forall|k: int| 0 <= k < i && #[trigger] s[k] is FunctionName ==> height(s, k) >= 1,
        decreases n - i,
    {
        match &postfix[i] {
            Token::Number(_) => {
                proof {
                    assert(s[i as int] is Number);
                }
                h = h + 1;
            },
            Token::Operator(_) => {
                proof {
                    assert(s[i as int] is Operator);
                }
                if h < 2 {
                    proof {
                        assert(!wf_postfix(s));
                    }
                    return false;
                }
                h = h - 1;
            },
            Token::FunctionName(_) => {
                proof {
                    assert(s[i as int] is FunctionName);
                }
                if h < 1 {
                    proof {
                        assert(!wf_postfix(s));
                    }
                    return false;
                }
            },
            Token::LeftParen => {
                proof {
                    assert(s[i as int] is LeftParen);
                    assert(!wf_postfix(s));
                }
                return false;
            },
            Token::RightParen => {
                proof {
                    assert(s[i as int] is RightParen);
                    assert(!wf_postfix(s));
                }
                return false;
            },
        }
        i = i + 1;
    }
    h == 1
}

/// Evaluate a well-formed postfix sequence step by step. Yields the
/// rendering of every intermediate state — the untouched input first,
/// the final number last — together with the single number token that
/// remains. There are exactly as many reduction steps as the input had
/// operators and function names.
pub fn evaluate<A: Arith>(postfix: Vec<Token>, arith: &A) -> (r: (Vec<String>, Vec<Token>))
    requires
        wf_postfix(postfix.deep_view()),
    ensures
        r.0.deep_view().len() == redex_count(postfix.deep_view()) + 1,
        r.0.deep_view()[0] == spec_render(postfix.deep_view())->Ok_0,
        spec_render(postfix.deep_view()) is Ok,
        r.1.deep_view().len() == 1,
        r.1.deep_view()[0] is Number,
        wf_postfix(r.1.deep_view()),
        r.0.deep_view().last() == r.1.deep_view()[0]->Number_0,
{
    let ghost s0 = postfix.deep_view();
    proof {
        crate::render::lemma_wf_render_ok(s0);
        lemma_redex_count_nonneg(s0);
    }
    let mut cur = postfix;
    let mut lines: Vec<String> = Vec::new();
    let first_line = match render(&cur) {
        Ok(x) => x,
        Err(_) => {
            proof {
                assert(false);
            }
            String::new()
        },
    };
    lines.push(first_line);
    proof {
        assert(lines.deep_view() =~= Seq::<Seq<char>>::empty().push(
            spec_render(s0)->Ok_0,
        ));
    }
    while has_redex(&cur)
        invariant
            wf_postfix(cur.deep_view()),
            spec_render(s0) is Ok,
            lines.deep_view().len() == redex_count(s0) - redex_count(cur.deep_view()) + 1,
            lines.deep_view().len() >= 1,
            lines.deep_view()[0] == spec_render(s0)->Ok_0,
            lines.deep_view().last() == spec_render(cur.deep_view())->Ok_0,
            spec_render(cur.deep_view()) is Ok,
        decreases redex_count(cur.deep_view()),
    {
        let ghost c0 = cur.deep_view();
        proof {
            lemma_first_redex_props(c0, 0);
            assert(forall|k: int| 0 <= k < first_redex(c0) ==> #[trigger] c0[k] is Number);
            lemma_height_numbers(c0, first_redex(c0));
        }
        let next = match reduce_once(cur, arith) {
            Ok(v) => v,
            Err(_) => {
                proof {
                    assert(false);
                }
                Vec::new()
            },
        };
        proof {
            lemma_reduce_preserves_wf(c0, next.deep_view());
            lemma_redex_count_nonneg(next.deep_view());
            crate::render::lemma_wf_render_ok(next.deep_view());
        }
        cur = next;
        let ghost l0 = lines.deep_view();
        let line = match render(&cur) {
            Ok(x) => x,
            Err(_) => {
                proof {
                    assert(false);
                }
                String::new()
            },
        };
        lines.push(line);
        proof {
            assert(lines.deep_view() =~= l0.push(spec_render(cur.deep_view())->Ok_0));
        }
    }
    proof {
        lemma_first_redex_props(cur.deep_view(), 0);
        lemma_wf_no_redex_single(cur.deep_view());
        lemma_redex_count_numbers(cur.deep_view());
        crate::render::lemma_render_single_number(cur.deep_view());
    }
    (lines, cur)
}

proof fn lemma_redex_count_nonneg(s: Seq<TokenModel>)
    ensures
        redex_count(s) >= 0,
    decreases s.len(),
{
    if s.len() > 0 {
        lemma_redex_count_nonneg(s.drop_last());
    }
}

} // verus!
