//! The syntax validator: a single pass over the token sequence checking
//! each token against its immediate neighbours, plus a running count of
//! parentheses that must come out even.

use vstd::prelude::*;

use crate::token::{Token, TokenModel};

verus! {

/// Why validation failed. Each adjacency rule has its own variant; the
/// parenthesis count is checked last, after the whole pass.
#[derive(Clone, Copy, Debug, PartialEq, Eq, Structural)]
pub enum SyntaxError {
    LeftParenAtEnd,
    BadAfterLeftParen,
    RightParenAtStart,
    BadBeforeRightParen,
    BadAfterRightParen,
    BadAfterNumber,
    FunctionAtEnd,
    BadAfterFunction,
    OperatorAtEdge,
    BadBeforeOperator,
    BadAfterOperator,
    UnbalancedParens,
}

/// What may follow an opening parenthesis.
pub open spec fn ok_after_left_paren(t: TokenModel) -> bool {
    t is Number || t is FunctionName || t is LeftParen
}

/// What may precede a closing parenthesis.
pub open spec fn ok_before_right_paren(t: TokenModel) -> bool {
    t is Number || t is RightParen
}

/// What may follow a closing parenthesis.
pub open spec fn ok_after_right_paren(t: TokenModel) -> bool {
    t is Operator || t is RightParen
}

/// What may follow a number.
pub open spec fn ok_after_number(t: TokenModel) -> bool {
    t is Operator || t is RightParen
}

/// What may precede an operator.
pub open spec fn ok_before_operator(t: TokenModel) -> bool {
    t is Number || t is RightParen
}

/// What may follow an operator.
pub open spec fn ok_after_operator(t: TokenModel) -> bool {
    t is Number || t is FunctionName || t is LeftParen
}

/// The token at `i` sits legally between its neighbours.
pub open spec fn token_ok_at(s: Seq<TokenModel>, i: int) -> bool {
    match s[i] {
        TokenModel::LeftParen => i + 1 < s.len() && ok_after_left_paren(s[i + 1]),
        TokenModel::RightParen => 1 <= i && ok_before_right_paren(s[i - 1]) && (i + 1 == s.len()
            || ok_after_right_paren(s[i + 1])),
        TokenModel::Number(_) => i + 1 == s.len() || ok_after_number(s[i + 1]),
        TokenModel::FunctionName(_) => i + 1 < s.len() && s[i + 1] is LeftParen,
        TokenModel::Operator(_) => 1 <= i && i + 1 < s.len() && ok_before_operator(s[i - 1])
            && ok_after_operator(s[i + 1]),
    }
}

/// The net parenthesis contribution of one token.
pub open spec fn paren_delta(t: TokenModel) -> int {
    match t {
        TokenModel::LeftParen => 1,
        TokenModel::RightParen => -1,
        _ => 0,
    }
}

/// The parenthesis depth after the first `k` tokens.
pub open spec fn paren_depth(s: Seq<TokenModel>, k: int) -> int
    decreases k,
{
    if k <= 0 {
        0
    } else {
        paren_depth(s, k - 1) + paren_delta(s[k - 1])
    }
}

/// How many parenthesis tokens stand among the first `k`.
pub open spec fn paren_count(s: Seq<TokenModel>, k: int) -> int
    decreases k,
{
    if k <= 0 {
        0
    } else {
        paren_count(s, k - 1) + if s[k - 1] is LeftParen || s[k - 1] is RightParen {
            1int
        } else {
            0int
        }
    }
}

/// A structurally well-formed token sequence: every token sits legally
/// between its neighbours and the parentheses come out even.
pub open spec fn valid_tokens(s: Seq<TokenModel>) -> bool {
    (forall|i: int| 0 <= i < s.len() ==> token_ok_at(s, i)) && paren_depth(s, s.len() as int) == 0
}

/// No prefix closes more parentheses than were opened before it.
pub open spec fn balanced_prefixes(s: Seq<TokenModel>) -> bool {
    forall|k: int| 0 <= k <= s.len() ==> paren_depth(s, k) >= 0
}

/// The failure the validator reports for the token at `i`, if any.
pub open spec fn error_at(s: Seq<TokenModel>, i: int) -> Option<SyntaxError> {
    match s[i] {
        TokenModel::LeftParen => if i + 1 == s.len() {
            Some(SyntaxError::LeftParenAtEnd)
        } else if !ok_after_left_paren(s[i + 1]) {
            Some(SyntaxError::BadAfterLeftParen)
        } else {
            None
        },
        TokenModel::RightParen => if i == 0 {
            Some(SyntaxError::RightParenAtStart)
        } else if !ok_before_right_paren(s[i - 1]) {
            Some(SyntaxError::BadBeforeRightParen)
        } else if i + 1 != s.len() && !ok_after_right_paren(s[i + 1]) {
            Some(SyntaxError::BadAfterRightParen)
        } else {
            None
        },
        TokenModel::Number(_) => if i + 1 < s.len() && !ok_after_number(s[i + 1]) {
            Some(SyntaxError::BadAfterNumber)
        } else {
            None
        },
        TokenModel::FunctionName(_) => if i + 1 == s.len() {
            Some(SyntaxError::FunctionAtEnd)
        } else if !(s[i + 1] is LeftParen) {
            Some(SyntaxError::BadAfterFunction)
        } else {
            None
        },
        TokenModel::Operator(_) => if i == 0 || i + 1 == s.len() {
            Some(SyntaxError::OperatorAtEdge)
        } else if !ok_before_operator(s[i - 1]) {
            Some(SyntaxError::BadBeforeOperator)
        } else if !ok_after_operator(s[i + 1]) {
            Some(SyntaxError::BadAfterOperator)
        } else {
            None
        },
    }
}

/// The first adjacency failure at or after `i`, if any.
pub open spec fn first_error_from(s: Seq<TokenModel>, i: int) -> Option<SyntaxError>
    decreases s.len() - i,
{
    if i < 0 || i >= s.len() {
        None
    } else {
        match error_at(s, i) {
            Some(e) => Some(e),
            None => first_error_from(s, i + 1),
        }
    }
}

/// What validating a token sequence yields: the first adjacency failure
/// in scan order, an uneven parenthesis count, or success.
pub open spec fn spec_validate(s: Seq<TokenModel>) -> Result<(), SyntaxError> {
    match first_error_from(s, 0) {
        Some(e) => Err(e),
        None => if paren_depth(s, s.len() as int) == 0 {
            Ok(())
        } else {
            Err(SyntaxError::UnbalancedParens)
        },
    }
}

proof fn lemma_no_error_means_ok(s: Seq<TokenModel>, i: int)
    requires
        0 <= i < s.len(),
        error_at(s, i) is None,
    ensures
        token_ok_at(s, i),
{
}

proof fn lemma_ok_means_no_error(s: Seq<TokenModel>, i: int)
    requires
        0 <= i < s.len(),
        token_ok_at(s, i),
    ensures
        error_at(s, i) is None,
{
}

proof fn lemma_first_error_none(s: Seq<TokenModel>, i: int)
    requires
        0 <= i <= s.len(),
        first_error_from(s, i) is None,
    ensures
        forall|j: int| i <= j < s.len() ==> token_ok_at(s, j),
    decreases s.len() - i,
{
    if i < s.len() {
        lemma_no_error_means_ok(s, i);
        lemma_first_error_none(s, i + 1);
    }
}

proof fn lemma_all_ok_no_error(s: Seq<TokenModel>, i: int)
    requires
        0 <= i <= s.len(),
        forall|j: int| i <= j < s.len() ==> token_ok_at(s, j),
    ensures
        first_error_from(s, i) is None,
    decreases s.len() - i,
{
    if i < s.len() {
        lemma_ok_means_no_error(s, i);
        lemma_all_ok_no_error(s, i + 1);
    }
}

/// Validation succeeds exactly on the structurally well-formed sequences.
pub proof fn lemma_validate_ok_iff_valid(s: Seq<TokenModel>)
    ensures
        spec_validate(s) is Ok <==> valid_tokens(s),
{
    if spec_validate(s) is Ok {
        lemma_first_error_none(s, 0);
    }
    if valid_tokens(s) {
        lemma_all_ok_no_error(s, 0);
    }
}

/// Check a token sequence for structural well-formedness, reporting the
/// first violation in scan order.
pub fn validate(tokens: &Vec<Token>) -> (r: Result<(), SyntaxError>)
    ensures
        r == spec_validate(tokens.deep_view()),
        r is Ok <==> valid_tokens(tokens.deep_view()),
{
    let ghost s = tokens.deep_view();
    let n = tokens.len();
    proof {
        assert(s.len() == n);
    }
    let mut lefts: usize = 0;
    let mut rights: usize = 0;
    let mut i: usize = 0;
    while i < n
        invariant
            n == tokens.len(),
            s == tokens.deep_view(),
            s.len() == n,
            i <= n,
            first_error_from(s, 0) == first_error_from(s, i as int),
            lefts <= i,
            rights <= i,
            paren_depth(s, i as int) == lefts - rights,
        decreases n - i,
    {
        let bad: Option<SyntaxError> = match &tokens[i] {
            Token::LeftParen => {
                lefts = lefts + 1;
                if i + 1 == n {
                    Some(SyntaxError::LeftParenAtEnd)
                } else if !(tokens[i + 1].is_number() || tokens[i + 1].is_function_name()
                    || tokens[i + 1].is_left_paren()) {
                    Some(SyntaxError::BadAfterLeftParen)
                } else {
                    None
                }
            },
            Token::RightParen => {
                rights = rights + 1;
                if i == 0 {
                    Some(SyntaxError::RightParenAtStart)
                } else if !(tokens[i - 1].is_number() || tokens[i - 1].is_right_paren()) {
                    Some(SyntaxError::BadBeforeRightParen)
                } else if i + 1 != n && !(tokens[i + 1].is_operator()
                    || tokens[i + 1].is_right_paren()) {
                    Some(SyntaxError::BadAfterRightParen)
                } else {
                    None
                }
            },
            Token::Number(_) => {
                if i + 1 < n && !(tokens[i + 1].is_operator() || tokens[i + 1].is_right_paren()) {
                    Some(SyntaxError::BadAfterNumber)
                } else {
                    None
                }
            },
            Token::FunctionName(_) => {
                if i + 1 == n {
                    Some(SyntaxError::FunctionAtEnd)
                } else if !tokens[i + 1].is_left_paren() {
                    Some(SyntaxError::BadAfterFunction)
                } else {
                    None
                }
            },
            Token::Operator(_) => {
                if i == 0 || i + 1 == n {
                    Some(SyntaxError::OperatorAtEdge)
                } else if !(tokens[i - 1].is_number() || tokens[i - 1].is_right_paren()) {
                    Some(SyntaxError::BadBeforeOperator)
                } else if !(tokens[i + 1].is_number() || tokens[i + 1].is_function_name()
                    || tokens[i + 1].is_left_paren()) {
                    Some(SyntaxError::BadAfterOperator)
                } else {
                    None
                }
            },
        };
        proof {
            assert(bad == error_at(s, i as int));
        }
        if let Some(e) = bad {
            proof {
                lemma_validate_ok_iff_valid(s);
            }
            return Err(e);
        }
        i = i + 1;
    }
    proof {
        lemma_validate_ok_iff_valid(s);
    }
    if lefts == rights {
        Ok(())
    } else {
        Err(SyntaxError::UnbalancedParens)
    }
}

} // verus!
