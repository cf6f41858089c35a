//! Conditions on the tokens at the cursor.

use crate::parsing::token::{ExtractedToken, Token};
use vstd::prelude::*;

verus! {

/// What a rule asks of the tokens at the cursor.
#[derive(Debug, Clone, Copy, PartialEq, Eq)]
pub enum ParseCondition {
    /// The token at the cursor is of this kind.
    CurrentToken(Token),
    /// The token at the cursor is of the first kind and the one behind it of
    /// the second.
    TokenPair(Token, Token),
}

impl ParseCondition {
    /// The token at the cursor is `token`.
    pub fn current(token: Token) -> (r: ParseCondition)
        ensures
            r == ParseCondition::CurrentToken(token),
    {
        ParseCondition::CurrentToken(token)
    }

    /// The token at the cursor is `current` and the next one is `next`.
    pub fn token_pair(current: Token, next: Token) -> (r: ParseCondition)
        ensures
            r == ParseCondition::TokenPair(current, next),
    {
        ParseCondition::TokenPair(current, next)
    }

    /// The condition is met at `pos`.
    pub open spec fn holds(self, tokens: Seq<ExtractedToken>, pos: int) -> bool {
        match self {
            ParseCondition::CurrentToken(token) => 0 <= pos < tokens.len() && tokens[pos].token
                == token,
            ParseCondition::TokenPair(current, next) => 0 <= pos && pos + 1 < tokens.len()
                && tokens[pos].token == current && tokens[pos + 1].token == next,
        }
    }

    /// How many tokens the condition names.
    pub open spec fn width(self) -> int {
        match self {
            ParseCondition::CurrentToken(_) => 1,
            ParseCondition::TokenPair(_, _) => 2,
        }
    }

    /// How many tokens the condition names.
    pub fn token_count(&self) -> (n: usize)
        ensures
            n == self.width(),
    {
        match self {
            ParseCondition::CurrentToken(_) => 1,
            ParseCondition::TokenPair(_, _) => 2,
        }
    }
}

/// The index, from `from` on, of the first condition that is met at `pos`; the
/// number of conditions if none is.
pub open spec fn first_holding(
    conditions: Seq<ParseCondition>,
    tokens: Seq<ExtractedToken>,
    pos: int,
    from: int,
) -> int
    decreases conditions.len() - from,
{
    if from >= conditions.len() {
        conditions.len() as int
    } else if from >= 0 && conditions[from].holds(tokens, pos) {
        from
    } else {
        first_holding(conditions, tokens, pos, from + 1)
    }
}

/// The first of the conditions that is met at `pos`, if one is.
pub open spec fn matched(
    conditions: Seq<ParseCondition>,
    tokens: Seq<ExtractedToken>,
    pos: int,
) -> Option<ParseCondition> {
    let at = first_holding(conditions, tokens, pos, 0);
    if 0 <= at < conditions.len() {
        Some(conditions[at])
    } else {
        None
    }
}

/// What `first_holding` returns is an index of a condition that is met, with
/// none before it that is, or the number of conditions.
pub proof fn lemma_first_holding(
    conditions: Seq<ParseCondition>,
    tokens: Seq<ExtractedToken>,
    pos: int,
    from: int,
)
    requires
        0 <= from,
    ensures
        from <= first_holding(conditions, tokens, pos, from) || first_holding(
            conditions,
            tokens,
            pos,
            from,
        ) == conditions.len(),
        first_holding(conditions, tokens, pos, from) < conditions.len() ==> conditions[first_holding(
            conditions,
            tokens,
            pos,
            from,
        )].holds(tokens, pos),
        forall|i: int|
            from <= i < first_holding(conditions, tokens, pos, from) && i < conditions.len()
                ==> !(#[trigger] conditions[i]).holds(tokens, pos),
    decreases conditions.len() - from,
{
    if from < conditions.len() && !conditions[from].holds(tokens, pos) {
        lemma_first_holding(conditions, tokens, pos, from + 1);
    }
}

} // verus!
