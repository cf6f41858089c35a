//! The cursor over the tokens.

use crate::parsing::condition::{first_holding, lemma_first_holding, matched, ParseCondition};
use crate::parsing::rule::Rule;
use crate::parsing::token::{line_starts, ExtractedToken, Token};
use vstd::prelude::*;

verus! {

/// The tokens of a text, the rules to read them by, and a cursor.
#[derive(Debug, Clone)]
pub struct Parser {
    tokens: Vec<ExtractedToken>,
    rules: Vec<Rule>,
    position: usize,
}

impl Parser {
    /// All tokens.
    pub closed spec fn tokens(&self) -> Seq<ExtractedToken> {
        self.tokens@
    }

    /// The rules, in the order in which they are tried.
    pub closed spec fn rules(&self) -> Seq<Rule> {
        self.rules@
    }

    /// The index of the token at the cursor.
    pub closed spec fn at(&self) -> int {
        self.position as int
    }

    /// The cursor stands at a token or just behind the last one.
    pub open spec fn wf(&self) -> bool {
        0 <= self.at() <= self.tokens().len()
    }

    /// How many tokens are left from the cursor on.
    pub open spec fn left(&self) -> int {
        self.tokens().len() - self.at()
    }

    /// Both read the same tokens by the same rules.
    pub open spec fn same_input(&self, other: &Parser) -> bool {
        self.tokens() == other.tokens() && self.rules() == other.rules()
    }

    /// A parser at the first of `tokens`.
    pub fn new(tokens: Vec<ExtractedToken>, rules: Vec<Rule>) -> (r: Parser)
        ensures
            r.wf(),
            r.tokens() == tokens@,
            r.rules() == rules@,
            r.at() == 0,
    {
        Parser { tokens, rules, position: 0 }
    }

    /// The index of the token at the cursor.
    pub fn position(&self) -> (r: usize)
        ensures
            r == self.at(),
    {
        self.position
    }

    /// Whether no token is left.
    pub fn exhausted(&self) -> (r: bool)
        requires
            self.wf(),
        ensures
            r == (self.at() == self.tokens().len()),
    {
        self.position >= self.tokens.len()
    }

    /// The token at the cursor, if one is left.
    pub fn current(&self) -> (r: Option<&ExtractedToken>)
        requires
            self.wf(),
        ensures
            match r {
                Some(t) => self.at() < self.tokens().len() && *t == self.tokens()[self.at()],
                None => self.at() == self.tokens().len(),
            },
    {
        if self.position < self.tokens.len() {
            Some(&self.tokens[self.position])
        } else {
            None
        }
    }

    /// The token `offset` tokens behind the one at the cursor, if there is one.
    pub fn look_ahead(&self, offset: usize) -> (r: Option<&ExtractedToken>)
        requires
            self.wf(),
        ensures
            match r {
                Some(t) => self.at() + offset + 1 < self.tokens().len() && *t
                    == self.tokens()[self.at() + offset + 1],
                None => self.at() + offset + 1 >= self.tokens().len(),
            },
    {
        let left = self.tokens.len() - self.position;
        if left >= 2 && offset <= left - 2 {
            Some(&self.tokens[self.position + offset + 1])
        } else {
            None
        }
    }

    /// The number of rules.
    pub fn rule_count(&self) -> (n: usize)
        ensures
            n == self.rules().len(),
    {
        self.rules.len()
    }

    /// The rule at `index`.
    pub fn rule(&self, index: usize) -> (r: Rule)
        requires
            index < self.rules().len(),
        ensures
            r == self.rules()[index as int],
    {
        self.rules[index]
    }

    /// Moves the cursor over `count` tokens.
    pub fn skip(&mut self, count: usize)
        requires
            old(self).wf(),
            old(self).at() + count <= old(self).tokens().len(),
        ensures
            final(self).wf(),
            final(self).same_input(old(self)),
            final(self).at() == old(self).at() + count,
    {
        let len: usize = self.tokens.len();
        assert(self.position + count <= len);
        self.position = self.position + count;
    }

    /// Moves the cursor over one token.
    pub fn step(&mut self)
        requires
            old(self).wf(),
            old(self).at() < old(self).tokens().len(),
        ensures
            final(self).wf(),
            final(self).same_input(old(self)),
            final(self).at() == old(self).at() + 1,
    {
        let len: usize = self.tokens.len();
        assert(self.position < len);
        self.position = self.position + 1;
    }

    /// Whether a line begins at the cursor.
    pub fn at_line_start(&self) -> (r: bool)
        requires
            self.wf(),
        ensures
            r == line_starts(self.tokens(), self.at()),
    {
        if self.position == 0 {
            true
        } else {
            let before = self.tokens[self.position - 1].token;
            before == Token::LineBreak || before == Token::ParagraphBreak
        }
    }

    /// Whether `condition` is met at the cursor.
    pub fn evaluate(&self, condition: ParseCondition) -> (r: bool)
        requires
            self.wf(),
        ensures
            r == condition.holds(self.tokens(), self.at()),
    {
        match condition {
            ParseCondition::CurrentToken(token) => match self.current() {
                Some(t) => t.token == token,
                None => false,
            },
            ParseCondition::TokenPair(current, next) => match self.current() {
                Some(t) => if t.token == current {
                    match self.look_ahead(0) {
                        Some(n) => n.token == next,
                        None => false,
                    }
                } else {
                    false
                },
                None => false,
            },
        }
    }

    /// The first of `conditions` that is met at the cursor, if one is.
    pub fn first_match(&self, conditions: &[ParseCondition]) -> (r: Option<ParseCondition>)
        requires
            self.wf(),
        ensures
            r == matched(conditions@, self.tokens(), self.at()),
            r matches Some(c) ==> c.holds(self.tokens(), self.at()),
    {
        let mut i: usize = 0;
        while i < conditions.len()
            invariant
                self.wf(),
                i <= conditions@.len(),
                first_holding(conditions@, self.tokens(), self.at(), 0) == first_holding(
                    conditions@,
                    self.tokens(),
                    self.at(),
                    i as int,
                ),
            decreases conditions@.len() - i,
        {
            if self.evaluate(conditions[i]) {
                return Some(conditions[i]);
            }
            i = i + 1;
        }
        None
    }

    /// Whether one of `conditions` is met at the cursor.
    pub fn evaluate_any(&self, conditions: &[ParseCondition]) -> (r: bool)
        requires
            self.wf(),
        ensures
            r == (matched(conditions@, self.tokens(), self.at()) is Some),
            r == exists|i: int|
                0 <= i < conditions@.len() && (#[trigger] conditions@[i]).holds(
                    self.tokens(),
                    self.at(),
                ),
    {
        proof {
            lemma_first_holding(conditions@, self.tokens(), self.at(), 0);
        }
        self.first_match(conditions).is_some()
    }
}

} // verus!
