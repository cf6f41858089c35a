//! Rules: what may begin at the cursor.

pub mod impls;

use crate::parsing::collect::{container_at, RuleFailed, Success};
use crate::parsing::condition::ParseCondition;
use crate::parsing::parser::Parser;
use crate::parsing::rule::impls::{bold, italics, strikethrough};
use crate::parsing::token::{line_starts, ExtractedToken, Token};
use crate::tree::ContainerType;
use vstd::prelude::*;

verus! {

/// Where in a line a rule may apply.
#[derive(Debug, Clone, Copy, PartialEq, Eq, Structural)]
pub enum LineRequirement {
    /// Anywhere.
    Any,
    /// Only where a line begins.
    StartOfLine,
}

/// Which construct a rule reads.
#[derive(Debug, Clone, Copy, PartialEq, Eq, Structural)]
pub enum RuleKind {
    Bold,
    Italics,
    Strikethrough,
}

/// A rule: its name, where it may apply, and what it reads.
#[derive(Debug, Clone, Copy)]
pub struct Rule {
    pub name: &'static str,
    pub position: LineRequirement,
    pub kind: RuleKind,
}

impl LineRequirement {
    /// The requirement is met at `pos`.
    pub open spec fn met(self, tokens: Seq<ExtractedToken>, pos: int) -> bool {
        match self {
            LineRequirement::Any => true,
            LineRequirement::StartOfLine => line_starts(tokens, pos),
        }
    }
}

impl RuleKind {
    /// The kind of container that the rule builds.
    pub open spec fn container(self) -> ContainerType {
        match self {
            RuleKind::Bold => ContainerType::Bold,
            RuleKind::Italics => ContainerType::Italics,
            RuleKind::Strikethrough => ContainerType::Strikethrough,
        }
    }

    /// The delimiter of the construct.
    pub open spec fn delimiter(self) -> Token {
        match self {
            RuleKind::Bold => Token::Bold,
            RuleKind::Italics => Token::Italics,
            RuleKind::Strikethrough => Token::DoubleDash,
        }
    }

    /// The construct begins with its delimiter.
    pub open spec fn start(self) -> Seq<ParseCondition> {
        seq![ParseCondition::CurrentToken(self.delimiter())]
    }

    /// The construct ends with its delimiter.
    pub open spec fn end(self) -> Seq<ParseCondition> {
        seq![ParseCondition::CurrentToken(self.delimiter())]
    }

    /// What ends the construct without closing it: a break, or the delimiter
    /// beside whitespace. A line break ends a strikethrough only.
    pub open spec fn interrupt(self) -> Seq<ParseCondition> {
        let shared = seq![
            ParseCondition::CurrentToken(Token::ParagraphBreak),
            ParseCondition::TokenPair(self.delimiter(), Token::Whitespace),
            ParseCondition::TokenPair(Token::Whitespace, self.delimiter()),
        ];
        match self {
            RuleKind::Strikethrough => seq![ParseCondition::CurrentToken(Token::LineBreak)]
                + shared,
            _ => shared,
        }
    }
}

impl Rule {
    /// Tries the rule at the cursor. Where the rule does not apply, the
    /// cursor stays where it is.
    pub fn try_consume(&self, parser: &mut Parser) -> (r: Result<Success, RuleFailed>)
        requires
            old(parser).wf(),
        ensures
            final(parser).wf(),
            final(parser).same_input(old(parser)),
            match container_at(old(parser).tokens(), old(parser).rules(), *self, old(parser).at()) {
                Some(found) => r matches Ok(s) && s.element@ == found.element && s.closing
                    == found.closing && final(parser).at() == found.next && old(parser).at()
                    < found.next,
                None => r matches Err(e) && e.rule@ == self.name@ && e.position == old(
                    parser,
                ).at() && final(parser).at() == old(parser).at(),
            },
        decreases old(parser).left(), 1int, 2int,
    {
        let applies = match self.position {
            LineRequirement::Any => true,
            LineRequirement::StartOfLine => parser.at_line_start(),
        };
        if !applies {
            return Err(RuleFailed { rule: self.name, position: parser.position() });
        }
        let r = match self.kind {
            RuleKind::Bold => bold::try_consume_fn(parser),
            RuleKind::Italics => italics::try_consume_fn(parser),
            RuleKind::Strikethrough => strikethrough::try_consume_fn(parser),
        };
        match r {
            Ok(s) => Ok(s),
            Err(e) => Err(RuleFailed { rule: self.name, position: e.position }),
        }
    }
}

} // verus!
