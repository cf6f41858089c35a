//! The rule for italics text.

use crate::parsing::collect::{collect_container, container_with, RuleFailed, Success};
use crate::parsing::condition::ParseCondition;
use crate::parsing::parser::Parser;
use crate::parsing::rule::{LineRequirement, Rule, RuleKind};
use crate::parsing::token::Token;
use crate::tree::{AttributeMap, ContainerType};
use vstd::prelude::*;

verus! {

/// The rule as the parser's list of rules holds it.
pub fn rule_italics() -> (r: Rule)
    ensures
        r.name@ == "italics"@,
        r.position == LineRequirement::Any,
        r.kind == RuleKind::Italics,
{
    Rule { name: "italics", position: LineRequirement::Any, kind: RuleKind::Italics }
}

/// Reads a italics container at the cursor, if one begins there.
pub fn try_consume_fn(parser: &mut Parser) -> (r: Result<Success, RuleFailed>)
    requires
        old(parser).wf(),
    ensures
        final(parser).wf(),
        final(parser).same_input(old(parser)),
        match container_with(
            old(parser).tokens(),
            old(parser).rules(),
            ContainerType::Italics,
            Seq::empty(),
            RuleKind::Italics.start(),
            RuleKind::Italics.end(),
            RuleKind::Italics.interrupt(),
            old(parser).at(),
        ) {
            Some(found) => r matches Ok(s) && s.element@ == found.element && s.closing
                == found.closing && final(parser).at() == found.next && old(parser).at()
                < found.next,
            None => r matches Err(e) && e.rule@ == "italics"@ && e.position == old(parser).at()
                && final(parser).at() == old(parser).at(),
        },
    decreases old(parser).left(), 1int, 0int,
{
    let start = vec![ParseCondition::current(Token::Italics)];
    let end = vec![ParseCondition::current(Token::Italics)];
    let interrupt = vec![
        ParseCondition::current(Token::ParagraphBreak),
        ParseCondition::token_pair(Token::Italics, Token::Whitespace),
        ParseCondition::token_pair(Token::Whitespace, Token::Italics),
    ];
    proof {
        assert(start@ =~= RuleKind::Italics.start());
        assert(end@ =~= RuleKind::Italics.end());
        assert(interrupt@ =~= RuleKind::Italics.interrupt());
    }
    collect_container(
        parser,
        rule_italics(),
        ContainerType::Italics,
        AttributeMap::new(),
        start.as_slice(),
        end.as_slice(),
        interrupt.as_slice(),
    )
}

} // verus!
