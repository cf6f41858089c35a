//! The rule for strikethrough text.

use crate::parsing::collect::{collect_container, container_with, RuleFailed, Success};
use crate::parsing::condition::ParseCondition;
use crate::parsing::parser::Parser;
use crate::parsing::rule::{LineRequirement, Rule, RuleKind};
use crate::parsing::token::Token;
use crate::tree::{AttributeMap, ContainerType};
use vstd::prelude::*;

verus! {

/// The rule as the parser's list of rules holds it.
pub fn rule_strikethrough() -> (r: Rule)
    ensures
        r.name@ == "strikethrough"@,
        r.position == LineRequirement::Any,
        r.kind == RuleKind::Strikethrough,
{
    Rule { name: "strikethrough", position: LineRequirement::Any, kind: RuleKind::Strikethrough }
}

/// Reads a strikethrough container at the cursor, if one begins there.
pub fn try_consume_fn(parser: &mut Parser) -> (r: Result<Success, RuleFailed>)
    requires
        old(parser).wf(),
    ensures
        final(parser).wf(),
        final(parser).same_input(old(parser)),
        match container_with(
            old(parser).tokens(),
            old(parser).rules(),
            ContainerType::Strikethrough,
            Seq::empty(),
            RuleKind::Strikethrough.start(),
            RuleKind::Strikethrough.end(),
            RuleKind::Strikethrough.interrupt(),
            old(parser).at(),
        ) {
            Some(found) => r matches Ok(s) && s.element@ == found.element && s.closing
                == found.closing && final(parser).at() == found.next && old(parser).at()
                < found.next,
            None => r matches Err(e) && e.rule@ == "strikethrough"@ && e.position == old(parser).at()
                && final(parser).at() == old(parser).at(),
        },
    decreases old(parser).left(), 1int, 0int,
{
    let start = vec![ParseCondition::current(Token::DoubleDash)];
    let end = vec![ParseCondition::current(Token::DoubleDash)];
    let interrupt = vec![
        ParseCondition::current(Token::LineBreak),
        ParseCondition::current(Token::ParagraphBreak),
        ParseCondition::token_pair(Token::DoubleDash, Token::Whitespace),
        ParseCondition::token_pair(Token::Whitespace, Token::DoubleDash),
    ];
    proof {
        assert(start@ =~= RuleKind::Strikethrough.start());
        assert(end@ =~= RuleKind::Strikethrough.end());
        assert(interrupt@ =~= RuleKind::Strikethrough.interrupt());
    }
    collect_container(
        parser,
        rule_strikethrough(),
        ContainerType::Strikethrough,
        AttributeMap::new(),
        start.as_slice(),
        end.as_slice(),
        interrupt.as_slice(),
    )
}

} // verus!
