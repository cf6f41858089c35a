//! Collecting a container: the mechanism that every delimited inline
//! construct is read by.
//!
//! A container begins where one of its start conditions is met. The tokens of
//! that condition are passed over, and elements are read one after the other
//! until an end condition is met (its tokens are passed over and the container
//! is closed), an interrupt condition is met (nothing is passed over and the
//! container stays unterminated), or no token is left (unterminated too). The
//! end conditions are looked at before the interrupt conditions.
//!
//! An element is what the first rule that applies reads; where none applies,
//! it is the token at the cursor as text.

use crate::parsing::condition::{lemma_first_holding, matched, ParseCondition};
use crate::parsing::parser::Parser;
use crate::parsing::rule::Rule;
use crate::parsing::token::ExtractedToken;
use crate::tree::{
    element_views, lemma_container_view, AttributeMap, Container, ContainerType, Element,
    ElementView,
};
use vstd::prelude::*;

verus! {

/// How a container came to its end.
#[derive(Debug, Clone, Copy, PartialEq, Eq, Structural)]
pub enum Closing {
    /// An end condition was met.
    Closed,
    /// An interrupt condition was met, or the tokens ran out.
    Unterminated,
}

/// What a rule has read.
#[derive(Debug, PartialEq, Eq)]
pub struct Success {
    pub element: Element,
    pub closing: Closing,
}

/// A rule did not apply at the cursor.
#[derive(Debug, Clone, Copy, PartialEq, Eq)]
pub struct RuleFailed {
    /// The name of the rule.
    pub rule: &'static str,
    /// The index of the token at which it was tried.
    pub position: usize,
}

/// A container as the specification has it: the tree, how it ended, and the
/// index of the token behind it.
pub struct Found {
    pub element: ElementView,
    pub closing: Closing,
    pub next: int,
}

/// The inside of a container: its children, how it ended, and the index of the
/// token behind it.
pub struct Collected {
    pub children: Seq<ElementView>,
    pub closing: Closing,
    pub next: int,
}

/// The rest of a container's inside from `pos` on, after the children that
/// were read already.
pub open spec fn collected(
    tokens: Seq<ExtractedToken>,
    rules: Seq<Rule>,
    end: Seq<ParseCondition>,
    interrupt: Seq<ParseCondition>,
    pos: int,
    children: Seq<ElementView>,
) -> Collected
    decreases tokens.len() - pos, 3int, 0int,
{
    if pos < 0 || pos >= tokens.len() {
        Collected { children, closing: Closing::Unterminated, next: pos }
    } else {
        match matched(end, tokens, pos) {
            Some(condition) => Collected {
                children,
                closing: Closing::Closed,
                next: pos + condition.width(),
            },
            None => if matched(interrupt, tokens, pos) is Some {
                Collected { children, closing: Closing::Unterminated, next: pos }
            } else {
                let element = element_at(tokens, rules, pos);
                let next = if pos < element.1 <= tokens.len() {
                    element.1
                } else {
                    pos + 1
                };
                collected(tokens, rules, end, interrupt, next, children.push(element.0))
            },
        }
    }
}

/// The element that begins at `pos`, and the index of the token behind it.
pub open spec fn element_at(tokens: Seq<ExtractedToken>, rules: Seq<Rule>, pos: int) -> (
    ElementView,
    int,
)
    decreases tokens.len() - pos, 2int, 0int,
{
    match first_rule_at(tokens, rules, pos, 0) {
        Some(found) => (found.element, found.next),
        None => (ElementView::Text(tokens[pos].slice@), pos + 1),
    }
}

/// What the first rule from index `from` on that applies at `pos` reads.
pub open spec fn first_rule_at(
    tokens: Seq<ExtractedToken>,
    rules: Seq<Rule>,
    pos: int,
    from: int,
) -> Option<Found>
    decreases tokens.len() - pos, 1int, rules.len() - from,
{
    if from < 0 || from >= rules.len() {
        None
    } else {
        match container_at(tokens, rules, rules[from], pos) {
            Some(found) => Some(found),
            None => first_rule_at(tokens, rules, pos, from + 1),
        }
    }
}

/// What `rule` reads at `pos`, if it applies there.
pub open spec fn container_at(
    tokens: Seq<ExtractedToken>,
    rules: Seq<Rule>,
    rule: Rule,
    pos: int,
) -> Option<Found>
    decreases tokens.len() - pos, 0int, 1int,
{
    if rule.position.met(tokens, pos) {
        container_with(
            tokens,
            rules,
            rule.kind.container(),
            Seq::empty(),
            rule.kind.start(),
            rule.kind.end(),
            rule.kind.interrupt(),
            pos,
        )
    } else {
        None
    }
}

/// The container that begins at `pos` under the given conditions, if a start
/// condition is met there.
pub open spec fn container_with(
    tokens: Seq<ExtractedToken>,
    rules: Seq<Rule>,
    ctype: ContainerType,
    attributes: Seq<(Seq<char>, Seq<char>)>,
    start: Seq<ParseCondition>,
    end: Seq<ParseCondition>,
    interrupt: Seq<ParseCondition>,
    pos: int,
) -> Option<Found>
    decreases tokens.len() - pos, 0int, 0int,
{
    match matched(start, tokens, pos) {
        Some(condition) => {
            proof {
                lemma_first_holding(start, tokens, pos, 0);
            }
            let inside = collected(
                tokens,
                rules,
                end,
                interrupt,
                pos + condition.width(),
                Seq::empty(),
            );
            Some(
                Found {
                    element: ElementView::Container { ctype, attributes, children: inside.children },
                    closing: inside.closing,
                    next: inside.next,
                },
            )
        },
        None => None,
    }
}

/// Reads one element at the cursor.
pub fn consume(parser: &mut Parser) -> (element: Element)
    requires
        old(parser).wf(),
        old(parser).at() < old(parser).tokens().len(),
    ensures
        final(parser).wf(),
        final(parser).same_input(old(parser)),
        old(parser).at() < final(parser).at(),
        (element@, final(parser).at()) == element_at(
            old(parser).tokens(),
            old(parser).rules(),
            old(parser).at(),
        ),
    decreases old(parser).left(), 2int, 0int,
{
    let mut i: usize = 0;
    while i < parser.rule_count()
        invariant
            parser.wf(),
            parser.same_input(old(parser)),
            parser.at() == old(parser).at(),
            parser.at() < parser.tokens().len(),
            i <= parser.rules().len(),
            first_rule_at(parser.tokens(), parser.rules(), parser.at(), 0) == first_rule_at(
                parser.tokens(),
                parser.rules(),
                parser.at(),
                i as int,
            ),
        decreases parser.rules().len() - i,
    {
        let rule = parser.rule(i);
        match rule.try_consume(parser) {
            Ok(success) => {
                return success.element;
            },
            Err(_) => {},
        }
        i = i + 1;
    }
    let text = match parser.current() {
        Some(token) => token.slice.clone(),
        None => String::new(),
    };
    parser.step();
    Element::Text(text)
}

/// Reads a container at the cursor.
///
/// Where no start condition is met, the rule has failed and the cursor stays
/// where it is. Otherwise the container is read as the module says, and the
/// cursor stands behind it.
pub fn collect_container(
    parser: &mut Parser,
    rule: Rule,
    ctype: ContainerType,
    attributes: AttributeMap,
    start: &[ParseCondition],
    end: &[ParseCondition],
    interrupt: &[ParseCondition],
) -> (r: Result<Success, RuleFailed>)
    requires
        old(parser).wf(),
    ensures
        final(parser).wf(),
        final(parser).same_input(old(parser)),
        match container_with(
            old(parser).tokens(),
            old(parser).rules(),
            ctype,
            attributes@,
            start@,
            end@,
            interrupt@,
            old(parser).at(),
        ) {
            Some(found) => r matches Ok(s) && s.element@ == found.element && s.closing
                == found.closing && final(parser).at() == found.next && old(parser).at()
                < found.next,
            None => r matches Err(e) && e.rule@ == rule.name@ && e.position == old(parser).at()
                && final(parser).at() == old(parser).at(),
        },
    decreases old(parser).left(), 0int, 0int,
{
    let opening = match parser.first_match(start) {
        Some(condition) => condition,
        None => {
            return Err(RuleFailed { rule: rule.name, position: parser.position() });
        },
    };
    parser.skip(opening.token_count());
    let ghost tokens = parser.tokens();
    let ghost rules = parser.rules();
    let ghost begin = parser.at();
    let mut children: Vec<Element> = Vec::new();
    let mut closing = Closing::Unterminated;
    proof {
        assert(element_views(children@) =~= Seq::<ElementView>::empty());
    }
    loop
        invariant_except_break
            collected(tokens, rules, end@, interrupt@, begin, Seq::empty()) == collected(
                tokens,
                rules,
                end@,
                interrupt@,
                parser.at(),
                element_views(children@),
            ),
        invariant
            parser.wf(),
            parser.same_input(old(parser)),
            tokens == parser.tokens(),
            rules == parser.rules(),
            old(parser).at() < begin <= parser.at(),
        ensures
            element_views(children@) == collected(
                tokens,
                rules,
                end@,
                interrupt@,
                begin,
                Seq::empty(),
            ).children,
            closing == collected(tokens, rules, end@, interrupt@, begin, Seq::empty()).closing,
            parser.at() == collected(tokens, rules, end@, interrupt@, begin, Seq::empty()).next,
        decreases parser.left(),
    {
        if parser.exhausted() {
            closing = Closing::Unterminated;
            break;
        }
        match parser.first_match(end) {
            Some(condition) => {
                parser.skip(condition.token_count());
                closing = Closing::Closed;
                break;
            },
            None => {},
        }
        if parser.evaluate_any(interrupt) {
            closing = Closing::Unterminated;
            break;
        }
        let ghost before = element_views(children@);
        let element = consume(parser);
        children.push(element);
        proof {
            assert(element_views(children@) =~= before.push(element@));
        }
    }
    let container = Container::new(ctype, children, attributes);
    proof {
        lemma_container_view(container);
    }
    Ok(Success { element: Element::Container(container), closing })
}

} // verus!
