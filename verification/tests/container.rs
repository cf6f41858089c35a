use ftml::parsing::collect::{collect_container, consume, Closing, RuleFailed, Success};
use ftml::parsing::condition::ParseCondition;
use ftml::parsing::parser::Parser;
use ftml::parsing::rule::impls::bold::rule_bold;
use ftml::parsing::rule::impls::italics::rule_italics;
use ftml::parsing::rule::impls::strikethrough::{rule_strikethrough, try_consume_fn};
use ftml::parsing::rule::{LineRequirement, Rule, RuleKind};
use ftml::parsing::token::{ExtractedToken, Token};
use ftml::tree::{AttributeMap, Container, ContainerType, Element};

fn token(kind: Token) -> ExtractedToken {
    let slice = match kind {
        Token::Bold => "**",
        Token::Italics => "//",
        Token::DoubleDash => "--",
        Token::Whitespace => " ",
        Token::LineBreak => "\n",
        Token::ParagraphBreak => "\n\n",
        Token::Identifier => "word",
        Token::Other => "?",
    };
    ExtractedToken::new(kind, slice)
}

fn text(slice: &str) -> ExtractedToken {
    ExtractedToken::new(Token::Identifier, slice)
}

fn rules() -> Vec<Rule> {
    vec![rule_bold(), rule_italics(), rule_strikethrough()]
}

fn leaf(slice: &str) -> Element {
    Element::Text(String::from(slice))
}

fn container(ctype: ContainerType, elements: Vec<Element>) -> Element {
    Element::Container(Container::new(ctype, elements, AttributeMap::new()))
}

#[test]
fn a_closed_container() {
    let mut parser = Parser::new(vec![token(Token::DoubleDash), text("gone"), token(Token::DoubleDash)], rules());
    let result = try_consume_fn(&mut parser);
    assert_eq!(
        result,
        Ok(Success {
            element: container(ContainerType::Strikethrough, vec![leaf("gone")]),
            closing: Closing::Closed,
        })
    );
    assert_eq!(parser.position(), 3);
    assert!(parser.exhausted());
}

#[test]
fn a_line_break_interrupts() {
    let mut parser = Parser::new(vec![token(Token::DoubleDash), text("gone"), token(Token::LineBreak)], rules());
    let result = try_consume_fn(&mut parser);
    assert_eq!(
        result,
        Ok(Success {
            element: container(ContainerType::Strikethrough, vec![leaf("gone")]),
            closing: Closing::Unterminated,
        })
    );
    assert_eq!(parser.position(), 2);
    assert_eq!(parser.current().map(|t| t.token), Some(Token::LineBreak));
}

#[test]
fn the_end_of_the_tokens_leaves_the_container_unterminated() {
    let mut parser = Parser::new(vec![token(Token::DoubleDash), text("a"), token(Token::Whitespace), text("b")], rules());
    let result = try_consume_fn(&mut parser);
    assert_eq!(
        result,
        Ok(Success {
            element: container(ContainerType::Strikethrough, vec![leaf("a"), leaf(" "), leaf("b")]),
            closing: Closing::Unterminated,
        })
    );
    assert_eq!(parser.position(), 4);
}

#[test]
fn without_a_start_the_rule_fails_and_the_cursor_stays() {
    let mut parser = Parser::new(vec![text("a"), token(Token::DoubleDash)], rules());
    assert_eq!(try_consume_fn(&mut parser), Err(RuleFailed { rule: "strikethrough", position: 0 }));
    assert_eq!(parser.position(), 0);
    let mut parser = Parser::new(vec![], rules());
    assert_eq!(try_consume_fn(&mut parser), Err(RuleFailed { rule: "strikethrough", position: 0 }));
}

#[test]
fn an_empty_container() {
    let mut parser = Parser::new(vec![token(Token::DoubleDash), token(Token::DoubleDash), text("x")], rules());
    assert_eq!(
        try_consume_fn(&mut parser),
        Ok(Success { element: container(ContainerType::Strikethrough, vec![]), closing: Closing::Closed })
    );
    assert_eq!(parser.position(), 2);
}

#[test]
fn whitespace_before_the_closing_delimiter_interrupts() {
    let tokens = vec![token(Token::DoubleDash), text("a"), token(Token::Whitespace), token(Token::DoubleDash)];
    let mut parser = Parser::new(tokens, rules());
    assert_eq!(
        try_consume_fn(&mut parser),
        Ok(Success {
            element: container(ContainerType::Strikethrough, vec![leaf("a")]),
            closing: Closing::Unterminated,
        })
    );
    assert_eq!(parser.position(), 2);
}

#[test]
fn a_paragraph_break_interrupts() {
    let tokens = vec![token(Token::DoubleDash), token(Token::ParagraphBreak), token(Token::DoubleDash)];
    let mut parser = Parser::new(tokens, rules());
    assert_eq!(
        try_consume_fn(&mut parser),
        Ok(Success { element: container(ContainerType::Strikethrough, vec![]), closing: Closing::Unterminated })
    );
    assert_eq!(parser.position(), 1);
}

#[test]
fn containers_nest() {
    let tokens = vec![
        token(Token::DoubleDash),
        text("a"),
        token(Token::Italics),
        text("b"),
        token(Token::Bold),
        text("c"),
        token(Token::Bold),
        token(Token::Italics),
        text("d"),
        token(Token::DoubleDash),
        text("e"),
    ];
    let mut parser = Parser::new(tokens, rules());
    let inner = container(
        ContainerType::Italics,
        vec![leaf("b"), container(ContainerType::Bold, vec![leaf("c")])],
    );
    assert_eq!(
        try_consume_fn(&mut parser),
        Ok(Success {
            element: container(ContainerType::Strikethrough, vec![leaf("a"), inner, leaf("d")]),
            closing: Closing::Closed,
        })
    );
    assert_eq!(parser.position(), 10);
}

#[test]
fn a_line_break_does_not_interrupt_bold() {
    let tokens = vec![token(Token::Bold), text("a"), token(Token::LineBreak), text("b"), token(Token::Bold)];
    let mut parser = Parser::new(tokens, rules());
    let rule = rule_bold();
    assert_eq!(
        rule.try_consume(&mut parser),
        Ok(Success {
            element: container(ContainerType::Bold, vec![leaf("a"), leaf("\n"), leaf("b")]),
            closing: Closing::Closed,
        })
    );
    assert_eq!(parser.position(), 5);
}

#[test]
fn an_inner_container_may_stay_open() {
    let tokens = vec![token(Token::DoubleDash), token(Token::Bold), text("a"), token(Token::DoubleDash)];
    let mut parser = Parser::new(tokens, rules());
    // Inside the bold container the second `--` opens a strikethrough of its own.
    let innermost = container(ContainerType::Strikethrough, vec![]);
    let bold = container(ContainerType::Bold, vec![leaf("a"), innermost]);
    assert_eq!(
        try_consume_fn(&mut parser),
        Ok(Success {
            element: container(ContainerType::Strikethrough, vec![bold]),
            closing: Closing::Unterminated,
        })
    );
    assert_eq!(parser.position(), 4);
}

#[test]
fn consume_tries_the_rules_in_order_and_falls_back_to_text() {
    let tokens = vec![text("plain"), token(Token::Italics), text("i"), token(Token::Italics)];
    let mut parser = Parser::new(tokens, rules());
    assert_eq!(consume(&mut parser), leaf("plain"));
    assert_eq!(parser.position(), 1);
    assert_eq!(consume(&mut parser), container(ContainerType::Italics, vec![leaf("i")]));
    assert_eq!(parser.position(), 4);
}

#[test]
fn without_rules_every_token_is_text() {
    let mut parser = Parser::new(vec![token(Token::DoubleDash), text("a")], vec![]);
    assert_eq!(consume(&mut parser), leaf("--"));
    assert_eq!(consume(&mut parser), leaf("a"));
    assert!(parser.exhausted());
}

#[test]
fn a_rule_for_line_starts_applies_only_there() {
    let rule = Rule { name: "line-strike", position: LineRequirement::StartOfLine, kind: RuleKind::Strikethrough };
    let tokens = vec![text("a"), token(Token::DoubleDash), text("b"), token(Token::LineBreak), token(Token::DoubleDash), text("c")];
    let mut parser = Parser::new(tokens, vec![rule]);
    assert!(parser.at_line_start());
    parser.step();
    assert!(!parser.at_line_start());
    assert_eq!(rule.try_consume(&mut parser), Err(RuleFailed { rule: "line-strike", position: 1 }));
    assert_eq!(parser.position(), 1);
    parser.skip(3);
    assert!(parser.at_line_start());
    assert_eq!(
        rule.try_consume(&mut parser),
        Ok(Success {
            element: container(ContainerType::Strikethrough, vec![leaf("c")]),
            closing: Closing::Unterminated,
        })
    );
}

#[test]
fn a_failing_rule_reports_its_own_name() {
    let rule = Rule { name: "renamed", position: LineRequirement::Any, kind: RuleKind::Bold };
    let mut parser = Parser::new(vec![text("a")], vec![rule]);
    assert_eq!(rule.try_consume(&mut parser), Err(RuleFailed { rule: "renamed", position: 0 }));
}

#[test]
fn conditions_look_at_one_or_two_tokens() {
    let tokens = vec![token(Token::DoubleDash), token(Token::Whitespace), text("a")];
    let mut parser = Parser::new(tokens, rules());
    assert!(parser.evaluate(ParseCondition::current(Token::DoubleDash)));
    assert!(!parser.evaluate(ParseCondition::current(Token::Whitespace)));
    assert!(parser.evaluate(ParseCondition::token_pair(Token::DoubleDash, Token::Whitespace)));
    assert!(!parser.evaluate(ParseCondition::token_pair(Token::DoubleDash, Token::Identifier)));
    assert!(!parser.evaluate(ParseCondition::token_pair(Token::Whitespace, Token::Identifier)));
    parser.skip(2);
    assert!(parser.evaluate(ParseCondition::current(Token::Identifier)));
    assert!(!parser.evaluate(ParseCondition::token_pair(Token::Identifier, Token::Identifier)));
    parser.step();
    assert!(!parser.evaluate(ParseCondition::current(Token::Identifier)));
    assert_eq!(parser.current(), None);
}

#[test]
fn the_first_condition_that_is_met_wins() {
    let tokens = vec![token(Token::DoubleDash), token(Token::Whitespace)];
    let parser = Parser::new(tokens, rules());
    let pair = ParseCondition::token_pair(Token::DoubleDash, Token::Whitespace);
    let single = ParseCondition::current(Token::DoubleDash);
    let other = ParseCondition::current(Token::Bold);
    assert_eq!(parser.first_match(&[other, pair, single]), Some(pair));
    assert_eq!(parser.first_match(&[single, pair]), Some(single));
    assert_eq!(parser.first_match(&[other]), None);
    assert_eq!(parser.first_match(&[]), None);
    assert!(parser.evaluate_any(&[other, single]));
    assert!(!parser.evaluate_any(&[other]));
}

#[test]
fn a_matched_pair_is_passed_over_whole() {
    let tokens = vec![
        token(Token::Other),
        token(Token::Whitespace),
        text("a"),
        token(Token::Whitespace),
        token(Token::Other),
        text("b"),
    ];
    let mut parser = Parser::new(tokens, vec![]);
    let mut attributes = AttributeMap::new();
    attributes.push(String::from("class"), String::from("note"));
    let result = collect_container(
        &mut parser,
        rule_strikethrough(),
        ContainerType::Italics,
        attributes,
        &[ParseCondition::token_pair(Token::Other, Token::Whitespace)],
        &[ParseCondition::token_pair(Token::Whitespace, Token::Other)],
        &[],
    );
    let mut expected = AttributeMap::new();
    expected.push(String::from("class"), String::from("note"));
    assert_eq!(
        result,
        Ok(Success {
            element: Element::Container(Container::new(ContainerType::Italics, vec![leaf("a")], expected)),
            closing: Closing::Closed,
        })
    );
    assert_eq!(parser.position(), 5);
}

#[test]
fn look_ahead_reads_behind_the_cursor() {
    let parser = Parser::new(vec![text("a"), text("b"), text("c")], vec![]);
    assert_eq!(parser.look_ahead(0).map(|t| t.slice.as_str()), Some("b"));
    assert_eq!(parser.look_ahead(1).map(|t| t.slice.as_str()), Some("c"));
    assert_eq!(parser.look_ahead(2), None);
    assert_eq!(parser.look_ahead(usize::MAX), None);
    assert_eq!(parser.rule_count(), 0);
}
