use ftml::data::PageRef;
use ftml::includes::{find_includes, resolve_includes, substitute, FetchedPage, IncludeRef, Includer};
use ftml::settings::WikitextSettings;
use ftml::text::Span;

#[derive(Debug, PartialEq, Eq)]
enum Failure {
    Invalid,
    Fetch,
    Fallback,
}

/// Knows a few pages by name.
struct Pages {
    known: Vec<(&'static str, &'static str)>,
    missing: &'static str,
    asked: Vec<Vec<String>>,
    fallbacks: Vec<String>,
}

impl Pages {
    fn new(known: &[(&'static str, &'static str)]) -> Pages {
        Pages { known: known.to_vec(), missing: "[[MISSING]]", asked: vec![], fallbacks: vec![] }
    }
}

impl Includer for &mut Pages {
    type Error = Failure;

    fn include_pages(&mut self, includes: &[IncludeRef]) -> Result<Vec<FetchedPage>, Failure> {
        self.asked.push(includes.iter().map(|i| i.page_ref().page().to_string()).collect());
        let mut fetched = Vec::new();
        for request in includes {
            let name = request.page_ref().page();
            let content = self.known.iter().find(|(n, _)| *n == name).map(|(_, c)| c.to_string());
            fetched.push(FetchedPage { page_ref: request.page_ref().duplicate(), content });
        }
        Ok(fetched)
    }

    fn no_such_include(&mut self, page_ref: &PageRef) -> Result<String, Failure> {
        self.fallbacks.push(page_ref.page().to_string());
        Ok(self.missing.to_string())
    }
}

/// Must never be asked.
struct Untouchable;

impl Includer for Untouchable {
    type Error = Failure;

    fn include_pages(&mut self, _includes: &[IncludeRef]) -> Result<Vec<FetchedPage>, Failure> {
        panic!("the includer was asked for pages");
    }

    fn no_such_include(&mut self, _page_ref: &PageRef) -> Result<String, Failure> {
        panic!("the includer was asked for a replacement");
    }
}

/// Answers with what it was given, whatever is asked.
struct Fixed {
    answer: Option<Vec<FetchedPage>>,
    fallback: Option<String>,
}

impl Includer for Fixed {
    type Error = Failure;

    fn include_pages(&mut self, _includes: &[IncludeRef]) -> Result<Vec<FetchedPage>, Failure> {
        self.answer.take().ok_or(Failure::Fetch)
    }

    fn no_such_include(&mut self, _page_ref: &PageRef) -> Result<String, Failure> {
        self.fallback.clone().ok_or(Failure::Fallback)
    }
}

fn enabled() -> WikitextSettings {
    WikitextSettings { enable_page_syntax: true, use_include_compatibility: false }
}

fn disabled() -> WikitextSettings {
    WikitextSettings { enable_page_syntax: false, use_include_compatibility: false }
}

fn page(name: &str, content: Option<&str>) -> FetchedPage {
    FetchedPage { page_ref: PageRef::page_only(name), content: content.map(String::from) }
}

#[test]
fn a_block_gives_way_to_its_page() {
    let mut pages = Pages::new(&[("page-a", "Hello")]);
    let result = resolve_includes("A\n[[include-messy page-a]] B", &enabled(), &mut pages, || Failure::Invalid);
    assert_eq!(result, Ok((String::from("A\nHello B"), vec![PageRef::page_only("page-a")])));
    assert_eq!(pages.asked, vec![vec![String::from("page-a")]]);
    assert!(pages.fallbacks.is_empty());
}

#[test]
fn a_block_at_the_very_start() {
    let mut pages = Pages::new(&[("page-a", "Hello")]);
    let result = resolve_includes("[[include-messy page-a]] B", &enabled(), &mut pages, || Failure::Invalid);
    assert_eq!(result, Ok((String::from("Hello B"), vec![PageRef::page_only("page-a")])));
}

#[test]
fn a_block_inside_a_line_is_no_block() {
    let mut pages = Pages::new(&[("page-a", "Hello")]);
    let input = "A [[include-messy page-a]] B";
    let result = resolve_includes(input, &enabled(), &mut pages, || Failure::Invalid);
    assert_eq!(result, Ok((String::from(input), vec![])));
    assert_eq!(pages.asked, vec![Vec::<String>::new()]);
}

#[test]
fn a_missing_page_gives_way_to_the_replacement() {
    let mut pages = Pages::new(&[]);
    let result = resolve_includes("A\n[[include-messy page-a]] B", &enabled(), &mut pages, || Failure::Invalid);
    assert_eq!(result, Ok((String::from("A\n[[MISSING]] B"), vec![PageRef::page_only("page-a")])));
    assert_eq!(pages.fallbacks, vec![String::from("page-a")]);
}

#[test]
fn nothing_happens_where_page_syntax_is_off() {
    let input = "[[include-messy page-a]]\n[[include-messy broken\n{$x}";
    let result = resolve_includes(input, &disabled(), Untouchable, || Failure::Invalid);
    assert_eq!(result, Ok((String::from(input), vec![])));
}

#[test]
fn text_without_blocks_comes_back_as_it_is() {
    let mut pages = Pages::new(&[("page-a", "Hello")]);
    let input = "no blocks here\n[[module x]]\n{$var} — ü";
    let result = resolve_includes(input, &enabled(), &mut pages, || Failure::Invalid);
    assert_eq!(result, Ok((String::from(input), vec![])));
    assert_eq!(pages.asked, vec![Vec::<String>::new()]);
}

#[test]
fn all_pages_are_asked_for_at_once_and_come_back_in_order() {
    let mut pages = Pages::new(&[("first", "1111111111"), ("third", "3")]);
    let input = "a\n[[include-messy first]]\nb\n[[include-messy second]]\nc\n[[include-messy third]]\nd";
    let result = resolve_includes(input, &enabled(), &mut pages, || Failure::Invalid);
    assert_eq!(
        result,
        Ok((
            String::from("a\n1111111111\nb\n[[MISSING]]\nc\n3\nd"),
            vec![PageRef::page_only("first"), PageRef::page_only("second"), PageRef::page_only("third")]
        ))
    );
    assert_eq!(
        pages.asked,
        vec![vec![String::from("first"), String::from("second"), String::from("third")]]
    );
    assert_eq!(pages.fallbacks, vec![String::from("second")]);
}

#[test]
fn a_malformed_block_stays_in_the_text() {
    let mut pages = Pages::new(&[("good", "G")]);
    let input = "[[include-messy bad novalue]]\n[[include-messy good]]\n[[include-messy open";
    let result = resolve_includes(input, &enabled(), &mut pages, || Failure::Invalid);
    assert_eq!(
        result,
        Ok((
            String::from("[[include-messy bad novalue]]\nG\n[[include-messy open"),
            vec![PageRef::page_only("good")]
        ))
    );
    assert_eq!(pages.asked, vec![vec![String::from("good")]]);
}

#[test]
fn an_opening_inside_a_block_is_passed_over() {
    let mut pages = Pages::new(&[("outer", "O"), ("inner", "I")]);
    let input = "[[include-messy outer x=\n[[include-messy inner]]\nend";
    let result = resolve_includes(input, &enabled(), &mut pages, || Failure::Invalid);
    assert_eq!(result, Ok((String::from("O\nend"), vec![PageRef::page_only("outer")])));
}

#[test]
fn the_page_is_stripped_and_filled_in() {
    let mut pages = Pages::new(&[(
        "box",
        "<{$title}>\n[[noinclude]]\nusage notes {$title}\n[[/noinclude]]\n{$body} {$unknown}",
    )]);
    let input = "über\n[[include-messy box title=T — t | body={$title}]]\nende";
    let result = resolve_includes(input, &enabled(), &mut pages, || Failure::Invalid);
    assert_eq!(
        result,
        Ok((String::from("über\n<T — t>\n\n{$title} {$unknown}\nende"), vec![PageRef::page_only("box")]))
    );
}

#[test]
fn the_replacement_is_taken_as_it_is() {
    let mut pages = Pages::new(&[]);
    pages.missing = "{$a}\n[[noinclude]]\nx\n[[/noinclude]]";
    let result = resolve_includes("[[include-messy gone a=1]]", &enabled(), &mut pages, || Failure::Invalid);
    assert_eq!(
        result,
        Ok((String::from("{$a}\n[[noinclude]]\nx\n[[/noinclude]]"), vec![PageRef::page_only("gone")]))
    );
}

#[test]
fn the_other_spelling_is_found_under_its_setting() {
    let settings = WikitextSettings { enable_page_syntax: true, use_include_compatibility: true };
    let mut pages = Pages::new(&[("p", "P")]);
    let input = "[[include p]]\n[[include-messy p]]";
    let result = resolve_includes(input, &settings, &mut pages, || Failure::Invalid);
    assert_eq!(result, Ok((String::from("P\n[[include-messy p]]"), vec![PageRef::page_only("p")])));
    let mut pages = Pages::new(&[("p", "P")]);
    let result = resolve_includes(input, &enabled(), &mut pages, || Failure::Invalid);
    assert_eq!(result, Ok((String::from("[[include p]]\nP"), vec![PageRef::page_only("p")])));
}

#[test]
fn too_few_answers_are_fatal() {
    let includer = Fixed { answer: Some(vec![page("a", Some("A"))]), fallback: None };
    let input = "[[include-messy a]]\n[[include-messy b]]";
    assert_eq!(resolve_includes(input, &enabled(), includer, || Failure::Invalid), Err(Failure::Invalid));
}

#[test]
fn too_many_answers_are_fatal() {
    let includer = Fixed { answer: Some(vec![page("a", Some("A"))]), fallback: None };
    assert_eq!(resolve_includes("no blocks", &enabled(), includer, || Failure::Invalid), Err(Failure::Invalid));
}

#[test]
fn an_answer_for_another_page_is_fatal() {
    let includer = Fixed {
        answer: Some(vec![page("a", Some("A")), page("c", Some("C"))]),
        fallback: None,
    };
    let input = "[[include-messy a]]\n[[include-messy b]]";
    assert_eq!(resolve_includes(input, &enabled(), includer, || Failure::Invalid), Err(Failure::Invalid));
}

#[test]
fn an_answer_for_another_site_is_fatal() {
    let answer = FetchedPage { page_ref: PageRef::page_and_site("s", "a"), content: None };
    let includer = Fixed { answer: Some(vec![answer]), fallback: Some(String::new()) };
    assert_eq!(
        resolve_includes("[[include-messy a]]", &enabled(), includer, || Failure::Invalid),
        Err(Failure::Invalid)
    );
}

#[test]
fn a_failing_fetch_is_handed_on() {
    let includer = Fixed { answer: None, fallback: None };
    assert_eq!(
        resolve_includes("[[include-messy a]]", &enabled(), includer, || Failure::Invalid),
        Err(Failure::Fetch)
    );
}

#[test]
fn a_failing_replacement_is_handed_on() {
    let includer = Fixed { answer: Some(vec![page("a", None)]), fallback: None };
    assert_eq!(
        resolve_includes("[[include-messy a]]", &enabled(), includer, || Failure::Invalid),
        Err(Failure::Fallback)
    );
}

#[test]
fn blocks_are_taken_from_the_last_to_the_first() {
    // The last block's replacement fails before the first block's wrong answer is seen.
    let includer = Fixed {
        answer: Some(vec![page("wrong", Some("W")), page("b", None)]),
        fallback: None,
    };
    let input = "[[include-messy a]]\n[[include-messy b]]";
    assert_eq!(resolve_includes(input, &enabled(), includer, || Failure::Invalid), Err(Failure::Fallback));
}

#[test]
fn find_includes_gives_ranges_and_requests() {
    let input = "x\n[[include-messy a |k=v]]\ny [[include-messy no]]\n[[INCLUDE-MESSY :s:b]] z";
    let (ranges, includes) = find_includes(input, &enabled());
    assert_eq!(ranges, vec![Span { start: 2, end: 26 }, Span { start: 50, end: 72 }]);
    assert_eq!(includes.len(), 2);
    assert_eq!(includes[0].page_ref(), &PageRef::page_only("a"));
    assert_eq!(includes[0].variables().get("k"), Some(&String::from("v")));
    assert_eq!(includes[1].page_ref(), &PageRef::page_and_site("s", "b"));
    assert_eq!(&input[ranges[1].start..ranges[1].end], "[[INCLUDE-MESSY :s:b]]");
}

#[test]
fn substitute_works_on_what_it_is_given() {
    let input = "0123456789";
    let ranges = vec![Span { start: 1, end: 3 }, Span { start: 3, end: 3 }, Span { start: 8, end: 10 }];
    let includes = vec![
        IncludeRef::page_only(PageRef::page_only("a")),
        IncludeRef::page_only(PageRef::page_only("b")),
        IncludeRef::page_only(PageRef::page_only("c")),
    ];
    let fetched = vec![page("a", Some("AAAA")), page("b", Some("")), page("c", None)];
    let mut includer = Fixed { answer: None, fallback: Some(String::from("?")) };
    let result = substitute(input, ranges, includes, fetched, &mut includer, || Failure::Invalid);
    assert_eq!(
        result,
        Ok((
            String::from("0AAAA34567?"),
            vec![PageRef::page_only("a"), PageRef::page_only("b"), PageRef::page_only("c")]
        ))
    );
}
