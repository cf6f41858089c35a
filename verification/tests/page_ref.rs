use ftml::data::{PageRef, PageRefParseError};

#[test]
fn a_plain_name_is_a_page_of_this_site() {
    assert_eq!(PageRef::parse("page-a"), Ok(PageRef::page_only("page-a")));
}

#[test]
fn a_category_belongs_to_the_page_name() {
    let page = PageRef::parse("component:thing").unwrap();
    assert_eq!(page.site(), None);
    assert_eq!(page.page(), "component:thing");
}

#[test]
fn a_leading_colon_names_another_site() {
    let page = PageRef::parse(":scp-wiki:scp-001").unwrap();
    assert_eq!(page.site(), Some("scp-wiki"));
    assert_eq!(page.page(), "scp-001");
    assert_eq!(page, PageRef::page_and_site("scp-wiki", "scp-001"));
}

#[test]
fn another_site_with_a_category() {
    let page = PageRef::parse(":scp-wiki:component:box").unwrap();
    assert_eq!(page.site(), Some("scp-wiki"));
    assert_eq!(page.page(), "component:box");
}

#[test]
fn spaces_around_the_parts_do_not_count() {
    assert_eq!(PageRef::parse("  page \t\n"), Ok(PageRef::page_only("page")));
    assert_eq!(
        PageRef::parse(" : site : page "),
        Ok(PageRef::page_and_site("site", "page"))
    );
}

#[test]
fn empty_text_names_no_page() {
    assert_eq!(PageRef::parse(""), Err(PageRefParseError));
    assert_eq!(PageRef::parse("   "), Err(PageRefParseError));
}

#[test]
fn a_site_needs_a_name_and_a_second_colon() {
    assert_eq!(PageRef::parse("::page"), Err(PageRefParseError));
    assert_eq!(PageRef::parse(":page"), Err(PageRefParseError));
    assert_eq!(PageRef::parse(":"), Err(PageRefParseError));
}

#[test]
fn the_page_of_another_site_may_be_empty() {
    let page = PageRef::parse(":site:").unwrap();
    assert_eq!(page.site(), Some("site"));
    assert_eq!(page.page(), "");
}

#[test]
fn names_may_hold_any_text() {
    let page = PageRef::parse(":wiki-é:страница").unwrap();
    assert_eq!(page.site(), Some("wiki-é"));
    assert_eq!(page.page(), "страница");
}

#[test]
fn parse_at_reads_a_part_of_the_text() {
    let text = "[[x :s:p ]]";
    assert_eq!(PageRef::parse_at(text, 4, 9), Ok(PageRef::page_and_site("s", "p")));
}

#[test]
fn same_as_compares_site_and_page() {
    let a = PageRef::page_and_site("s", "p");
    assert!(a.same_as(&PageRef::page_and_site("s", "p")));
    assert!(!a.same_as(&PageRef::page_and_site("t", "p")));
    assert!(!a.same_as(&PageRef::page_only("p")));
    assert!(!a.same_as(&PageRef::page_and_site("s", "q")));
    assert!(PageRef::page_only("p").same_as(&PageRef::page_only("p")));
    assert_eq!(a.duplicate(), a);
}
