use ftml::includes::{remove_noincludes, render_page, replace_variables, strip_noincludes};
use ftml::variables::VariableMap;

fn variables(pairs: &[(&str, &str)]) -> VariableMap {
    let mut map = VariableMap::new();
    for (name, value) in pairs {
        map.insert(name.to_string(), value.to_string());
    }
    map
}

#[test]
fn hidden_section_is_shown_on_the_page_itself() {
    let page = "A\n[[noinclude]]\nB\n[[/noinclude]]\nC";
    assert_eq!(remove_noincludes(page), "A\nB\nC");
}

#[test]
fn hidden_section_is_dropped_when_included() {
    let page = "A\n[[noinclude]]\nB\n[[/noinclude]]\nC";
    assert_eq!(strip_noincludes(page), "A\n\nC");
}

#[test]
fn text_without_markers_is_left_alone() {
    assert_eq!(remove_noincludes("plain text\nwith lines"), "plain text\nwith lines");
    assert_eq!(strip_noincludes("plain text\nwith lines"), "plain text\nwith lines");
    assert_eq!(remove_noincludes(""), "");
}

#[test]
fn markers_match_in_any_case_and_with_inner_spaces() {
    let page = "[[ NoInclude ]]\nkept\n[[/ NOINCLUDE ]]";
    assert_eq!(remove_noincludes(page), "kept");
    assert_eq!(strip_noincludes(page), "");
}

#[test]
fn unterminated_marker_is_left_alone() {
    let page = "A\n[[noinclude]]\nB\nC";
    assert_eq!(remove_noincludes(page), page);
    assert_eq!(strip_noincludes(page), page);
}

#[test]
fn closing_marker_must_stand_on_its_own_line() {
    let page = "A\n[[noinclude]]\nB\n[[/noinclude]] trailing\nC";
    assert_eq!(remove_noincludes(page), page);
    assert_eq!(strip_noincludes(page), page);
}

#[test]
fn every_hidden_section_is_handled() {
    let page = "1\n[[noinclude]]\nä\n[[/noinclude]]\n2\n[[noinclude]]\nb\nc\n[[/noinclude]]\n3";
    assert_eq!(remove_noincludes(page), "1\nä\n2\nb\nc\n3");
    assert_eq!(strip_noincludes(page), "1\n\n2\n\n3");
}

#[test]
fn variables_are_filled_in() {
    let mut content = String::from("Hello {$name}, welcome to {$place}!");
    replace_variables(&mut content, &variables(&[("name", "Ann"), ("place", "the wiki")]));
    assert_eq!(content, "Hello Ann, welcome to the wiki!");
}

#[test]
fn unknown_variables_stay_as_they_are() {
    let mut content = String::from("{$known} and {$unknown}");
    replace_variables(&mut content, &variables(&[("known", "yes")]));
    assert_eq!(content, "yes and {$unknown}");
}

#[test]
fn a_variable_may_occur_many_times() {
    let mut content = String::from("{$a}{$a}-{$b}-{$a}");
    replace_variables(&mut content, &variables(&[("a", "long value"), ("b", "")]));
    assert_eq!(content, "long valuelong value--long value");
}

#[test]
fn values_are_not_read_again() {
    let mut content = String::from("start {$first} end");
    replace_variables(&mut content, &variables(&[("first", "{$other}"), ("other", "never")]));
    assert_eq!(content, "start {$other} end");
}

#[test]
fn names_hold_letters_digits_underscore_and_hyphen() {
    let mut content = String::from("{$a_b-1} {$a b} {$} {$é}");
    replace_variables(&mut content, &variables(&[("a_b-1", "x"), ("a", "y"), ("a b", "z")]));
    assert_eq!(content, "x {$a b} {$} {$é}");
}

#[test]
fn values_may_hold_any_text() {
    let mut content = String::from("日本 {$v} 語");
    replace_variables(&mut content, &variables(&[("v", "ünï — côdé")]));
    assert_eq!(content, "日本 ünï — côdé 語");
}

#[test]
fn rendering_strips_first_and_fills_in_after() {
    let content = "X\n[[noinclude]]\n{$name}\n[[/noinclude]]\nY {$name}";
    assert_eq!(render_page(content, &variables(&[("name", "Z")])), "X\n\nY Z");
}

#[test]
fn a_value_that_looks_like_a_hidden_section_stays() {
    let content = "{$v}";
    let value = "[[noinclude]]\nhidden\n[[/noinclude]]";
    assert_eq!(render_page(content, &variables(&[("v", value)])), value);
}
