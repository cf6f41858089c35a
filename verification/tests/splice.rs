use ftml::pattern::{find_captures, Capture};
use ftml::splice::{apply_edits, Edit};
use ftml::text::{replace_span, slice_str, Span};

fn edit(start: usize, end: usize, text: &str) -> Edit {
    Edit { span: Span { start, end }, text: String::from(text) }
}

#[test]
fn edits_are_applied_against_the_offsets_before() {
    let mut text = String::from("one two three four");
    let edits = vec![edit(0, 3, "1"), edit(4, 7, "second"), edit(14, 18, "")];
    apply_edits(&mut text, &edits);
    assert_eq!(text, "1 second three ");
}

#[test]
fn no_edits_change_nothing() {
    let mut text = String::from("unchanged");
    apply_edits(&mut text, &vec![]);
    assert_eq!(text, "unchanged");
}

#[test]
fn each_replacement_lands_where_its_range_stood() {
    let before = "aa[x]bbb[yy]c[z]";
    let edits = vec![edit(2, 5, "LONGER"), edit(8, 12, ""), edit(13, 16, "é")];
    let mut text = String::from(before);
    apply_edits(&mut text, &edits);
    assert_eq!(text, "aaLONGERbbbcé");
    let mut moved: isize = 0;
    let mut behind = 0;
    for e in &edits {
        let at = (e.span.start as isize + moved) as usize;
        assert_eq!(&text[at..at + e.text.len()], e.text);
        assert_eq!(&text[behind..at], &before[(behind as isize - moved) as usize..e.span.start]);
        moved += e.text.len() as isize - (e.span.end - e.span.start) as isize;
        behind = at + e.text.len();
    }
    assert_eq!(text.len() as isize, before.len() as isize + moved);
}

#[test]
fn empty_ranges_insert() {
    let mut text = String::from("ab");
    apply_edits(&mut text, &vec![edit(0, 0, "<"), edit(1, 1, "|"), edit(2, 2, ">")]);
    assert_eq!(text, "<a|b>");
}

#[test]
fn replace_span_cuts_at_byte_offsets() {
    let mut text = String::from("grüße an alle");
    replace_span(&mut text, 0, 7, "hallo");
    assert_eq!(text, "hallo an alle");
    replace_span(&mut text, 13, 13, "!");
    assert_eq!(text, "hallo an alle!");
}

#[test]
fn slice_str_cuts_at_byte_offsets() {
    assert_eq!(slice_str("grüße", 2, 6), "üß");
    assert_eq!(slice_str("abc", 3, 3), "");
}

#[test]
fn captures_report_matches_and_first_groups() {
    let found = find_captures(r"(\d+)-|x", false, false, false, "é 12- x 345-");
    assert_eq!(
        found,
        vec![
            Capture { whole: Span { start: 3, end: 6 }, group: Some(Span { start: 3, end: 5 }) },
            Capture { whole: Span { start: 7, end: 8 }, group: None },
            Capture { whole: Span { start: 9, end: 13 }, group: Some(Span { start: 9, end: 12 }) },
        ]
    );
}

#[test]
fn the_flags_reach_the_engine() {
    let text = "a\nB.\nA";
    assert_eq!(find_captures("^a$", false, false, false, text).len(), 0);
    assert_eq!(find_captures("^a$", false, true, false, text).len(), 1);
    assert_eq!(find_captures("^a$", true, true, false, text).len(), 2);
    assert_eq!(find_captures("B.$", false, false, false, text).len(), 0);
    assert_eq!(find_captures("B..", false, false, true, text).len(), 1);
}

#[test]
fn a_pattern_that_the_engine_refuses_finds_nothing() {
    assert_eq!(find_captures("(unclosed", false, false, false, "(unclosed"), vec![]);
}
