//! Pattern search, done by the `regex` crate.
//!
//! The library never looks inside a match: it takes the ranges that the engine
//! reports and goes on from there. What the engine reports for a pattern and a
//! text has the name `regex_captures`.

use crate::text::Span;
use regex::RegexBuilder;
use vstd::prelude::*;
use vstd::utf8::*;

verus! {

/// What `regex` finds for `pattern`, built with the three flags, in `text`.
///
/// `None` where the engine refuses the pattern. Otherwise one entry for each
/// of the successive matches: the byte range of the whole match, and the byte
/// range of the pattern's first capture group where that group took part.
pub uninterp spec fn regex_captures(
    pattern: Seq<char>,
    case_insensitive: bool,
    multi_line: bool,
    dot_matches_new_line: bool,
    text: Seq<char>,
) -> Option<Seq<((usize, usize), Option<(usize, usize)>)>>;

/// One match of a pattern.
#[derive(Clone, Copy, Debug, PartialEq, Eq)]
pub struct Capture {
    /// The range of the whole match.
    pub whole: Span,
    /// The range of the first capture group, where it took part in the match.
    pub group: Option<Span>,
}

/// A pair of offsets as a range.
pub open spec fn span_of(pair: (usize, usize)) -> Span {
    Span { start: pair.0, end: pair.1 }
}

/// One reported match as a `Capture`.
pub open spec fn capture_of(entry: ((usize, usize), Option<(usize, usize)>)) -> Capture {
    Capture {
        whole: span_of(entry.0),
        group: match entry.1 {
            Some(pair) => Some(span_of(pair)),
            None => None,
        },
    }
}

/// The ranges of the whole matches.
pub open spec fn whole_spans(found: Seq<Capture>) -> Seq<Span> {
    Seq::new(found.len(), |i: int| found[i].whole)
}

/// The matches follow one another without overlap, and every range that they
/// report lies inside `bytes` between two character boundaries.
pub open spec fn captures_fit(found: Seq<Capture>, bytes: Seq<u8>) -> bool {
    &&& forall|i: int| 0 <= i < found.len() ==> (#[trigger] found[i]).whole.fits(bytes)
    &&& forall|i: int|
        0 <= i < found.len() ==> ((#[trigger] found[i]).group matches Some(g) ==> g.fits(bytes))
    &&& forall|i: int, j: int|
        0 <= i < j < found.len() ==> (#[trigger] found[i]).whole.end <= (
        #[trigger] found[j]).whole.start
}

/// The matches of a pattern in a text; none where the engine refuses the
/// pattern.
pub open spec fn captures_in(
    pattern: Seq<char>,
    case_insensitive: bool,
    multi_line: bool,
    dot_matches_new_line: bool,
    text: Seq<char>,
) -> Seq<Capture> {
    match regex_captures(pattern, case_insensitive, multi_line, dot_matches_new_line, text) {
        Some(found) => Seq::new(found.len(), |i: int| capture_of(found[i])),
        None => Seq::empty(),
    }
}

/// Builds the pattern with `regex::RegexBuilder` (`new`, `case_insensitive`,
/// `multi_line`, `dot_matches_new_line`, `build`) and walks
/// `Regex::captures_iter` over the text, keeping of each `Captures` the offsets
/// of `get_match()` and of `get(1)`.
///
/// Believed of the engine, as its documentation states it: the result depends
/// on the pattern, the flags and the text alone; the matches are successive and
/// do not overlap; the start of a `Match` is not behind its end, its end not
/// behind the end of the text, and both fall on character boundaries.
#[verifier::external_body]
fn run_regex(
    pattern: &str,
    case_insensitive: bool,
    multi_line: bool,
    dot_matches_new_line: bool,
    text: &str,
) -> (found: Option<Vec<((usize, usize), Option<(usize, usize)>)>>)
    ensures
        found matches Some(v) ==> regex_captures(
            pattern@,
            case_insensitive,
            multi_line,
            dot_matches_new_line,
            text@,
        ) == Some(v@) && captures_fit(
            Seq::new(v@.len(), |i: int| capture_of(v@[i])),
            encode_utf8(text@),
        ),
        found is None ==> regex_captures(
            pattern@,
            case_insensitive,
            multi_line,
            dot_matches_new_line,
            text@,
        ) is None,
{
    let built = RegexBuilder::new(pattern)
        .case_insensitive(case_insensitive)
        .multi_line(multi_line)
        .dot_matches_new_line(dot_matches_new_line)
        .build();
    match built {
        Ok(re) => Some(
            re.captures_iter(text)
                .map(|c| ((c.get_match().start(), c.get_match().end()), c.get(1).map(|g| (g.start(), g.end()))))
                .collect(),
        ),
        Err(_) => None,
    }
}

/// All matches of `pattern` in `text`, from left to right.
pub fn find_captures(
    pattern: &str,
    case_insensitive: bool,
    multi_line: bool,
    dot_matches_new_line: bool,
    text: &str,
) -> (found: Vec<Capture>)
    ensures
        found@ == captures_in(pattern@, case_insensitive, multi_line, dot_matches_new_line, text@),
        captures_fit(found@, encode_utf8(text@)),
{
    let mut found: Vec<Capture> = Vec::new();
    match run_regex(pattern, case_insensitive, multi_line, dot_matches_new_line, text) {
        None => {
            assert(found@ =~= Seq::<Capture>::empty());
        },
        Some(raw) => {
            let ghost all = Seq::new(raw@.len(), |i: int| capture_of(raw@[i]));
            let mut k: usize = 0;
            while k < raw.len()
                invariant
                    k <= raw.len(),
                    all == Seq::new(raw@.len(), |i: int| capture_of(raw@[i])),
                    found@ == all.subrange(0, k as int),
                decreases raw.len() - k,
            {
                let entry = raw[k];
                let group = match entry.1 {
                    Some(pair) => Some(Span { start: pair.0, end: pair.1 }),
                    None => None,
                };
                found.push(Capture { whole: Span { start: (entry.0).0, end: (entry.0).1 }, group });
                k = k + 1;
                assert(found@ =~= all.subrange(0, k as int));
            }
            assert(found@ =~= all);
        },
    }
    found
}

} // verus!
