//! Include blocks: a page pulls in the text of other pages.
//!
//! An include block, `[[include-messy page name = value | ...]]`, stands at
//! the start of a line. Resolving a text finds its blocks, asks an `Includer`
//! for all their pages at once, and puts each page's text in the place of its
//! block: without the page's hidden sections, and with the block's variables
//! filled in.

pub mod include_ref;
pub mod includer;
pub mod parse;
pub mod resolve;

pub use self::include_ref::IncludeRef;
pub use self::includer::{FetchedPage, Includer};
pub use self::parse::{parse_include_block, IncludeParseError};
pub use self::resolve::{find_includes, resolve_includes, substitute};

use crate::data::{PageRef, PageRefView};
use crate::includes::include_ref::IncludeRefView;
use crate::includes::parse::include_block_at;
use crate::pattern::{captures_fit, captures_in, find_captures, whole_spans, Capture};
use crate::scan::{copy_text, text_at};
use crate::splice::{
    apply_edits, edit_spans, edit_texts, landing, lemma_spliced_layout, spans_ascend, spans_fit,
    spliced, Edit,
};
use crate::text::Span;
use crate::variables::VariableMap;
use vstd::prelude::*;
use vstd::string::*;
use vstd::utf8::*;

verus! {

/// Opens an include block.
pub const INCLUDE_PATTERN: &'static str = r"^\[\[\s*include-messy\s+";

/// Opens an include block in its other spelling.
pub const INCLUDE_COMPAT_PATTERN: &'static str = r"^\[\[\s*include\s+";

/// A hidden section: a `[[noinclude]]` line, the hidden text (the first
/// group), and a `[[/noinclude]]` line.
pub const NO_INCLUDE_PATTERN: &'static str =
    r"^\[\[\s*noinclude\s*\]\]\s*\n(.*?)\n\[\[/\s*noinclude\s*\]\]\s*$";

/// A reference to a variable, `{$name}`; the name is the first group.
pub const VARIABLE_PATTERN: &'static str = r"\{\$(?P<name>[a-zA-Z0-9_\-]+)\}";

/// The hidden sections of a text.
pub open spec fn hidden_sections(text: Seq<char>) -> Seq<Capture> {
    captures_in(NO_INCLUDE_PATTERN@, true, true, true, text)
}

/// The variable references of a text.
pub open spec fn variable_references(text: Seq<char>) -> Seq<Capture> {
    captures_in(VARIABLE_PATTERN@, false, false, false, text)
}

/// The openings of include blocks in a text.
pub open spec fn openings(text: Seq<char>, compatibility: bool) -> Seq<Capture> {
    captures_in(
        if compatibility {
            INCLUDE_COMPAT_PATTERN@
        } else {
            INCLUDE_PATTERN@
        },
        true,
        true,
        true,
        text,
    )
}

/// For each match, the bytes of its first group; nothing where the group took
/// no part.
pub open spec fn group_texts(b: Seq<u8>, found: Seq<Capture>) -> Seq<Seq<u8>> {
    Seq::new(
        found.len(),
        |i: int|
            match found[i].group {
                Some(g) => g.of(b),
                None => Seq::empty(),
            },
    )
}

/// As many empty texts as there are matches.
pub open spec fn empty_texts(found: Seq<Capture>) -> Seq<Seq<u8>> {
    Seq::new(found.len(), |i: int| Seq::empty())
}

/// A page as it is shown on its own: of each hidden section only the hidden
/// text stays, the two marker lines go.
pub open spec fn shown(text: Seq<char>) -> Seq<char> {
    let b = encode_utf8(text);
    let found = hidden_sections(text);
    decode_utf8(spliced(b, whole_spans(found), group_texts(b, found)))
}

/// A page as it is included elsewhere: each hidden section goes, markers and
/// hidden text alike.
pub open spec fn without_hidden(text: Seq<char>) -> Seq<char> {
    let b = encode_utf8(text);
    let found = hidden_sections(text);
    decode_utf8(spliced(b, whole_spans(found), empty_texts(found)))
}

/// Among the first `upto` references, those whose name has a value: the range
/// of each, and the value to put there.
pub open spec fn variable_edits(
    b: Seq<u8>,
    found: Seq<Capture>,
    variables: Map<Seq<char>, Seq<char>>,
    upto: int,
) -> (Seq<Span>, Seq<Seq<u8>>)
    decreases upto,
{
    if upto <= 0 {
        (Seq::empty(), Seq::empty())
    } else {
        let before = variable_edits(b, found, variables, upto - 1);
        match found[upto - 1].group {
            Some(g) => {
                let name = text_at(b, g.start as int, g.end as int);
                if variables.contains_key(name) {
                    (
                        before.0.push(found[upto - 1].whole),
                        before.1.push(encode_utf8(variables[name])),
                    )
                } else {
                    before
                }
            },
            None => before,
        }
    }
}

/// A text with the value of each variable in the place of its references.
/// References to names without a value stay. What a value holds is not read
/// again.
pub open spec fn with_variables(text: Seq<char>, variables: Map<Seq<char>, Seq<char>>) -> Seq<
    char,
> {
    let b = encode_utf8(text);
    let found = variable_references(text);
    let edits = variable_edits(b, found, variables, found.len() as int);
    decode_utf8(spliced(b, edits.0, edits.1))
}

/// The text that stands for an included page: the page without its hidden
/// sections, then with the variables filled in.
pub open spec fn rendered(content: Seq<char>, variables: Map<Seq<char>, Seq<char>>) -> Seq<char> {
    with_variables(without_hidden(content), variables)
}

/// Among the first `upto` openings, those at which a well-formed block begins
/// that does not begin inside the block accepted before it: the range of each
/// block, and the block.
pub open spec fn blocks_among(b: Seq<u8>, found: Seq<Capture>, compatibility: bool, upto: int) -> (
    Seq<Span>,
    Seq<IncludeRefView>,
)
    decreases upto,
{
    if upto <= 0 {
        (Seq::empty(), Seq::empty())
    } else {
        let before = blocks_among(b, found, compatibility, upto - 1);
        let start = found[upto - 1].whole.start;
        let floor = if before.0.len() == 0 {
            0
        } else {
            before.0.last().end
        };
        match include_block_at(b.subrange(start as int, b.len() as int), compatibility) {
            Some((block, end)) => if start >= floor {
                (
                    before.0.push(Span { start, end: (start + end) as usize }),
                    before.1.push(block),
                )
            } else {
                before
            },
            None => before,
        }
    }
}

/// The include blocks of a text, from left to right.
pub open spec fn located(text: Seq<char>, compatibility: bool) -> (Seq<Span>, Seq<IncludeRefView>) {
    let found = openings(text, compatibility);
    blocks_among(encode_utf8(text), found, compatibility, found.len() as int)
}

/// What a list of include blocks stands for.
pub open spec fn include_views(includes: Seq<IncludeRef>) -> Seq<IncludeRefView> {
    Seq::new(includes.len(), |i: int| includes[i]@)
}

/// What a list of page references stands for.
pub open spec fn page_views(pages: Seq<PageRef>) -> Seq<PageRefView> {
    Seq::new(pages.len(), |i: int| pages[i]@)
}

/// The pages that a list of include blocks asks for.
pub open spec fn requested_pages(blocks: Seq<IncludeRefView>) -> Seq<PageRefView> {
    Seq::new(blocks.len(), |i: int| blocks[i].page_ref)
}

/// The edits for the first `upto` references: there are as many values as
/// ranges, the ranges follow one another as the references do, and every edit
/// puts the value of a name in the place of a reference to that name.
pub proof fn lemma_variable_edits(
    b: Seq<u8>,
    found: Seq<Capture>,
    variables: Map<Seq<char>, Seq<char>>,
    upto: int,
)
    requires
        captures_fit(found, b),
        0 <= upto <= found.len(),
    ensures
        ({
            let edits = variable_edits(b, found, variables, upto);
            &&& edits.0.len() == edits.1.len()
            &&& spans_ascend(edits.0, b.len() as int)
            &&& forall|i: int|
                0 <= i < edits.0.len() ==> upto > 0 && (#[trigger] edits.0[i]).end <= found[upto
                    - 1].whole.end
            &&& forall|i: int|
                0 <= i < edits.0.len() ==> is_edit_among(
                    b,
                    found,
                    upto,
                    variables,
                    #[trigger] edits.0[i],
                    edits.1[i],
                )
        }),
    decreases upto,
{
    if upto > 0 {
        lemma_variable_edits(b, found, variables, upto - 1);
        let before = variable_edits(b, found, variables, upto - 1);
        let edits = variable_edits(b, found, variables, upto);
        let last = found[upto - 1];
        assert(last.whole.fits(b));
        if upto > 1 {
            assert(found[upto - 2].whole.end <= found[upto - 1].whole.start);
        }
        assert forall|i: int| 0 <= i < edits.0.len() implies is_edit_among(
            b,
            found,
            upto,
            variables,
            #[trigger] edits.0[i],
            edits.1[i],
        ) by {
            if i < before.0.len() {
                assert(is_edit_among(b, found, upto - 1, variables, before.0[i], before.1[i]));
                let k = choose|k: int|
                    0 <= k < upto - 1 && is_edit_of(
                        b,
                        #[trigger] found[k],
                        variables,
                        before.0[i],
                        before.1[i],
                    );
                assert(is_edit_of(b, found[k], variables, edits.0[i], edits.1[i]));
            } else {
                assert(is_edit_of(b, found[upto - 1], variables, edits.0[i], edits.1[i]));
            }
        }
    }
}

/// `span` and `value` are the edit that the reference `reference` asks for:
/// the reference names a variable that has a value, `span` is the whole
/// reference, and `value` is the variable's value as it is given.
pub open spec fn is_edit_of(
    b: Seq<u8>,
    reference: Capture,
    variables: Map<Seq<char>, Seq<char>>,
    span: Span,
    value: Seq<u8>,
) -> bool {
    &&& reference.group matches Some(g)
    &&& variables.contains_key(text_at(b, g.start as int, g.end as int))
    &&& span == reference.whole
    &&& value == encode_utf8(variables[text_at(b, g.start as int, g.end as int)])
}

/// `span` and `value` are the edit that one of the first `upto` references
/// asks for.
pub open spec fn is_edit_among(
    b: Seq<u8>,
    found: Seq<Capture>,
    upto: int,
    variables: Map<Seq<char>, Seq<char>>,
    span: Span,
    value: Seq<u8>,
) -> bool {
    exists|k: int| 0 <= k < upto && is_edit_of(b, #[trigger] found[k], variables, span, value)
}

/// Variables are filled in in one pass: every value stands in the result as
/// it is given, byte for byte, where its reference stood, whatever the value
/// itself holds.
pub proof fn lemma_values_stand_as_given(
    text: Seq<char>,
    variables: Map<Seq<char>, Seq<char>>,
    i: int,
)
    requires
        captures_fit(variable_references(text), encode_utf8(text)),
        0 <= i < variable_edits(
            encode_utf8(text),
            variable_references(text),
            variables,
            variable_references(text).len() as int,
        ).0.len(),
    ensures
        ({
            let b = encode_utf8(text);
            let found = variable_references(text);
            let edits = variable_edits(b, found, variables, found.len() as int);
            let at = landing(edits.0, edits.1, i);
            &&& spliced(b, edits.0, edits.1).subrange(at, at + edits.1[i].len()) == edits.1[i]
            &&& is_edit_among(b, found, found.len() as int, variables, edits.0[i], edits.1[i])
        }),
{
    let b = encode_utf8(text);
    let found = variable_references(text);
    lemma_variable_edits(b, found, variables, found.len() as int);
    let edits = variable_edits(b, found, variables, found.len() as int);
    lemma_spliced_layout(b, edits.0, edits.1, i);
}

/// Rewrites each match of `found` in `input`: to its first group where
/// `keep_group` is set, to nothing where it is not.
fn rewrite_matches(input: &str, found: &Vec<Capture>, keep_group: bool) -> (out: String)
    requires
        captures_fit(found@, encode_utf8(input@)),
    ensures
        encode_utf8(out@) == spliced(
            encode_utf8(input@),
            whole_spans(found@),
            if keep_group {
                group_texts(encode_utf8(input@), found@)
            } else {
                empty_texts(found@)
            },
        ),
{
    let ghost b = encode_utf8(input@);
    let ghost texts = if keep_group {
        group_texts(b, found@)
    } else {
        empty_texts(found@)
    };
    let mut edits: Vec<Edit> = Vec::new();
    let mut k: usize = 0;
    while k < found.len()
        invariant
            k <= found@.len(),
            b == encode_utf8(input@),
            captures_fit(found@, b),
            texts == if keep_group {
                group_texts(b, found@)
            } else {
                empty_texts(found@)
            },
            edits@.len() == k,
            forall|i: int| 0 <= i < k ==> (#[trigger] edits@[i]).span == found@[i].whole,
            forall|i: int| 0 <= i < k ==> encode_utf8((#[trigger] edits@[i]).text@) == texts[i],
        decreases found@.len() - k,
    {
        let capture = found[k];
        let text = match capture.group {
            Some(g) => if keep_group {
                copy_text(input, g.start, g.end)
            } else {
                String::new()
            },
            None => String::new(),
        };
        edits.push(Edit { span: capture.whole, text });
        k = k + 1;
    }
    proof {
        assert(edit_spans(edits@) =~= whole_spans(found@));
        assert(edit_texts(edits@) =~= texts);
    }
    let mut out = String::from_str(input);
    apply_edits(&mut out, &edits);
    out
}

/// The page as it is shown on its own: the marker lines of its hidden sections
/// are taken out, the hidden text stays.
pub fn remove_noincludes(input: &str) -> (out: String)
    ensures
        out@ == shown(input@),
        encode_utf8(out@) == spliced(
            encode_utf8(input@),
            whole_spans(hidden_sections(input@)),
            group_texts(encode_utf8(input@), hidden_sections(input@)),
        ),
{
    let found = find_captures(NO_INCLUDE_PATTERN, true, true, true, input);
    let out = rewrite_matches(input, &found, true);
    proof {
        encode_utf8_decode_utf8(out@);
    }
    out
}

/// The page as it is included elsewhere: its hidden sections are taken out
/// whole.
pub fn strip_noincludes(input: &str) -> (out: String)
    ensures
        out@ == without_hidden(input@),
        encode_utf8(out@) == spliced(
            encode_utf8(input@),
            whole_spans(hidden_sections(input@)),
            empty_texts(hidden_sections(input@)),
        ),
{
    let found = find_captures(NO_INCLUDE_PATTERN, true, true, true, input);
    let out = rewrite_matches(input, &found, false);
    proof {
        encode_utf8_decode_utf8(out@);
    }
    out
}

/// Puts the value of each variable in the place of its references `{$name}`.
pub fn replace_variables(content: &mut String, variables: &VariableMap)
    ensures
        final(content)@ == with_variables(old(content)@, variables@),
        encode_utf8(final(content)@) == spliced(
            encode_utf8(old(content)@),
            variable_edits(
                encode_utf8(old(content)@),
                variable_references(old(content)@),
                variables@,
                variable_references(old(content)@).len() as int,
            ).0,
            variable_edits(
                encode_utf8(old(content)@),
                variable_references(old(content)@),
                variables@,
                variable_references(old(content)@).len() as int,
            ).1,
        ),
{
    let ghost b = encode_utf8(content@);
    let found = find_captures(VARIABLE_PATTERN, false, false, false, content.as_str());
    let mut edits: Vec<Edit> = Vec::new();
    let mut k: usize = 0;
    proof {
        encode_utf8_valid_utf8(content@);
    }
    while k < found.len()
        invariant
            k <= found@.len(),
            b == encode_utf8(content@),
            valid_utf8(b),
            captures_fit(found@, b),
            edit_spans(edits@) == variable_edits(b, found@, variables@, k as int).0,
            edit_texts(edits@) == variable_edits(b, found@, variables@, k as int).1,
            spans_fit(edit_spans(edits@), b),
            forall|i: int|
                0 <= i < edits@.len() ==> k > 0 && (#[trigger] edits@[i]).span.end <= found@[k
                    - 1].whole.end,
        decreases found@.len() - k,
    {
        let capture = found[k];
        let ghost before = edits@;
        proof {
            assert(capture.whole.fits(b));
            if k > 0 {
                assert(found@[k - 1].whole.end <= found@[k as int].whole.start);
            }
        }
        match capture.group {
            Some(g) => {
                let name = copy_text(content.as_str(), g.start, g.end);
                match variables.get(name.as_str()) {
                    Some(value) => {
                        edits.push(Edit { span: capture.whole, text: value.clone() });
                        proof {
                            assert(edit_spans(edits@) =~= edit_spans(before).push(capture.whole));
                            assert(edit_texts(edits@) =~= edit_texts(before).push(
                                encode_utf8(value@),
                            ));
                            assert forall|i: int, j: int|
                                0 <= i < j < edit_spans(edits@).len() implies edit_spans(
                                edits@,
                            )[i].end <= edit_spans(edits@)[j].start by {
                                if j == before.len() {
                                    assert(before[i].span.end <= found@[k - 1].whole.end);
                                } else {
                                    assert(edit_spans(before)[i].end <= edit_spans(
                                        before,
                                    )[j].start);
                                }
                            }
                            assert forall|i: int| 0 <= i < edit_spans(edits@).len() implies (
                            #[trigger] edit_spans(edits@)[i]).fits(b) by {
                                if i < before.len() {
                                    assert(edit_spans(before)[i].fits(b));
                                }
                            }
                        }
                    },
                    None => {},
                }
            },
            None => {},
        }
        k = k + 1;
    }
    apply_edits(content, &edits);
    proof {
        encode_utf8_decode_utf8(content@);
    }
}

/// The text that stands for an included page.
pub fn render_page(content: &str, variables: &VariableMap) -> (out: String)
    ensures
        out@ == rendered(content@, variables@),
{
    let mut out = strip_noincludes(content);
    replace_variables(&mut out, variables);
    out
}

} // verus!
