//! Reading one include block.
//!
//! A block has this shape, in bytes:
//!
//! ```text
//! [[ keyword page name = value | name = value ... ]]
//! ```
//!
//! - `[[`, any spaces, then the keyword in either case of its letters, then at
//!   least one space;
//! - the page: everything up to the next space, `|` or the closing `]]`;
//! - up to the first `]]`, clauses separated by `|`. A clause of spaces alone
//!   is passed over. Any other clause is a name, `=` and a value, each taken
//!   without the spaces around it; the name is not empty. Of two clauses with
//!   one name the first counts.
//!
//! A space is a blank, a tab, a line feed or a carriage return.

use crate::data::{page_ref_at, PageRef};
use crate::includes::include_ref::{IncludeRef, IncludeRefView};
use crate::scan::{
    copy_text, first_byte, lemma_skip_spaces_bounds, scan_byte, scan_spaces, scan_spaces_back,
    skip_spaces, text_at, trimmed,
};
use crate::settings::WikitextSettings;
use crate::text::{byte_is_space, is_space, lemma_boundary_around_ascii};
use crate::variables::VariableMap;
use vstd::prelude::*;
use vstd::string::*;
use vstd::utf8::*;

verus! {

/// The text at hand is no include block.
#[derive(Debug, Clone, Copy, PartialEq, Eq)]
pub struct IncludeParseError;

/// The keyword's spelling under each setting.
pub open spec fn keyword(compatibility: bool) -> Seq<u8> {
    if compatibility {
        encode_utf8("include"@)
    } else {
        encode_utf8("include-messy"@)
    }
}

/// An ASCII capital letter as its small letter, any other byte as it is.
pub open spec fn lower(b: u8) -> u8 {
    if 0x41 <= b <= 0x5a {
        (b + 0x20) as u8
    } else {
        b
    }
}

/// `word` stands at offset `at`, in either case of its letters.
pub open spec fn word_at(b: Seq<u8>, at: int, word: Seq<u8>) -> bool {
    &&& at + word.len() <= b.len()
    &&& forall|i: int| 0 <= i < word.len() ==> lower(#[trigger] b[at + i]) == word[i]
}

/// `]]` stands at offset `at`.
pub open spec fn close_at(b: Seq<u8>, at: int) -> bool {
    at + 2 <= b.len() && b[at] == 0x5d && b[at + 1] == 0x5d
}

/// The first offset from `from` on at which `]]` stands; the length of `b` if
/// there is none.
pub open spec fn first_close(b: Seq<u8>, from: int) -> int
    decreases b.len() - from,
{
    if from >= b.len() {
        b.len() as int
    } else if close_at(b, from) {
        from
    } else {
        first_close(b, from + 1)
    }
}

/// The first offset in `[from, to)` whose byte is a space or `|`; `to` if
/// there is none.
pub open spec fn token_end(b: Seq<u8>, from: int, to: int) -> int
    decreases to - from,
{
    if from < to && !is_space(b[from]) && b[from] != 0x7c {
        token_end(b, from + 1, to)
    } else {
        from
    }
}

/// What the clause in `[from, to)` says: `None` if it is malformed,
/// `Some(None)` if it holds spaces alone, else its name and value.
pub open spec fn clause_at(b: Seq<u8>, from: int, to: int) -> Option<
    Option<(Seq<char>, Seq<char>)>,
> {
    let (lo, hi) = trimmed(b, from, to);
    if lo == hi {
        Some(None)
    } else {
        let eq = first_byte(b, lo, hi, 0x3d);
        let name = trimmed(b, lo, eq);
        let value = trimmed(b, eq + 1, hi);
        if eq == hi || name.0 == name.1 {
            None
        } else {
            Some(Some((text_at(b, name.0, name.1), text_at(b, value.0, value.1))))
        }
    }
}

/// The variables that the clauses in `[from, to)` add to `known`; `None` if a
/// clause is malformed.
pub open spec fn variables_at(
    b: Seq<u8>,
    from: int,
    to: int,
    known: Map<Seq<char>, Seq<char>>,
) -> Option<Map<Seq<char>, Seq<char>>>
    decreases to - from,
{
    let bar = first_byte(b, from, to, 0x7c);
    match clause_at(b, from, bar) {
        None => None,
        Some(clause) => {
            let now = match clause {
                Some((name, value)) => if known.contains_key(name) {
                    known
                } else {
                    known.insert(name, value)
                },
                None => known,
            };
            if from <= bar < to {
                variables_at(b, bar + 1, to, now)
            } else {
                Some(now)
            }
        },
    }
}

/// The include block with which `b` begins, and the offset at which it ends;
/// `None` if `b` begins with no well-formed block.
pub open spec fn include_block_at(b: Seq<u8>, compatibility: bool) -> Option<
    (IncludeRefView, int),
> {
    let word = keyword(compatibility);
    let at = skip_spaces(b, 2, b.len() as int);
    let after = at + word.len();
    let page_lo = skip_spaces(b, after, b.len() as int);
    let close = first_close(b, page_lo);
    let page_hi = token_end(b, page_lo, close);
    if b.len() < 2 || b[0] != 0x5b || b[1] != 0x5b {
        None
    } else if !word_at(b, at, word) || page_lo == after || close >= b.len() {
        None
    } else {
        match (page_ref_at(b, page_lo, page_hi), variables_at(b, page_hi, close, Map::empty())) {
            (Some(page_ref), Some(variables)) => Some(
                (IncludeRefView { page_ref, variables }, close + 2),
            ),
            _ => None,
        }
    }
}

fn to_lower(b: u8) -> (r: u8)
    ensures
        r == lower(b),
{
    if 0x41 <= b && b <= 0x5a {
        b + 0x20
    } else {
        b
    }
}

fn match_word(bytes: &[u8], at: usize, word: &[u8]) -> (r: bool)
    requires
        at <= bytes@.len(),
    ensures
        r == word_at(bytes@, at as int, word@),
{
    if word.len() > bytes.len() - at {
        return false;
    }
    let mut i: usize = 0;
    while i < word.len()
        invariant
            i <= word@.len(),
            at + word@.len() <= bytes@.len() <= usize::MAX,
            forall|j: int| 0 <= j < i ==> lower(#[trigger] bytes@[at + j]) == word@[j],
        decreases word@.len() - i,
    {
        if to_lower(bytes[at + i]) != word[i] {
            return false;
        }
        i = i + 1;
    }
    true
}

fn scan_close(bytes: &[u8], from: usize) -> (at: usize)
    requires
        from <= bytes@.len(),
    ensures
        at == first_close(bytes@, from as int),
        from <= at <= bytes@.len(),
        at < bytes@.len() ==> close_at(bytes@, at as int),
{
    let mut at: usize = from;
    while at < bytes.len()
        invariant
            from <= at <= bytes@.len(),
            first_close(bytes@, from as int) == first_close(bytes@, at as int),
        decreases bytes@.len() - at,
    {
        if bytes[at] == 0x5d && bytes.len() - at >= 2 && bytes[at + 1] == 0x5d {
            return at;
        }
        at = at + 1;
    }
    at
}

fn scan_token(bytes: &[u8], from: usize, to: usize) -> (at: usize)
    requires
        from <= to <= bytes@.len(),
    ensures
        at == token_end(bytes@, from as int, to as int),
        from <= at <= to,
        at < to ==> bytes@[at as int] < 0x80,
{
    let mut at: usize = from;
    while at < to && !byte_is_space(bytes[at]) && bytes[at] != 0x7c
        invariant
            from <= at <= to <= bytes@.len(),
            token_end(bytes@, from as int, to as int) == token_end(bytes@, at as int, to as int),
        decreases to - at,
    {
        at = at + 1;
    }
    at
}

/// Reads the clause in `[from, to)` and adds its variable, if it holds one.
fn parse_clause(text: &str, from: usize, to: usize, variables: &mut VariableMap) -> (ok: bool)
    requires
        from <= to <= text.spec_bytes().len(),
        is_char_boundary(text.spec_bytes(), from as int),
        is_char_boundary(text.spec_bytes(), to as int),
    ensures
        old(variables).wf() ==> final(variables).wf(),
        match clause_at(text.spec_bytes(), from as int, to as int) {
            None => !ok,
            Some(None) => ok && final(variables)@ == old(variables)@,
            Some(Some((name, value))) => ok && final(variables)@ == if old(
                variables,
            )@.contains_key(name) {
                old(variables)@
            } else {
                old(variables)@.insert(name, value)
            },
        },
{
    let bytes = text.as_bytes();
    proof {
        encode_utf8_valid_utf8(text@);
    }
    let lo = scan_spaces(bytes, from, to);
    let hi = scan_spaces_back(bytes, lo, to);
    if lo == hi {
        return true;
    }
    let eq = scan_byte(bytes, lo, hi, 0x3d);
    if eq == hi {
        return false;
    }
    proof {
        lemma_boundary_around_ascii(bytes@, eq as int);
    }
    let name_lo = scan_spaces(bytes, lo, eq);
    let name_hi = scan_spaces_back(bytes, name_lo, eq);
    if name_lo == name_hi {
        return false;
    }
    let value_lo = scan_spaces(bytes, eq + 1, hi);
    let value_hi = scan_spaces_back(bytes, value_lo, hi);
    let name = copy_text(text, name_lo, name_hi);
    let value = copy_text(text, value_lo, value_hi);
    variables.insert(name, value);
    true
}

/// Reads the include block with which `text` begins. `start` is the offset of
/// `text` in the whole document; the offset returned is one in that document
/// too, just behind the block's closing `]]`.
pub fn parse_include_block(text: &str, start: usize, settings: &WikitextSettings) -> (r: Result<
    (IncludeRef, usize),
    IncludeParseError,
>)
    requires
        start + text.spec_bytes().len() <= usize::MAX,
    ensures
        match include_block_at(text.spec_bytes(), settings.use_include_compatibility) {
            Some((block, end)) => r matches Ok((found, at)) && found@ == block && at == start + end
                && 2 <= end <= text.spec_bytes().len() && is_char_boundary(text.spec_bytes(), end),
            None => r is Err,
        },
{
    let bytes = text.as_bytes();
    let len = bytes.len();
    proof {
        encode_utf8_valid_utf8(text@);
    }
    if len < 2 || bytes[0] != 0x5b || bytes[1] != 0x5b {
        return Err(IncludeParseError);
    }
    let word = if settings.use_include_compatibility {
        "include".as_bytes()
    } else {
        "include-messy".as_bytes()
    };
    let at = scan_spaces(bytes, 2, len);
    if !match_word(bytes, at, word) {
        return Err(IncludeParseError);
    }
    let after = at + word.len();
    let page_lo = scan_spaces(bytes, after, len);
    if page_lo == after {
        return Err(IncludeParseError);
    }
    proof {
        lemma_skip_spaces_bounds(bytes@, after as int, len as int);
        lemma_boundary_around_ascii(bytes@, page_lo - 1);
    }
    let close = scan_close(bytes, page_lo);
    if close >= len {
        return Err(IncludeParseError);
    }
    proof {
        lemma_boundary_around_ascii(bytes@, close as int);
        lemma_boundary_around_ascii(bytes@, close + 1);
    }
    let page_hi = scan_token(bytes, page_lo, close);
    proof {
        if page_hi < close {
            lemma_boundary_around_ascii(bytes@, page_hi as int);
        }
    }
    let page_ref = match PageRef::parse_at(text, page_lo, page_hi) {
        Ok(page_ref) => page_ref,
        Err(_) => {
            return Err(IncludeParseError);
        },
    };
    let mut variables = VariableMap::new();
    let mut from: usize = page_hi;
    let mut well_formed = true;
    loop
        invariant_except_break
            well_formed,
            variables_at(bytes@, page_hi as int, close as int, Map::empty()) == variables_at(
                bytes@,
                from as int,
                close as int,
                variables@,
            ),
        invariant
            page_hi <= from <= close < len,
            len == bytes@.len(),
            bytes@ == text.spec_bytes(),
            valid_utf8(bytes@),
            is_char_boundary(bytes@, from as int),
            is_char_boundary(bytes@, close as int),
        ensures
            variables_at(bytes@, page_hi as int, close as int, Map::empty()) == if well_formed {
                Some(variables@)
            } else {
                None
            },
        decreases close - from,
    {
        let bar = scan_byte(bytes, from, close, 0x7c);
        if !parse_clause(text, from, bar, &mut variables) {
            well_formed = false;
            break;
        }
        if bar >= close {
            break;
        }
        proof {
            lemma_boundary_around_ascii(bytes@, bar as int);
        }
        from = bar + 1;
    }
    if !well_formed {
        return Err(IncludeParseError);
    }
    Ok((IncludeRef::new(page_ref, variables), start + (close + 2)))
}

} // verus!
