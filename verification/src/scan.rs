//! Scanning bytes for spaces and for single delimiters.
//!
//! Every function here works between two offsets of one byte sequence. The
//! delimiters are ASCII, so each offset that a scan returns is a character
//! boundary when the offsets it started from are.

use crate::text::{byte_is_space, is_space, lemma_boundary_around_ascii, slice_str};
use vstd::prelude::*;
use vstd::string::*;
use vstd::utf8::*;

verus! {

/// The first offset in `[from, to)` whose byte is no space; `to` if there is none.
pub open spec fn skip_spaces(b: Seq<u8>, from: int, to: int) -> int
    decreases to - from,
{
    if from < to && is_space(b[from]) {
        skip_spaces(b, from + 1, to)
    } else {
        from
    }
}

/// The end of `[from, to)` once the spaces at its end are taken away.
pub open spec fn skip_spaces_back(b: Seq<u8>, from: int, to: int) -> int
    decreases to - from,
{
    if from < to && is_space(b[to - 1]) {
        skip_spaces_back(b, from, to - 1)
    } else {
        to
    }
}

/// The first offset in `[from, to)` whose byte is `c`; `to` if there is none.
pub open spec fn first_byte(b: Seq<u8>, from: int, to: int, c: u8) -> int
    decreases to - from,
{
    if from < to && b[from] != c {
        first_byte(b, from + 1, to, c)
    } else {
        from
    }
}

/// The text that the bytes in `[from, to)` encode.
pub open spec fn text_at(b: Seq<u8>, from: int, to: int) -> Seq<char> {
    decode_utf8(b.subrange(from, to))
}

/// `[from, to)` without the spaces at either end.
pub open spec fn trimmed(b: Seq<u8>, from: int, to: int) -> (int, int) {
    let lo = skip_spaces(b, from, to);
    (lo, skip_spaces_back(b, lo, to))
}

/// `skip_spaces` stays inside the range, passes over spaces alone and stops
/// at the first byte that is none.
pub proof fn lemma_skip_spaces_bounds(b: Seq<u8>, from: int, to: int)
    requires
        from <= to,
    ensures
        from <= skip_spaces(b, from, to) <= to,
        forall|i: int| from <= i < skip_spaces(b, from, to) ==> is_space(#[trigger] b[i]),
        skip_spaces(b, from, to) < to ==> !is_space(b[skip_spaces(b, from, to)]),
    decreases to - from,
{
    if from < to && is_space(b[from]) {
        lemma_skip_spaces_bounds(b, from + 1, to);
    }
}

/// Moves `from` forward over spaces, not beyond `to`.
pub fn scan_spaces(bytes: &[u8], from: usize, to: usize) -> (at: usize)
    requires
        from <= to <= bytes@.len(),
    ensures
        at == skip_spaces(bytes@, from as int, to as int),
        from <= at <= to,
        at < to ==> !is_space(bytes@[at as int]),
        valid_utf8(bytes@) && is_char_boundary(bytes@, from as int) ==> is_char_boundary(
            bytes@,
            at as int,
        ),
{
    let mut at: usize = from;
    while at < to && byte_is_space(bytes[at])
        invariant
            from <= at <= to <= bytes@.len(),
            skip_spaces(bytes@, from as int, to as int) == skip_spaces(
                bytes@,
                at as int,
                to as int,
            ),
            valid_utf8(bytes@) && is_char_boundary(bytes@, from as int) ==> is_char_boundary(
                bytes@,
                at as int,
            ),
        decreases to - at,
    {
        proof {
            if valid_utf8(bytes@) {
                lemma_boundary_around_ascii(bytes@, at as int);
            }
        }
        at = at + 1;
    }
    at
}

/// Moves `to` backward over spaces, not beyond `from`.
pub fn scan_spaces_back(bytes: &[u8], from: usize, to: usize) -> (at: usize)
    requires
        from <= to <= bytes@.len(),
    ensures
        at == skip_spaces_back(bytes@, from as int, to as int),
        from <= at <= to,
        valid_utf8(bytes@) && is_char_boundary(bytes@, to as int) ==> is_char_boundary(
            bytes@,
            at as int,
        ),
{
    let mut at: usize = to;
    while from < at && byte_is_space(bytes[at - 1])
        invariant
            from <= at <= to <= bytes@.len(),
            skip_spaces_back(bytes@, from as int, to as int) == skip_spaces_back(
                bytes@,
                from as int,
                at as int,
            ),
            valid_utf8(bytes@) && is_char_boundary(bytes@, to as int) ==> is_char_boundary(
                bytes@,
                at as int,
            ),
        decreases at - from,
    {
        proof {
            if valid_utf8(bytes@) {
                lemma_boundary_around_ascii(bytes@, at - 1);
            }
        }
        at = at - 1;
    }
    at
}

/// Finds the first byte `c` in `[from, to)`.
pub fn scan_byte(bytes: &[u8], from: usize, to: usize, c: u8) -> (at: usize)
    requires
        from <= to <= bytes@.len(),
        c < 0x80,
    ensures
        at == first_byte(bytes@, from as int, to as int, c),
        from <= at <= to,
        at < to ==> bytes@[at as int] == c,
        valid_utf8(bytes@) && is_char_boundary(bytes@, to as int) ==> is_char_boundary(
            bytes@,
            at as int,
        ),
{
    let mut at: usize = from;
    while at < to && bytes[at] != c
        invariant
            from <= at <= to <= bytes@.len(),
            first_byte(bytes@, from as int, to as int, c) == first_byte(
                bytes@,
                at as int,
                to as int,
                c,
            ),
        decreases to - at,
    {
        at = at + 1;
    }
    proof {
        if valid_utf8(bytes@) && at < to {
            lemma_boundary_around_ascii(bytes@, at as int);
        }
    }
    at
}

/// The text between two boundaries, as an owned string.
pub fn copy_text(text: &str, from: usize, to: usize) -> (copy: String)
    requires
        from <= to,
        is_char_boundary(text.spec_bytes(), from as int),
        is_char_boundary(text.spec_bytes(), to as int),
    ensures
        copy@ == text_at(text.spec_bytes(), from as int, to as int),
        encode_utf8(copy@) == text.spec_bytes().subrange(from as int, to as int),
{
    let part = slice_str(text, from, to);
    proof {
        encode_utf8_decode_utf8(part@);
    }
    String::from_str(part)
}

} // verus!
