//! Texts as UTF-8 byte sequences.
//!
//! Offsets into a text are byte offsets, as `str` has them. A text `t` is
//! modelled by `encode_utf8(t@)`; an offset may cut a text only at a character
//! boundary. The lemmas here carry boundaries through the cuts and joins that
//! the rest of the library makes.

use vstd::prelude::*;
use vstd::string::*;
use vstd::utf8::*;

verus! {

/// A half-open range `[start, end)` of byte offsets into a text.
#[derive(Clone, Copy, Debug, PartialEq, Eq)]
pub struct Span {
    pub start: usize,
    pub end: usize,
}

impl Span {
    /// The range lies inside `bytes` and both of its ends are character boundaries.
    pub open spec fn fits(self, bytes: Seq<u8>) -> bool {
        &&& self.start <= self.end <= bytes.len()
        &&& is_char_boundary(bytes, self.start as int)
        &&& is_char_boundary(bytes, self.end as int)
    }

    /// The bytes of `bytes` that the range covers.
    pub open spec fn of(self, bytes: Seq<u8>) -> Seq<u8> {
        bytes.subrange(self.start as int, self.end as int)
    }
}

/// Space, tab, line feed or carriage return.
pub open spec fn is_space(b: u8) -> bool {
    b == 0x20 || b == 0x09 || b == 0x0a || b == 0x0d
}

/// Whether `b` is a space, a tab, a line feed or a carriage return.
pub fn byte_is_space(b: u8) -> (r: bool)
    ensures
        r == is_space(b),
{
    b == 0x20 || b == 0x09 || b == 0x0a || b == 0x0d
}

/// Encoding distributes over concatenation.
pub proof fn lemma_encode_concat(a: Seq<char>, b: Seq<char>)
    ensures
        encode_utf8(a + b) == encode_utf8(a) + encode_utf8(b),
    decreases a.len(),
{
    if a.len() == 0 {
        assert(a + b =~= b);
        assert(encode_utf8(a) =~= Seq::<u8>::empty());
        assert(encode_utf8(a) + encode_utf8(b) =~= encode_utf8(b));
    } else {
        assert((a + b).drop_first() =~= a.drop_first() + b);
        lemma_encode_concat(a.drop_first(), b);
        assert((a + b)[0] == a[0]);
        assert(encode_utf8(a + b) =~= encode_utf8(a) + encode_utf8(b));
    }
}

/// Two texts with the same bytes are the same text.
pub proof fn lemma_encode_injective(a: Seq<char>, b: Seq<char>)
    requires
        encode_utf8(a) == encode_utf8(b),
    ensures
        a == b,
{
    encode_utf8_decode_utf8(a);
    encode_utf8_decode_utf8(b);
}

/// A character boundary lies inside the sequence.
pub proof fn lemma_boundary_in_range(bytes: Seq<u8>, p: int)
    requires
        valid_utf8(bytes),
        is_char_boundary(bytes, p),
    ensures
        0 <= p <= bytes.len(),
{
}

/// A boundary of a text is one where the text follows another valid text.
pub proof fn lemma_boundary_shift(a: Seq<u8>, x: Seq<u8>, p: int)
    requires
        valid_utf8(a),
        valid_utf8(x),
        is_char_boundary(x, p),
    ensures
        valid_utf8(a + x),
        is_char_boundary(a + x, a.len() + p),
    decreases a.len(),
{
    valid_utf8_concat(a, x);
    lemma_boundary_in_range(x, p);
    if a.len() == 0 {
        assert(a + x =~= x);
    } else {
        assert(pop_first_scalar(a + x) =~= pop_first_scalar(a) + x);
        assert(length_of_first_scalar(a + x) == length_of_first_scalar(a));
        lemma_boundary_shift(pop_first_scalar(a), x, p);
    }
}

/// A boundary that lies before another boundary is a boundary of the text cut
/// at the second one.
pub proof fn lemma_boundary_in_prefix(bytes: Seq<u8>, from: int, to: int)
    requires
        valid_utf8(bytes),
        is_char_boundary(bytes, from),
        is_char_boundary(bytes, to),
        from <= to,
    ensures
        valid_utf8(bytes.subrange(0, to)),
        is_char_boundary(bytes.subrange(0, to), from),
{
    lemma_boundary_in_range(bytes, from);
    lemma_boundary_in_range(bytes, to);
    valid_utf8_split(bytes, to);
    let prefix = bytes.subrange(0, to);
    if from == to {
        is_char_boundary_start_end_of_seq(prefix);
    } else {
        is_char_boundary_iff_not_is_continuation_byte(bytes, from);
        is_char_boundary_iff_not_is_continuation_byte(prefix, from);
    }
}

/// An ASCII byte stands at a boundary, and a boundary follows it.
pub proof fn lemma_boundary_around_ascii(bytes: Seq<u8>, i: int)
    requires
        valid_utf8(bytes),
        0 <= i < bytes.len(),
        bytes[i] < 0x80,
    ensures
        is_char_boundary(bytes, i),
        is_char_boundary(bytes, i + 1),
    decreases bytes.len(),
{
    is_char_boundary_iff_not_is_continuation_byte(bytes, i);
    let width = length_of_first_scalar(bytes);
    if i < width {
        assert(i == 0);
        assert(width == 1);
        assert(is_char_boundary(pop_first_scalar(bytes), 0));
    } else {
        lemma_boundary_around_ascii(pop_first_scalar(bytes), i - width);
    }
}

/// The part of `text` between two boundaries.
pub fn slice_str<'a>(text: &'a str, from: usize, to: usize) -> (part: &'a str)
    requires
        from <= to,
        is_char_boundary(text.spec_bytes(), from as int),
        is_char_boundary(text.spec_bytes(), to as int),
    ensures
        part.spec_bytes() == text.spec_bytes().subrange(from as int, to as int),
{
    proof {
        encode_utf8_valid_utf8(text@);
        lemma_boundary_in_prefix(text.spec_bytes(), from as int, to as int);
    }
    let (head, _) = text.split_at(to);
    let (_, part) = head.split_at(from);
    proof {
        lemma_boundary_in_range(text.spec_bytes(), to as int);
        assert(part.spec_bytes() =~= text.spec_bytes().subrange(from as int, to as int));
    }
    part
}

/// Replaces the bytes `[start, end)` of `text` by `with`.
pub fn replace_span(text: &mut String, start: usize, end: usize, with: &str)
    requires
        start <= end,
        is_char_boundary(encode_utf8(old(text)@), start as int),
        is_char_boundary(encode_utf8(old(text)@), end as int),
    ensures
        encode_utf8(final(text)@) == encode_utf8(old(text)@).subrange(0, start as int)
            + encode_utf8(with@) + encode_utf8(old(text)@).subrange(
            end as int,
            encode_utf8(old(text)@).len() as int,
        ),
{
    let whole = text.as_str();
    let ghost bytes = encode_utf8(whole@);
    proof {
        encode_utf8_valid_utf8(whole@);
        lemma_boundary_in_range(bytes, end as int);
    }
    let (head, _) = whole.split_at(start);
    let (_, tail) = whole.split_at(end);
    let mut out = String::from_str(head);
    out.append(with);
    out.append(tail);
    proof {
        lemma_encode_concat(head@, with@);
        lemma_encode_concat(head@ + with@, tail@);
    }
    *text = out;
}

} // verus!
