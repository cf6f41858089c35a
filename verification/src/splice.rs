//! Rewriting several ranges of one text.
//!
//! All ranges are found first, against the text as it stands. They are then
//! rewritten from the highest offset to the lowest, so that a rewrite never
//! moves a range that is still to come. `spliced` says what the text is
//! afterwards, read from left to right.

use crate::text::{
    lemma_boundary_in_range, replace_span, Span,
};
use vstd::prelude::*;
use vstd::utf8::*;

verus! {

/// One rewrite: the bytes in `span` give way to `text`.
#[derive(Debug, PartialEq, Eq)]
pub struct Edit {
    pub span: Span,
    pub text: String,
}

/// The ranges lie inside `bytes`, at character boundaries, in ascending order
/// and without overlap.
pub open spec fn spans_fit(spans: Seq<Span>, bytes: Seq<u8>) -> bool {
    &&& forall|i: int| 0 <= i < spans.len() ==> (#[trigger] spans[i]).fits(bytes)
    &&& forall|i: int, j: int| 0 <= i < j < spans.len() ==> spans[i].end <= spans[j].start
}

/// The ranges lie inside `[0, len)` in ascending order and without overlap.
pub open spec fn spans_ascend(spans: Seq<Span>, len: int) -> bool {
    &&& forall|i: int| 0 <= i < spans.len() ==> (#[trigger] spans[i]).start <= spans[i].end <= len
    &&& forall|i: int, j: int| 0 <= i < j < spans.len() ==> spans[i].end <= spans[j].start
}

/// `doc` with each range of `spans` replaced by the entry of `texts` at the
/// same index: what stands before the last range, rewritten in the same way,
/// then the last replacement, then what follows the last range.
pub open spec fn spliced(doc: Seq<u8>, spans: Seq<Span>, texts: Seq<Seq<u8>>) -> Seq<u8>
    decreases spans.len(),
{
    if spans.len() == 0 {
        doc
    } else {
        spliced(doc.subrange(0, spans.last().start as int), spans.drop_last(), texts.drop_last())
            + texts.last() + doc.subrange(spans.last().end as int, doc.len() as int)
    }
}

/// By how many bytes the ranges before index `i` move what follows them.
pub open spec fn shift(spans: Seq<Span>, texts: Seq<Seq<u8>>, i: int) -> int
    decreases i,
{
    if i <= 0 {
        0
    } else {
        shift(spans, texts, i - 1) + texts[i - 1].len() - (spans[i - 1].end - spans[i - 1].start)
    }
}

/// Where the replacement of range `i` begins in the rewritten text.
pub open spec fn landing(spans: Seq<Span>, texts: Seq<Seq<u8>>, i: int) -> int {
    spans[i].start + shift(spans, texts, i)
}

/// The ranges of a list of edits.
pub open spec fn edit_spans(edits: Seq<Edit>) -> Seq<Span> {
    Seq::new(edits.len(), |i: int| edits[i].span)
}

/// The replacement texts of a list of edits, as bytes.
pub open spec fn edit_texts(edits: Seq<Edit>) -> Seq<Seq<u8>> {
    Seq::new(edits.len(), |i: int| encode_utf8(edits[i].text@))
}

proof fn lemma_ascend_drop_last(spans: Seq<Span>, len: int)
    requires
        spans_ascend(spans, len),
        spans.len() > 0,
    ensures
        spans_ascend(spans.drop_last(), spans.last().start as int),
{
    let rest = spans.drop_last();
    assert forall|i: int| 0 <= i < rest.len() implies (#[trigger] rest[i]).start <= rest[i].end
        <= spans.last().start by {
        assert(rest[i] == spans[i]);
        assert(spans[spans.len() - 1] == spans.last());
    }
    assert forall|i: int, j: int| 0 <= i < j < rest.len() implies rest[i].end <= rest[j].start by {
        assert(rest[i] == spans[i]);
        assert(rest[j] == spans[j]);
    }
}

/// Nothing before the first range changes, whatever the replacements.
pub proof fn lemma_spliced_keeps_front(
    doc: Seq<u8>,
    spans: Seq<Span>,
    texts: Seq<Seq<u8>>,
    upto: int,
)
    requires
        spans_ascend(spans, doc.len() as int),
        0 <= upto <= doc.len(),
        forall|i: int| 0 <= i < spans.len() ==> upto <= (#[trigger] spans[i]).start,
    ensures
        spliced(doc, spans, texts).len() >= upto,
        spliced(doc, spans, texts).subrange(0, upto) == doc.subrange(0, upto),
    decreases spans.len(),
{
    if spans.len() > 0 {
        let last = spans.last();
        let front = doc.subrange(0, last.start as int);
        assert(spans[spans.len() - 1] == last);
        lemma_ascend_drop_last(spans, doc.len() as int);
        assert forall|i: int| 0 <= i < spans.drop_last().len() implies upto <= (
        #[trigger] spans.drop_last()[i]).start by {
            assert(spans.drop_last()[i] == spans[i]);
        }
        lemma_spliced_keeps_front(front, spans.drop_last(), texts.drop_last(), upto);
        let head = spliced(front, spans.drop_last(), texts.drop_last());
        assert(head.subrange(0, upto) =~= doc.subrange(0, upto));
        assert(spliced(doc, spans, texts).subrange(0, upto) =~= head.subrange(0, upto));
    } else {
        assert(spliced(doc, spans, texts).subrange(0, upto) =~= doc.subrange(0, upto));
    }
}

/// Rewriting one more range in front of those already rewritten is a
/// replacement inside the text rewritten so far.
pub proof fn lemma_splice_front(
    doc: Seq<u8>,
    first: Span,
    text: Seq<u8>,
    spans: Seq<Span>,
    texts: Seq<Seq<u8>>,
)
    requires
        spans_ascend(seq![first] + spans, doc.len() as int),
        spans.len() == texts.len(),
    ensures
        spliced(doc, spans, texts).len() >= first.end,
        spliced(doc, seq![first] + spans, seq![text] + texts) == spliced(
            doc,
            spans,
            texts,
        ).subrange(0, first.start as int) + text + spliced(doc, spans, texts).subrange(
            first.end as int,
            spliced(doc, spans, texts).len() as int,
        ),
    decreases spans.len(),
{
    let all = seq![first] + spans;
    let all_texts = seq![text] + texts;
    assert(all[0] == first);
    assert forall|i: int| 0 <= i < spans.len() implies first.end <= (#[trigger] spans[i]).start
        && spans[i].start <= spans[i].end <= doc.len() by {
        assert(all[i + 1] == spans[i]);
    }
    assert(spans_ascend(spans, doc.len() as int)) by {
        assert forall|i: int, j: int| 0 <= i < j < spans.len() implies spans[i].end
            <= spans[j].start by {
            assert(all[i + 1] == spans[i]);
            assert(all[j + 1] == spans[j]);
        }
    }
    let now = spliced(doc, spans, texts);
    if spans.len() == 0 {
        assert(all.drop_last() =~= Seq::<Span>::empty());
        assert(all.last() == first);
        assert(all_texts.last() == text);
        assert(spliced(doc.subrange(0, first.start as int), all.drop_last(), all_texts.drop_last())
            == doc.subrange(0, first.start as int));
    } else {
        let last = spans.last();
        let front = doc.subrange(0, last.start as int);
        assert(spans[spans.len() - 1] == last);
        assert(all.last() == last);
        assert(all_texts.last() == texts.last());
        assert(all.drop_last() =~= seq![first] + spans.drop_last());
        assert(all_texts.drop_last() =~= seq![text] + texts.drop_last());
        assert(spans_ascend(seq![first] + spans.drop_last(), front.len() as int)) by {
            let shorter = seq![first] + spans.drop_last();
            assert forall|i: int| 0 <= i < shorter.len() implies (#[trigger] shorter[i]).start
                <= shorter[i].end <= front.len() by {
                assert(shorter[i] == all[i]);
            }
            assert forall|i: int, j: int| 0 <= i < j < shorter.len() implies shorter[i].end
                <= shorter[j].start by {
                assert(shorter[i] == all[i]);
                assert(shorter[j] == all[j]);
            }
        }
        lemma_splice_front(front, first, text, spans.drop_last(), texts.drop_last());
        let head = spliced(front, spans.drop_last(), texts.drop_last());
        let tail = texts.last() + doc.subrange(last.end as int, doc.len() as int);
        assert(now =~= head + tail);
        assert(now.subrange(0, first.start as int) =~= head.subrange(0, first.start as int));
        assert(now.subrange(first.end as int, now.len() as int) =~= head.subrange(
            first.end as int,
            head.len() as int,
        ) + tail);
        assert(spliced(doc, all, all_texts) =~= now.subrange(0, first.start as int) + text
            + now.subrange(first.end as int, now.len() as int));
    }
}

/// `shift` up to index `i` reads only what stands before index `i`.
pub proof fn lemma_shift_reads_front(
    spans: Seq<Span>,
    texts: Seq<Seq<u8>>,
    spans2: Seq<Span>,
    texts2: Seq<Seq<u8>>,
    i: int,
)
    requires
        forall|j: int| 0 <= j < i ==> spans[j] == spans2[j] && texts[j] == texts2[j],
    ensures
        shift(spans, texts, i) == shift(spans2, texts2, i),
    decreases i,
{
    if i > 0 {
        lemma_shift_reads_front(spans, texts, spans2, texts2, i - 1);
    }
}

/// The rewritten text is as long as the text was, but for what each range
/// gained or lost.
pub proof fn lemma_spliced_len(doc: Seq<u8>, spans: Seq<Span>, texts: Seq<Seq<u8>>)
    requires
        spans_ascend(spans, doc.len() as int),
        texts.len() == spans.len(),
    ensures
        spliced(doc, spans, texts).len() == doc.len() + shift(spans, texts, spans.len() as int),
    decreases spans.len(),
{
    if spans.len() > 0 {
        let n = spans.len() as int;
        let last = spans.last();
        assert(spans[n - 1] == last);
        lemma_ascend_drop_last(spans, doc.len() as int);
        lemma_spliced_len(doc.subrange(0, last.start as int), spans.drop_last(), texts.drop_last());
        lemma_shift_reads_front(spans.drop_last(), texts.drop_last(), spans, texts, n - 1);
    }
}

proof fn lemma_joined_parts(head: Seq<u8>, mid: Seq<u8>, tail: Seq<u8>)
    ensures
        ({
            let all = head + mid + tail;
            let a = head.len() as int;
            let b = a + mid.len();
            let c = b + tail.len();
            &&& all.len() == c
            &&& all.subrange(a, b) == mid
            &&& all.subrange(b, c) == tail
            &&& forall|x: int, y: int|
                0 <= x <= y <= a ==> #[trigger] all.subrange(x, y) == head.subrange(x, y)
        }),
{
    let all = head + mid + tail;
    let a = head.len() as int;
    let b = a + mid.len();
    let c = b + tail.len();
    assert(all.subrange(a, b) =~= mid);
    assert(all.subrange(b, c) =~= tail);
    assert forall|x: int, y: int| 0 <= x <= y <= a implies #[trigger] all.subrange(x, y)
        == head.subrange(x, y) by {
        assert(all.subrange(x, y) =~= head.subrange(x, y));
    }
}

/// Every replacement stands in the rewritten text where its range stood in the
/// text before, moved only by what the ranges before it gained or lost; and what
/// stood between that range and the next follows the replacement unchanged.
pub proof fn lemma_spliced_layout(doc: Seq<u8>, spans: Seq<Span>, texts: Seq<Seq<u8>>, i: int)
    requires
        spans_ascend(spans, doc.len() as int),
        texts.len() == spans.len(),
        0 <= i < spans.len(),
    ensures
        ({
            let out = spliced(doc, spans, texts);
            let at = landing(spans, texts, i);
            let behind = at + texts[i].len();
            let upto = if i + 1 < spans.len() {
                spans[i + 1].start as int
            } else {
                doc.len() as int
            };
            &&& 0 <= at
            &&& spans[i].end <= upto
            &&& behind + (upto - spans[i].end) <= out.len()
            &&& out.subrange(at, behind) == texts[i]
            &&& out.subrange(behind, behind + (upto - spans[i].end)) == doc.subrange(
                spans[i].end as int,
                upto,
            )
        }),
    decreases spans.len(),
{
    let n = spans.len() as int;
    let last = spans.last();
    let front = doc.subrange(0, last.start as int);
    let shorter = spans.drop_last();
    let fewer = texts.drop_last();
    let head = spliced(front, shorter, fewer);
    let tail = doc.subrange(last.end as int, doc.len() as int);
    let out = spliced(doc, spans, texts);
    assert(spans[n - 1] == last);
    assert(texts.last() == texts[n - 1]);
    assert(out == head + texts[n - 1] + tail);
    lemma_ascend_drop_last(spans, doc.len() as int);
    lemma_spliced_len(front, shorter, fewer);
    lemma_shift_reads_front(shorter, fewer, spans, texts, n - 1);
    lemma_joined_parts(head, texts[n - 1], tail);
    assert(head.len() == last.start + shift(spans, texts, n - 1));
    if i == n - 1 {
        assert(landing(spans, texts, i) == head.len());
    } else {
        lemma_spliced_layout(front, shorter, fewer, i);
        lemma_shift_reads_front(shorter, fewer, spans, texts, i);
        assert(shorter[i] == spans[i]);
        assert(fewer[i] == texts[i]);
        assert(spans[i].end <= spans[i + 1].start);
        let at = landing(spans, texts, i);
        assert(at == landing(shorter, fewer, i));
        let behind = at + texts[i].len();
        let upto = spans[i + 1].start as int;
        let upto_before = if i + 1 < shorter.len() {
            shorter[i + 1].start as int
        } else {
            front.len() as int
        };
        assert(upto_before == upto) by {
            if i + 1 < n - 1 {
                assert(shorter[i + 1] == spans[i + 1]);
            }
        }
        assert(behind + (upto - spans[i].end) <= head.len());
        assert(out.subrange(at, behind) == head.subrange(at, behind));
        assert(out.subrange(behind, behind + (upto - spans[i].end)) == head.subrange(
            behind,
            behind + (upto - spans[i].end),
        ));
        assert(front.subrange(spans[i].end as int, upto) =~= doc.subrange(
            spans[i].end as int,
            upto,
        ));
    }
}

/// Another replacement for one range moves what follows that range by the
/// difference in length, and leaves the place of everything before it alone.
pub proof fn lemma_landing_update(
    spans: Seq<Span>,
    texts: Seq<Seq<u8>>,
    k: int,
    other: Seq<u8>,
    i: int,
)
    requires
        texts.len() == spans.len(),
        0 <= k < spans.len(),
        0 <= i < spans.len(),
    ensures
        landing(spans, texts.update(k, other), i) == if i <= k {
            landing(spans, texts, i)
        } else {
            landing(spans, texts, i) + other.len() - texts[k].len()
        },
    decreases i,
{
    if i > 0 {
        lemma_landing_update(spans, texts, k, other, i - 1);
    }
}

/// A boundary of the text before, not behind the part that is still
/// untouched, is a boundary of the text rewritten so far.
pub proof fn lemma_boundary_survives(doc: Seq<u8>, work: Seq<u8>, upto: int, p: int)
    requires
        valid_utf8(doc),
        valid_utf8(work),
        is_char_boundary(doc, upto),
        is_char_boundary(doc, p),
        p <= upto <= work.len(),
        work.subrange(0, upto) == doc.subrange(0, upto),
    ensures
        is_char_boundary(work, p),
{
    lemma_boundary_in_range(doc, p);
    lemma_boundary_in_range(doc, upto);
    if p == work.len() {
        is_char_boundary_start_end_of_seq(work);
    } else if p < upto {
        is_char_boundary_iff_not_is_continuation_byte(doc, p);
        is_char_boundary_iff_not_is_continuation_byte(work, p);
        assert(work[p] == work.subrange(0, upto)[p]);
        assert(doc[p] == doc.subrange(0, upto)[p]);
    } else {
        let front = doc.subrange(0, upto);
        let rest = work.subrange(upto, work.len() as int);
        assert(work =~= front + rest);
        valid_utf8_split(doc, upto);
        lemma_boundary_at_join(front, rest);
    }
}

/// Where a valid text ends inside a longer valid text, a character ends.
pub proof fn lemma_boundary_at_join(a: Seq<u8>, x: Seq<u8>)
    requires
        valid_utf8(a),
        valid_utf8(a + x),
    ensures
        is_char_boundary(a + x, a.len() as int),
    decreases a.len(),
{
    if a.len() > 0 {
        assert(pop_first_scalar(a + x) =~= pop_first_scalar(a) + x);
        assert(length_of_first_scalar(a + x) == length_of_first_scalar(a));
        lemma_boundary_at_join(pop_first_scalar(a), x);
    }
}

/// Rewrites one range of a text of which the ranges `rest` behind it have been
/// rewritten already.
pub(crate) fn splice_back(
    work: &mut String,
    span: Span,
    with: &str,
    Ghost(doc): Ghost<Seq<u8>>,
    Ghost(rest): Ghost<Seq<Span>>,
    Ghost(done): Ghost<Seq<Seq<u8>>>,
)
    requires
        valid_utf8(doc),
        spans_fit(seq![span] + rest, doc),
        rest.len() == done.len(),
        encode_utf8(old(work)@) == spliced(doc, rest, done),
    ensures
        encode_utf8(final(work)@) == spliced(
            doc,
            seq![span] + rest,
            seq![encode_utf8(with@)] + done,
        ),
{
    proof {
        let all = seq![span] + rest;
        assert(all[0] == span);
        assert(span.fits(doc));
        assert(spans_ascend(all, doc.len() as int)) by {
            assert forall|i: int| 0 <= i < all.len() implies (#[trigger] all[i]).start
                <= all[i].end <= doc.len() by {
                assert(all[i].fits(doc));
            }
        }
        assert(spans_ascend(rest, doc.len() as int)) by {
            assert forall|i: int| 0 <= i < rest.len() implies (#[trigger] rest[i]).start
                <= rest[i].end <= doc.len() by {
                assert(all[i + 1] == rest[i]);
            }
            assert forall|i: int, j: int| 0 <= i < j < rest.len() implies rest[i].end
                <= rest[j].start by {
                assert(all[i + 1] == rest[i]);
                assert(all[j + 1] == rest[j]);
            }
        }
        assert forall|i: int| 0 <= i < rest.len() implies span.end <= (#[trigger] rest[i]).start by {
            assert(all[i + 1] == rest[i]);
        }
        lemma_spliced_keeps_front(doc, rest, done, span.end as int);
        lemma_splice_front(doc, span, encode_utf8(with@), rest, done);
        encode_utf8_valid_utf8(work@);
        lemma_boundary_survives(doc, encode_utf8(work@), span.end as int, span.end as int);
        lemma_boundary_survives(doc, encode_utf8(work@), span.end as int, span.start as int);
    }
    replace_span(work, span.start, span.end, with);
}

/// Applies all edits to `text`, from the last to the first.
pub fn apply_edits(text: &mut String, edits: &Vec<Edit>)
    requires
        spans_fit(edit_spans(edits@), encode_utf8(old(text)@)),
    ensures
        encode_utf8(final(text)@) == spliced(
            encode_utf8(old(text)@),
            edit_spans(edits@),
            edit_texts(edits@),
        ),
{
    let ghost doc = encode_utf8(text@);
    let ghost spans = edit_spans(edits@);
    let ghost texts = edit_texts(edits@);
    proof {
        encode_utf8_valid_utf8(text@);
        assert(spans.skip(spans.len() as int) =~= Seq::<Span>::empty());
    }
    let mut k: usize = edits.len();
    while k > 0
        invariant
            k <= edits.len(),
            doc == encode_utf8(old(text)@),
            valid_utf8(doc),
            spans == edit_spans(edits@),
            texts == edit_texts(edits@),
            spans_fit(spans, doc),
            encode_utf8(text@) == spliced(doc, spans.skip(k as int), texts.skip(k as int)),
        decreases k,
    {
        k = k - 1;
        let edit = &edits[k];
        proof {
            let rest = spans.skip(k + 1);
            let now = spans.skip(k as int);
            assert(now =~= seq![edit.span] + rest);
            assert(texts.skip(k as int) =~= seq![encode_utf8(edit.text@)] + texts.skip(k + 1));
            assert(spans_fit(now, doc)) by {
                assert forall|i: int| 0 <= i < now.len() implies (#[trigger] now[i]).fits(doc) by {
                    assert(now[i] == spans[k + i]);
                }
                assert forall|i: int, j: int| 0 <= i < j < now.len() implies now[i].end
                    <= now[j].start by {
                    assert(now[i] == spans[k + i]);
                    assert(now[j] == spans[k + j]);
                }
            }
        }
        splice_back(
            text,
            edit.span,
            edit.text.as_str(),
            Ghost(doc),
            Ghost(spans.skip(k + 1)),
            Ghost(texts.skip(k + 1)),
        );
    }
    proof {
        assert(spans.skip(0) =~= spans);
        assert(texts.skip(0) =~= texts);
    }
}

} // verus!
