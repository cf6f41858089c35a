//! Resolving the include blocks of a text.

use crate::data::PageRef;
use crate::includes::include_ref::IncludeRef;
use crate::includes::includer::{FetchedPage, Includer};
use crate::includes::parse::parse_include_block;
use crate::includes::{
    blocks_among, include_views, located, page_views, render_page, rendered, requested_pages,
    INCLUDE_COMPAT_PATTERN, INCLUDE_PATTERN,
};
use crate::pattern::{captures_fit, find_captures};
use crate::settings::WikitextSettings;
use crate::splice::{spans_fit, splice_back, spliced};
use crate::text::{lemma_boundary_shift, lemma_encode_injective, Span};
use vstd::prelude::*;
use vstd::string::*;
use vstd::utf8::*;

verus! {

/// Every answer is for the page of the request at the same index, and there
/// are as many answers as requests.
pub open spec fn pages_match(includes: Seq<IncludeRef>, fetched: Seq<FetchedPage>) -> bool {
    &&& includes.len() == fetched.len()
    &&& forall|i: int|
        0 <= i < includes.len() ==> (#[trigger] includes[i])@.page_ref == fetched[i].page_ref@
}

/// Every answer holds the text of its page.
pub open spec fn all_present(fetched: Seq<FetchedPage>) -> bool {
    forall|i: int| 0 <= i < fetched.len() ==> (#[trigger] fetched[i]).content is Some
}

/// `texts` has one entry for each request, and where the answer holds the
/// page's text, the entry is that text as it is rendered for the request.
pub open spec fn texts_agree(
    texts: Seq<Seq<u8>>,
    includes: Seq<IncludeRef>,
    fetched: Seq<FetchedPage>,
) -> bool {
    &&& texts.len() == includes.len()
    &&& forall|i: int|
        0 <= i < texts.len() ==> ((#[trigger] fetched[i]).content matches Some(c) ==> texts[i]
            == encode_utf8(rendered(c@, includes[i]@.variables)))
}

/// `out` is `doc` with each of the ranges rewritten to some text.
pub open spec fn rewritten(out: Seq<u8>, doc: Seq<u8>, spans: Seq<Span>) -> bool {
    exists|texts: Seq<Seq<u8>>|
        texts.len() == spans.len() && out == #[trigger] spliced(doc, spans, texts)
}

/// The items of `items` in the opposite order.
pub fn reversed<T>(items: Vec<T>) -> (r: Vec<T>)
    ensures
        r@ == items@.reverse(),
{
    let ghost all = items@;
    let mut items = items;
    let mut r: Vec<T> = Vec::new();
    while items.len() > 0
        invariant
            items@ == all.take(items@.len() as int),
            items@.len() <= all.len(),
            r@.len() == all.len() - items@.len(),
            forall|j: int| 0 <= j < r@.len() ==> r@[j] == all[all.len() - 1 - j],
        decreases items@.len(),
    {
        let item = items.pop();
        match item {
            Some(item) => {
                r.push(item);
            },
            None => {},
        }
    }
    assert(r@ =~= all.reverse());
    r
}

/// The include blocks of `input`, from left to right: the range of each and
/// what it asks for.
///
/// An opening at which no well-formed block begins is passed over, and so is
/// one that lies inside the block accepted before it: the ranges never
/// overlap.
pub fn find_includes(input: &str, settings: &WikitextSettings) -> (r: (Vec<Span>, Vec<IncludeRef>))
    ensures
        r.0@ == located(input@, settings.use_include_compatibility).0,
        include_views(r.1@) == located(input@, settings.use_include_compatibility).1,
        r.0@.len() == r.1@.len(),
        spans_fit(r.0@, encode_utf8(input@)),
{
    let compatibility = settings.use_include_compatibility;
    let pattern = if compatibility {
        INCLUDE_COMPAT_PATTERN
    } else {
        INCLUDE_PATTERN
    };
    let found = find_captures(pattern, true, true, true, input);
    let ghost b = encode_utf8(input@);
    let len = input.as_bytes().len();
    proof {
        encode_utf8_valid_utf8(input@);
    }
    let mut ranges: Vec<Span> = Vec::new();
    let mut includes: Vec<IncludeRef> = Vec::new();
    let mut floor: usize = 0;
    let mut k: usize = 0;
    while k < found.len()
        invariant
            k <= found@.len(),
            b == encode_utf8(input@),
            b == input.spec_bytes(),
            valid_utf8(b),
            len == b.len(),
            compatibility == settings.use_include_compatibility,
            captures_fit(found@, b),
            ranges@ == blocks_among(b, found@, compatibility, k as int).0,
            include_views(includes@) == blocks_among(b, found@, compatibility, k as int).1,
            ranges@.len() == includes@.len(),
            floor == if ranges@.len() == 0 {
                0
            } else {
                ranges@.last().end
            },
            spans_fit(ranges@, b),
        decreases found@.len() - k,
    {
        let start = found[k].whole.start;
        let ghost before = ranges@;
        let ghost before_views = include_views(includes@);
        proof {
            assert(found@[k as int].whole.fits(b));
        }
        let (_, suffix) = input.split_at(start);
        proof {
            assert(suffix.spec_bytes() =~= b.subrange(start as int, b.len() as int));
        }
        match parse_include_block(suffix, start, settings) {
            Ok((block, end)) => {
                if start >= floor {
                    proof {
                        let rel = end - start;
                        let front = b.subrange(0, start as int);
                        let back = b.subrange(start as int, b.len() as int);
                        valid_utf8_split(b, start as int);
                        assert(b =~= front + back);
                        lemma_boundary_shift(front, back, rel);
                    }
                    let range = Span { start, end };
                    ranges.push(range);
                    includes.push(block);
                    floor = end;
                    proof {
                        assert(ranges@ =~= before.push(range));
                        assert(include_views(includes@) =~= before_views.push(block@));
                        assert forall|i: int, j: int| 0 <= i < j < ranges@.len() implies ranges@[i].end
                            <= ranges@[j].start by {
                            if j == before.len() {
                                assert(before[before.len() - 1].fits(b));
                                if i < before.len() - 1 {
                                    assert(before[i].end <= before[before.len() - 1].start);
                                }
                            } else {
                                assert(before[i].end <= before[j].start);
                            }
                        }
                        assert forall|i: int| 0 <= i < ranges@.len() implies (
                        #[trigger] ranges@[i]).fits(b) by {
                            if i < before.len() {
                                assert(before[i].fits(b));
                            }
                        }
                    }
                }
            },
            Err(_) => {},
        }
        k = k + 1;
    }
    (ranges, includes)
}

/// Puts the text of each fetched page in the place of its include block.
///
/// The blocks are taken from the last to the first. For each, the answer must
/// be for the page that the block asks for; if it is not, the call fails with
/// what `invalid_return` gives. Where the answer holds the page's text, the
/// block gives way to that text as `rendered` has it; where it holds none, to
/// what `no_such_include` returns for the page, and if that fails, the call
/// fails with its error.
pub fn substitute<I: Includer, F: FnOnce() -> I::Error>(
    input: &str,
    ranges: Vec<Span>,
    includes: Vec<IncludeRef>,
    fetched: Vec<FetchedPage>,
    includer: &mut I,
    invalid_return: F,
) -> (r: Result<(String, Vec<PageRef>), I::Error>)
    requires
        spans_fit(ranges@, encode_utf8(input@)),
        ranges@.len() == includes@.len(),
        call_requires(invalid_return, ()),
    ensures
        !pages_match(includes@, fetched@) ==> r is Err,
        includes@.len() != fetched@.len() ==> (r matches Err(e) && call_ensures(
            invalid_return,
            (),
            e,
        )),
        !pages_match(includes@, fetched@) && all_present(fetched@) ==> (r matches Err(e)
            && call_ensures(invalid_return, (), e)),
        pages_match(includes@, fetched@) && all_present(fetched@) ==> r is Ok,
        r matches Ok((out, pages)) ==> page_views(pages@) == requested_pages(
            include_views(includes@),
        ) && exists|texts: Seq<Seq<u8>>| #[trigger]
            texts_agree(texts, includes@, fetched@) && encode_utf8(out@) == spliced(
                encode_utf8(input@),
                ranges@,
                texts,
            ),
        ranges@.len() == 0 && fetched@.len() == 0 ==> (r matches Ok((out, pages)) && out@
            == input@ && pages@.len() == 0),
{
    if includes.len() != fetched.len() {
        return Err(invalid_return());
    }
    let ghost doc = encode_utf8(input@);
    let ghost all_ranges = ranges@;
    let ghost all_includes = includes@;
    let ghost all_fetched = fetched@;
    let ghost n = ranges@.len() as int;
    let mut rest_ranges = ranges;
    let mut rest_includes = includes;
    let mut rest_fetched = fetched;
    let mut output = String::from_str(input);
    let mut pages: Vec<PageRef> = Vec::new();
    let ghost mut done: Seq<Seq<u8>> = Seq::empty();
    proof {
        encode_utf8_valid_utf8(input@);
        assert(all_ranges.skip(n) =~= Seq::<Span>::empty());
        assert(all_ranges.take(n) =~= all_ranges);
        assert(all_includes.take(n) =~= all_includes);
        assert(all_fetched.take(n) =~= all_fetched);
    }
    while rest_ranges.len() > 0
        invariant
            valid_utf8(doc),
            spans_fit(all_ranges, doc),
            n == all_ranges.len(),
            n == all_includes.len(),
            n == all_fetched.len(),
            all_ranges == ranges@,
            all_includes == includes@,
            all_fetched == fetched@,
            doc == encode_utf8(input@),
            rest_ranges@.len() <= n,
            rest_includes@.len() == rest_ranges@.len(),
            rest_fetched@.len() == rest_ranges@.len(),
            rest_ranges@ == all_ranges.take(rest_ranges@.len() as int),
            rest_includes@ == all_includes.take(rest_ranges@.len() as int),
            rest_fetched@ == all_fetched.take(rest_ranges@.len() as int),
            done.len() == n - rest_ranges@.len(),
            encode_utf8(output@) == spliced(doc, all_ranges.skip(rest_ranges@.len() as int), done),
            pages@.len() == n - rest_ranges@.len(),
            forall|j: int| 0 <= j < pages@.len() ==> (#[trigger] pages@[j])@ == all_includes[n - 1
                - j]@.page_ref,
            forall|i: int|
                rest_ranges@.len() <= i < n ==> (#[trigger] all_includes[i])@.page_ref
                    == all_fetched[i].page_ref@,
            forall|i: int|
                rest_ranges@.len() <= i < n ==> ((#[trigger] all_fetched[i]).content matches Some(c)
                    ==> done[i - rest_ranges@.len()] == encode_utf8(
                    rendered(c@, all_includes[i]@.variables),
                )),
            call_requires(invalid_return, ()),
        ensures
            rest_ranges@.len() == 0,
        decreases rest_ranges@.len(),
    {
        let ghost k = rest_ranges@.len() - 1;
        let range = rest_ranges.pop().unwrap();
        let block = rest_includes.pop().unwrap();
        let page = rest_fetched.pop().unwrap();
        let (page_ref, variables) = block.into_parts();
        if !page_ref.same_as(&page.page_ref) {
            proof {
                assert(all_includes[k]@.page_ref != all_fetched[k].page_ref@);
            }
            return Err(invalid_return());
        }
        let text = match page.content {
            Some(content) => render_page(content.as_str(), &variables),
            None => match includer.no_such_include(&page_ref) {
                Ok(text) => text,
                Err(e) => {
                    proof {
                        assert(all_fetched[k].content is None);
                    }
                    return Err(e);
                },
            },
        };
        proof {
            let rest = all_ranges.skip(k + 1);
            let now = all_ranges.skip(k);
            assert(now =~= seq![range] + rest);
            assert(spans_fit(now, doc)) by {
                assert forall|i: int| 0 <= i < now.len() implies (#[trigger] now[i]).fits(doc) by {
                    assert(now[i] == all_ranges[k + i]);
                }
                assert forall|i: int, j: int| 0 <= i < j < now.len() implies now[i].end
                    <= now[j].start by {
                    assert(now[i] == all_ranges[k + i]);
                    assert(now[j] == all_ranges[k + j]);
                }
            }
            assert(rest_ranges@ =~= all_ranges.take(k));
            assert(rest_includes@ =~= all_includes.take(k));
            assert(rest_fetched@ =~= all_fetched.take(k));
        }
        splice_back(
            &mut output,
            range,
            text.as_str(),
            Ghost(doc),
            Ghost(all_ranges.skip(k + 1)),
            Ghost(done),
        );
        proof {
            done = seq![encode_utf8(text@)] + done;
            assert(all_ranges.skip(k) =~= seq![range] + all_ranges.skip(k + 1));
        }
        pages.push(page_ref);
    }
    let pages = reversed(pages);
    proof {
        assert(all_ranges.skip(0) =~= all_ranges);
        assert(page_views(pages@) =~= requested_pages(include_views(all_includes)));
        assert(texts_agree(done, all_includes, all_fetched));
        if n == 0 {
            lemma_encode_injective(output@, input@);
        }
    }
    Ok((output, pages))
}

/// Replaces the include blocks of `input` by the pages they ask for.
///
/// Where page syntax is switched off, the text comes back as it is and the
/// includer is left alone. Otherwise all blocks are found, the includer is
/// asked once for all their pages, and `substitute` does the rest. The pages
/// come back in the order of their blocks.
pub fn resolve_includes<I: Includer, F: FnOnce() -> I::Error>(
    input: &str,
    settings: &WikitextSettings,
    includer: I,
    invalid_return: F,
) -> (r: Result<(String, Vec<PageRef>), I::Error>)
    requires
        call_requires(invalid_return, ()),
    ensures
        !settings.enable_page_syntax ==> (r matches Ok((out, pages)) && out@ == input@
            && pages@.len() == 0),
        settings.enable_page_syntax ==> (r matches Ok((out, pages)) ==> page_views(pages@)
            == requested_pages(located(input@, settings.use_include_compatibility).1) && rewritten(
            encode_utf8(out@),
            encode_utf8(input@),
            located(input@, settings.use_include_compatibility).0,
        )),
        located(input@, settings.use_include_compatibility).0.len() == 0 ==> (r matches Ok(
            (out, pages),
        ) ==> out@ == input@ && pages@.len() == 0),
{
    if !settings.enable_page_syntax {
        return Ok((String::from_str(input), Vec::new()));
    }
    let mut includer = includer;
    let (ranges, includes) = find_includes(input, settings);
    let fetched = match includer.include_pages(includes.as_slice()) {
        Ok(fetched) => fetched,
        Err(e) => {
            return Err(e);
        },
    };
    let ghost spans = ranges@;
    let ghost blocks = includes@;
    let ghost answers = fetched@;
    let r = substitute(input, ranges, includes, fetched, &mut includer, invalid_return);
    proof {
        if r is Ok {
            let out = r->Ok_0.0;
            let texts = choose|texts: Seq<Seq<u8>>| #[trigger]
                texts_agree(texts, blocks, answers) && encode_utf8(out@) == spliced(
                    encode_utf8(input@),
                    spans,
                    texts,
                );
            assert(encode_utf8(out@) == spliced(encode_utf8(input@), spans, texts));
            if spans.len() == 0 {
                lemma_encode_injective(out@, input@);
                assert(page_views(r->Ok_0.1@).len() == 0);
            }
        }
    }
    r
}

} // verus!
