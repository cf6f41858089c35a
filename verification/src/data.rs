//! References to pages.

use crate::scan::{
    copy_text, first_byte, scan_byte, scan_spaces, scan_spaces_back, text_at, trimmed,
};
use crate::text::lemma_boundary_around_ascii;
use vstd::prelude::*;
use vstd::string::*;
use vstd::utf8::*;

verus! {

/// A page, named by its slug and, for a page of another site, by that site.
#[derive(Debug, Clone, PartialEq, Eq, Hash)]
pub struct PageRef {
    site: Option<String>,
    page: String,
}

/// What a `PageRef` stands for.
pub struct PageRefView {
    pub site: Option<Seq<char>>,
    pub page: Seq<char>,
}

/// The text given as a page reference names no page.
#[derive(Debug, Clone, Copy, PartialEq, Eq)]
pub struct PageRefParseError;

impl View for PageRef {
    type V = PageRefView;

    closed spec fn view(&self) -> PageRefView {
        PageRefView {
            site: match self.site {
                Some(s) => Some(s@),
                None => None,
            },
            page: self.page@,
        }
    }
}

/// The page that the bytes `[from, to)` of `b` name, if they name one.
///
/// Spaces around the text do not count. A text that begins with a colon names
/// a page of another site, `:site:page`: the site is what stands before the
/// second colon and is not empty, the page is the rest, each without the spaces
/// around it. Any other text that is not empty is the page's own name.
pub open spec fn page_ref_at(b: Seq<u8>, from: int, to: int) -> Option<PageRefView> {
    let (lo, hi) = trimmed(b, from, to);
    if lo == hi {
        None
    } else if b[lo] != 0x3a {
        Some(PageRefView { site: None, page: text_at(b, lo, hi) })
    } else {
        let colon = first_byte(b, lo + 1, hi, 0x3a);
        if colon == lo + 1 || colon == hi {
            None
        } else {
            let site = trimmed(b, lo + 1, colon);
            let page = trimmed(b, colon + 1, hi);
            Some(
                PageRefView {
                    site: Some(text_at(b, site.0, site.1)),
                    page: text_at(b, page.0, page.1),
                },
            )
        }
    }
}

/// The page that a whole text names, if it names one.
pub open spec fn page_ref_of(text: Seq<char>) -> Option<PageRefView> {
    page_ref_at(encode_utf8(text), 0, encode_utf8(text).len() as int)
}

impl PageRef {
    /// A page of another site.
    pub fn page_and_site(site: &str, page: &str) -> (r: PageRef)
        ensures
            r@ == (PageRefView { site: Some(site@), page: page@ }),
    {
        PageRef { site: Some(String::from_str(site)), page: String::from_str(page) }
    }

    /// A page of the site at hand.
    pub fn page_only(page: &str) -> (r: PageRef)
        ensures
            r@ == (PageRefView { site: None, page: page@ }),
    {
        PageRef { site: None, page: String::from_str(page) }
    }

    /// The site, where the page belongs to another one.
    pub fn site(&self) -> (r: Option<&str>)
        ensures
            match r {
                Some(s) => self@.site == Some(s@),
                None => self@.site is None,
            },
    {
        match &self.site {
            Some(s) => Some(s.as_str()),
            None => None,
        }
    }

    /// The page's name.
    pub fn page(&self) -> (r: &str)
        ensures
            r@ == self@.page,
    {
        self.page.as_str()
    }

    /// Whether both name the same page of the same site.
    pub fn same_as(&self, other: &PageRef) -> (r: bool)
        ensures
            r == (self@ == other@),
    {
        let sites = match (&self.site, &other.site) {
            (Some(a), Some(b)) => *a == *b,
            (None, None) => true,
            _ => false,
        };
        sites && self.page == other.page
    }

    /// A copy of this reference.
    pub fn duplicate(&self) -> (r: PageRef)
        ensures
            r@ == self@,
    {
        let site = match &self.site {
            Some(s) => Some(s.clone()),
            None => None,
        };
        PageRef { site, page: self.page.clone() }
    }

    /// Reads the page reference in the bytes `[from, to)` of `text`.
    pub fn parse_at(text: &str, from: usize, to: usize) -> (r: Result<PageRef, PageRefParseError>)
        requires
            from <= to <= text.spec_bytes().len(),
            is_char_boundary(text.spec_bytes(), from as int),
            is_char_boundary(text.spec_bytes(), to as int),
        ensures
            match page_ref_at(text.spec_bytes(), from as int, to as int) {
                Some(v) => r matches Ok(p) && p@ == v,
                None => r is Err,
            },
    {
        let bytes = text.as_bytes();
        proof {
            encode_utf8_valid_utf8(text@);
        }
        let lo = scan_spaces(bytes, from, to);
        let hi = scan_spaces_back(bytes, lo, to);
        if lo == hi {
            return Err(PageRefParseError);
        }
        if bytes[lo] != 0x3a {
            return Ok(PageRef { site: None, page: copy_text(text, lo, hi) });
        }
        proof {
            lemma_boundary_around_ascii(bytes@, lo as int);
        }
        let colon = scan_byte(bytes, lo + 1, hi, 0x3a);
        if colon == lo + 1 || colon == hi {
            return Err(PageRefParseError);
        }
        proof {
            lemma_boundary_around_ascii(bytes@, colon as int);
        }
        let site_lo = scan_spaces(bytes, lo + 1, colon);
        let site_hi = scan_spaces_back(bytes, site_lo, colon);
        let page_lo = scan_spaces(bytes, colon + 1, hi);
        let page_hi = scan_spaces_back(bytes, page_lo, hi);
        Ok(
            PageRef {
                site: Some(copy_text(text, site_lo, site_hi)),
                page: copy_text(text, page_lo, page_hi),
            },
        )
    }

    /// Reads a page reference.
    pub fn parse(s: &str) -> (r: Result<PageRef, PageRefParseError>)
        ensures
            match page_ref_of(s@) {
                Some(v) => r matches Ok(p) && p@ == v,
                None => r is Err,
            },
    {
        proof {
            encode_utf8_valid_utf8(s@);
            is_char_boundary_start_end_of_seq(s.spec_bytes());
        }
        PageRef::parse_at(s, 0, s.as_bytes().len())
    }
}

} // verus!
