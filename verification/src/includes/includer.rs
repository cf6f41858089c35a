//! Where the text of included pages comes from.

use crate::data::{PageRef, PageRefView};
use crate::includes::include_ref::IncludeRef;
use vstd::prelude::*;

verus! {

/// What came back for one requested page.
#[derive(Debug, Clone, PartialEq, Eq)]
pub struct FetchedPage {
    /// The page that this answer is for.
    pub page_ref: PageRef,
    /// The page's text, or `None` where there is no such page.
    pub content: Option<String>,
}

/// What a `FetchedPage` stands for.
pub struct FetchedPageView {
    pub page_ref: PageRefView,
    pub content: Option<Seq<char>>,
}

impl View for FetchedPage {
    type V = FetchedPageView;

    open spec fn view(&self) -> FetchedPageView {
        FetchedPageView {
            page_ref: self.page_ref@,
            content: match self.content {
                Some(s) => Some(s@),
                None => None,
            },
        }
    }
}

/// A source of pages.
///
/// Nothing is assumed of an implementation: it may fail, answer for other
/// pages than it was asked for, or give another number of answers.
pub trait Includer {
    /// The failure of a source.
    type Error;

    /// Fetches all requested pages at once. A well-behaved source gives one
    /// answer for each request, in the order of the requests.
    fn include_pages(&mut self, includes: &[IncludeRef]) -> Result<Vec<FetchedPage>, Self::Error>;

    /// The text to show in place of a page that does not exist.
    fn no_such_include(&mut self, page_ref: &PageRef) -> Result<String, Self::Error>;
}

} // verus!
