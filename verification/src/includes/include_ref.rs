//! An include block, once read.

use crate::data::{PageRef, PageRefView};
use crate::variables::VariableMap;
use vstd::prelude::*;

verus! {

/// The request that one include block makes: a page, and the variables to
/// fill in on it.
#[derive(Debug, Clone, PartialEq, Eq)]
pub struct IncludeRef {
    page_ref: PageRef,
    variables: VariableMap,
}

/// What an `IncludeRef` stands for.
pub struct IncludeRefView {
    pub page_ref: PageRefView,
    pub variables: Map<Seq<char>, Seq<char>>,
}

impl View for IncludeRef {
    type V = IncludeRefView;

    closed spec fn view(&self) -> IncludeRefView {
        IncludeRefView { page_ref: self.page_ref@, variables: self.variables@ }
    }
}

impl IncludeRef {
    /// A request for `page_ref` with the given variables.
    pub fn new(page_ref: PageRef, variables: VariableMap) -> (r: IncludeRef)
        ensures
            r@ == (IncludeRefView { page_ref: page_ref@, variables: variables@ }),
    {
        IncludeRef { page_ref, variables }
    }

    /// A request for `page_ref` without variables.
    pub fn page_only(page_ref: PageRef) -> (r: IncludeRef)
        ensures
            r@ == (IncludeRefView { page_ref: page_ref@, variables: Map::empty() }),
    {
        IncludeRef { page_ref, variables: VariableMap::new() }
    }

    /// The page asked for.
    pub fn page_ref(&self) -> (r: &PageRef)
        ensures
            r@ == self@.page_ref,
    {
        &self.page_ref
    }

    /// The variables to fill in.
    pub fn variables(&self) -> (r: &VariableMap)
        ensures
            r@ == self@.variables,
    {
        &self.variables
    }

    /// The page and the variables, taken apart.
    pub fn into_parts(self) -> (r: (PageRef, VariableMap))
        ensures
            r.0@ == self@.page_ref,
            r.1@ == self@.variables,
    {
        (self.page_ref, self.variables)
    }
}

} // verus!
