//! Settings that decide how wikitext is read.

use vstd::prelude::*;

verus! {

/// How a text is to be read.
#[derive(Debug, Clone, Copy, PartialEq, Eq)]
pub struct WikitextSettings {
    /// Whether syntax that reaches other pages is honoured. Where it is not,
    /// include blocks are left as they stand.
    pub enable_page_syntax: bool,
    /// Whether an include block is spelled `[[include ...]]` rather than
    /// `[[include-messy ...]]`.
    pub use_include_compatibility: bool,
}

} // verus!
