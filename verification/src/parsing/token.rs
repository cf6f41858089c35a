//! Tokens, as the lexer hands them over.

use vstd::prelude::*;

verus! {

/// The kinds of tokens that the inline containers look at.
#[derive(Debug, Clone, Copy, PartialEq, Eq, Structural, Hash)]
pub enum Token {
    /// `**`
    Bold,
    /// `//`
    Italics,
    /// `--`
    DoubleDash,
    Whitespace,
    LineBreak,
    ParagraphBreak,
    Identifier,
    Other,
}

/// A token with the text that it was read from.
#[derive(Debug, Clone, PartialEq, Eq)]
pub struct ExtractedToken {
    pub token: Token,
    pub slice: String,
}

impl ExtractedToken {
    /// A token of the given kind.
    pub fn new(token: Token, slice: &str) -> (r: ExtractedToken)
        ensures
            r.token == token,
            r.slice@ == slice@,
    {
        ExtractedToken { token, slice: String::from_str(slice) }
    }
}

/// A line begins at `pos`: nothing or a break stands before it.
pub open spec fn line_starts(tokens: Seq<ExtractedToken>, pos: int) -> bool {
    pos <= 0 || (pos <= tokens.len() && (tokens[pos - 1].token == Token::LineBreak || tokens[pos
        - 1].token == Token::ParagraphBreak))
}

} // verus!
