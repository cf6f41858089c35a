//! Reading tokens into a tree of elements.

pub mod collect;
pub mod condition;
pub mod parser;
pub mod rule;
pub mod token;
