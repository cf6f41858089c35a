//! The rules themselves.

pub mod bold;
pub mod italics;
pub mod strikethrough;
