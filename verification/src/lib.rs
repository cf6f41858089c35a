//! Page transclusion and delimited inline containers for a wiki markup.

pub mod data;
pub mod includes;
pub mod parsing;
pub mod pattern;
pub mod scan;
pub mod settings;
pub mod splice;
pub mod text;
pub mod tree;
pub mod variables;
