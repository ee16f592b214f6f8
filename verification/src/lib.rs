//! Grammar-driven pretty-printing: document trees, their rendering, and the
//! language front ends that produce them.

pub mod config;
pub mod doc;
pub mod text;

pub mod css;
pub mod css_fast;
pub mod css_grammar;
pub mod css_text;
pub mod css_range;
pub mod google_sheets;
pub mod google_sheets_text;
pub mod json;
pub mod json_text;
pub mod json_range;
pub mod vm;

pub mod builtin;
pub mod cli;
pub mod jit;
pub mod split;
