//! A small verified line-search library: split a block of text into lines
//! and return, in order, the lines that contain a query string, either
//! case-sensitively or after case folding.

pub mod config;
pub mod laws;
pub mod matcher;
pub mod text;

pub use config::Config;
pub use matcher::run_search;
pub use matcher::search;
pub use matcher::search_case_insensitive;
pub use text::contains_substring;
pub use text::split_lines;
