//! Splitting a section's paragraphs into pages and columns.

pub mod types;
pub mod state;
pub mod measure;
pub mod finalize;
pub mod engine;
pub mod text_lines;
pub mod controls;
pub mod split;
pub mod paginate;
