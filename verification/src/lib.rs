//! Page splitting and paragraph numbering for a word-processor renderer,
//! verified with Verus.

pub mod layout;
pub mod model;
pub mod pagination;
pub mod text;
pub mod units;
