//! Paragraph layout helpers: bullets, automatic numbers, colours and
//! baselines.

pub mod bullet;
pub mod color;
pub mod numbering;
