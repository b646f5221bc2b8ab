//! The shapes rendered pages are built from.

pub mod markdown;
pub mod templates;
