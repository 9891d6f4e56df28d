//! From raw text to line records and spans.
pub mod line;
pub mod quoting;
pub mod span;
pub mod split;
