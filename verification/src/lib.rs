//! Classification of mail text that carries unified diffs, possibly nested
//! in quoted replies, and selection of the byte ranges of a code fragment
//! that can be handed to a syntax highlighter.
pub mod chunk_collector;
pub mod debug;
pub mod heuristics;
pub mod highlighter;
pub mod parser;
pub mod syntax;
pub mod text;
