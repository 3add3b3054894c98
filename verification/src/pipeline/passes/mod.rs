//! The passes of the import pipeline.

pub mod parse_chapter;
pub mod chapter_graph;
pub mod discover;
pub mod embed;
