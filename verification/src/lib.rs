//! A heuristic extractor that turns lines of object-oriented source text into
//! a class-diagram description: per-file line classification and signature
//! parsing, followed by a whole-run resolution pass over candidate edges.

pub mod diagram;
pub mod extract;
pub mod laws;
pub mod model;
pub mod parse;
pub mod resolve;
pub mod split;
pub mod text;
