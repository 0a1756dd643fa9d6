//! A configurable path-renaming engine: an ordered, staged application of
//! pattern/replacement rules to the slices of a path (the full path, the base
//! file name, the directory portion, and a final post-processing pass over
//! the rejoined path), together with a fixed normalization step that merges
//! runs of adjacent bracketed tags in a file name into one bracket group.

pub mod brackets;
pub mod engine;
pub mod laws;
pub mod rules;

pub use engine::LoadError;
pub use engine::RegexTransforms;
