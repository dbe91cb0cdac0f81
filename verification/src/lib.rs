//! Decoder for one chunk of a region container: locates the chunk's payload,
//! reads its tag tree and unpacks every section's palette-indexed block
//! stream into blocks with absolute world coordinates.

pub mod bits;
pub mod block;
pub mod decoder;
pub mod document;
pub mod error;
pub mod name;
pub mod pack;
pub mod packed;
pub mod position;
pub mod region;
pub mod tag;
