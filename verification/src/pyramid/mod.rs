//! Multi-resolution image pyramids: their levels, and how they are cached.
//!
//! Level 0 is the full resolution; each further level halves the dimensions,
//! down to a thumbnail.

pub mod builder;
pub mod levels;
pub mod storage;
