//! Decoding of the block file format.
pub mod constant;
pub mod cursor;
pub mod encoding;
pub mod types;
