//! Finds the block at a given height in a file of bitcoin blocks.
//!
//! A block file is a run of records. Each record is a framing header of
//! eight bytes, the network identifier and the block's length, and then the
//! block: eighty bytes of header fields, four bytes of transaction count,
//! and the transactions. [`find_block`] reads the records from the start of
//! the file and returns the one at the requested height, counted from 0.
//!
//! The module [`scanner`] says what a scan does with any stream of bytes;
//! [`stream`] says what it finds in a file of whole records, and in one that
//! breaks off inside a record; [`util`] holds the decoders of the parts.
pub mod cli;
pub mod error;
pub mod scanner;
pub mod stream;
pub mod util;

pub use crate::cli::Context;
pub use crate::error::ScanError;
pub use crate::scanner::find_block;
