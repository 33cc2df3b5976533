//! The ways in which decoding or scanning a stream can end without a block.
use vstd::prelude::*;

verus! {

/// Why a decode or a scan produced no block.
#[derive(Debug, Clone, Copy, PartialEq, Eq, Structural)]
pub enum ScanError {
    /// The stream ran out of bytes before a fixed-width field could be filled.
    InsufficientData,
    /// A record's network identifier is not the expected one.
    NetworkMismatch,
    /// The stream ended before any record reached the requested height.
    NotFound,
}

impl ScanError {
    /// The text that describes the error to a user.
    pub fn message(&self) -> (text: &'static str)
        ensures
            text@ == match *self {
                ScanError::InsufficientData => "unexpected end of data"@,
                ScanError::NetworkMismatch => "network validation failed"@,
                ScanError::NotFound => "failed to find block"@,
            },
    {
        match self {
            ScanError::InsufficientData => "unexpected end of data",
            ScanError::NetworkMismatch => "network validation failed",
            ScanError::NotFound => "failed to find block",
        }
    }
}

} // verus!
