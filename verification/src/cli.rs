//! What the user asks for.
use vstd::prelude::*;

verus! {

/// The request of one run: which block to look for.
#[derive(Debug)]
pub struct Context {
    /// The height of a block to search for.
    /// Must be a non-negative integer.
    pub block_at_height: u64,
}

} // verus!
