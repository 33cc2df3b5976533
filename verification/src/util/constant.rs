//! The network identifier and the widths, in bytes, of the fixed fields.
use vstd::prelude::*;

verus! {

/// The network identifier of the main network, as lowercase hexadecimal.
pub const MAINNET_HEX: &'static str = "f9beb4d9";

/// Width of a record's network identifier.
pub const MAGIC_BYTES: u32 = 4;

/// Width of a record's length field.
pub const BLOCK_SIZE: u32 = 4;

/// Width of a block's header.
pub const BLOCK_HEADER: u32 = 80;

/// Width of a block's transaction count.
pub const TX_COUNT: u32 = 4;

/// Width of the header's version.
pub const BLOCK_HEADER_VERSION: u32 = 4;

/// Width of the hash of the previous block's header.
pub const PREVIOUS_BLOCK_HEADER_HASH: u32 = 32;

/// Width of the merkle root hash.
pub const MERKLE_ROOT_HASH: u32 = 32;

/// Width of the header's timestamp.
pub const UNIX_EPOCH_TIME: u32 = 4;

/// Width of the header's target.
pub const TARGET: u32 = 4;

/// Width of the header's nonce.
pub const NONCE: u32 = 4;

/// The bytes of the main network's identifier, in stream order.
pub open spec fn mainnet_magic() -> Seq<u8> {
    seq![0xf9u8, 0xbeu8, 0xb4u8, 0xd9u8]
}

} // verus!
