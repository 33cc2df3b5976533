//! The scan that walks a stream record by record up to a requested height.
use crate::error::ScanError;
use crate::util::constant::mainnet_magic;
use crate::util::cursor::{pending, reverse_in_place};
use crate::util::encoding::le_u32;
use crate::util::types::{
    spec_block, spec_block_info, Block, BlockInfo, BlockInfoView, BlockView,
};
use vstd::prelude::*;

verus! {

/// How a scan ends: with the record found or the reason why there is none,
/// and with the part of the stream that it left unread.
pub struct ScanOutcome {
    pub result: Result<(BlockInfoView, BlockView), ScanError>,
    pub rest: Seq<u8>,
}

/// The scan of `stream` for the record at `height`, where the record at the
/// front of `stream` has the position `index`.
///
/// An empty stream ends the scan with `NotFound`. Otherwise the framing
/// header is read, the network identifier is checked, and the block is read
/// in the length that the header gives; each of these can end the scan with
/// its error. The record is the result if it stands at `height`; if not, the
/// scan goes on behind it.
pub open spec fn scan_from(stream: Seq<u8>, index: nat, height: nat) -> ScanOutcome
    decreases stream.len(),
{
    if stream.len() == 0 {
        ScanOutcome { result: Err(ScanError::NotFound), rest: stream }
    } else if stream.len() < 8 {
        ScanOutcome { result: Err(ScanError::InsufficientData), rest: stream }
    } else {
        let info = spec_block_info(stream, index as u64);
        let size = le_u32(info.size);
        let body = stream.skip(8);
        if info.magic_bytes != mainnet_magic() {
            ScanOutcome { result: Err(ScanError::NetworkMismatch), rest: body }
        } else if size < 84 || body.len() < size {
            ScanOutcome { result: Err(ScanError::InsufficientData), rest: body }
        } else if index == height {
            ScanOutcome { result: Ok((info, spec_block(body, size as u32))), rest: body.skip(size) }
        } else {
            scan_from(body.skip(size), index + 1, height)
        }
    }
}

/// The scan of a whole stream, whose first record has the position 0.
pub open spec fn scan(stream: Seq<u8>, height: u64) -> ScanOutcome {
    scan_from(stream, 0, height as nat)
}

/// What a result of `find_block` holds.
pub open spec fn found_view(found: Result<(BlockInfo, Block), ScanError>) -> Result<
    (BlockInfoView, BlockView),
    ScanError,
> {
    match found {
        Ok((info, block)) => Ok((info@, block@)),
        Err(e) => Err(e),
    }
}

/// Finds the block at `height` in `raw_bytes`, the content of a block file
/// in file order.
///
/// The records are read one after another from the start; the result is the
/// framing header and the block of the first record whose position is
/// `height`. The scan ends with `NotFound` when the stream ends before that
/// position, with `NetworkMismatch` at the first record of another network,
/// and with `InsufficientData` when the stream ends inside a record.
///
/// The buffer is used up: at the end it holds what the scan left unread,
/// back to front.
pub fn find_block(raw_bytes: &mut Vec<u8>, height: u64) -> (found: Result<
    (BlockInfo, Block),
    ScanError,
>)
    ensures
        found_view(found) == scan(old(raw_bytes)@, height).result,
        pending(final(raw_bytes)@) == scan(old(raw_bytes)@, height).rest,
{
    reverse_in_place(raw_bytes);
    assert(pending(raw_bytes@) =~= old(raw_bytes)@);
    let mut block_height: u64 = 0;
    while !raw_bytes.is_empty()
        invariant
            block_height <= height,
            scan_from(pending(raw_bytes@), block_height as nat, height as nat) == scan(
                old(raw_bytes)@,
                height,
            ),
        decreases raw_bytes.len(),
    {
        let block_info = match BlockInfo::from_raw_bytes(raw_bytes, block_height) {
            Ok(info) => info,
            Err(e) => {
                return Err(e);
            },
        };
        match block_info.validate_network() {
            Ok(()) => {},
            Err(e) => {
                return Err(e);
            },
        }
        let block = match Block::from_raw_bytes(raw_bytes, block_info.size_as_u32()) {
            Ok(block) => block,
            Err(e) => {
                return Err(e);
            },
        };
        if block_info.height() == height {
            return Ok((block_info, block));
        }
        block_height += 1;
    }
    assert(pending(raw_bytes@).len() == 0);
    Err(ScanError::NotFound)
}

} // verus!
