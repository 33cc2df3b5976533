//! The layout of a block file, and what a scan finds in a file so laid out.
use crate::error::ScanError;
use crate::scanner::{found_view, scan, scan_from, ScanOutcome};
use crate::util::constant::mainnet_magic;
use crate::util::cursor::pending;
use crate::util::encoding::{
    le_u32, lemma_le_is_reversed_be, lemma_le_round_trip, lemma_le_value_round_trip, u32_le_bytes,
};
use crate::util::types::{
    spec_block, spec_block_info, Block, BlockInfo, BlockInfoView, BlockView,
};
use vstd::prelude::*;

verus! {

/// Whether `block` can stand in a file: its fixed fields have their widths,
/// and its length fits the 32-bit length field.
pub open spec fn storable(block: BlockView) -> bool {
    block.wf() && block.bytes().len() <= u32::MAX
}

/// The framing header that stands before `block` when it is the record at
/// `height`.
pub open spec fn framing(block: BlockView, height: u64) -> BlockInfoView {
    BlockInfoView {
        height,
        magic_bytes: mainnet_magic(),
        size: u32_le_bytes(block.bytes().len() as int),
    }
}

/// The bytes of the record that holds `block`: the network identifier, the
/// block's length in little-endian order, and the block.
pub open spec fn record_bytes(block: BlockView) -> Seq<u8> {
    mainnet_magic() + u32_le_bytes(block.bytes().len() as int) + block.bytes()
}

/// The bytes of a file that holds `blocks`, one record after another.
pub open spec fn stream_bytes(blocks: Seq<BlockView>) -> Seq<u8>
    decreases blocks.len(),
{
    if blocks.len() == 0 {
        Seq::empty()
    } else {
        record_bytes(blocks.first()) + stream_bytes(blocks.drop_first())
    }
}

/// A scan that stands before a whole record reads it back as it was
/// written, and either ends with it or goes on behind it.
pub proof fn lemma_scan_reads_record(block: BlockView, tail: Seq<u8>, index: nat, height: nat)
    requires
        storable(block),
        index <= u64::MAX,
    ensures
        index == height ==> scan_from(record_bytes(block) + tail, index, height) == (ScanOutcome {
            result: Ok((framing(block, index as u64), block)),
            rest: tail,
        }),
        index != height ==> scan_from(record_bytes(block) + tail, index, height) == scan_from(
            tail,
            index + 1,
            height,
        ),
{
    let stream = record_bytes(block) + tail;
    let length = block.bytes().len() as int;
    lemma_le_value_round_trip(length);
    let info = spec_block_info(stream, index as u64);
    assert(info.magic_bytes =~= mainnet_magic());
    assert(info.size =~= u32_le_bytes(length));
    let body = stream.skip(8);
    assert(body =~= block.bytes() + tail);
    assert(body.skip(length) =~= tail);
    let read = spec_block(body, length as u32);
    let header = block.block_header;
    assert(read.block_header.version =~= header.version);
    assert(read.block_header.previous_block_header_hash =~= header.previous_block_header_hash);
    assert(read.block_header.merkle_root_hash =~= header.merkle_root_hash);
    assert(read.block_header.unix_epoch_time =~= header.unix_epoch_time);
    assert(read.block_header.target =~= header.target);
    assert(read.block_header.nonce =~= header.nonce);
    assert(read.tx_count =~= block.tx_count);
    assert(read.tx_data =~= block.tx_data);
    assert(read == block);
    assert(info == framing(block, index as u64));
}

/// In a file of whole records, a scan that starts at the record of position
/// `index` finds the record at `height` and leaves what follows it, or
/// reaches the end without a match.
pub proof fn lemma_scan_from_finds(blocks: Seq<BlockView>, index: nat, height: nat)
    requires
        forall|i: int| 0 <= i < blocks.len() ==> storable(#[trigger] blocks[i]),
        index <= height <= u64::MAX,
    ensures
        height - index < blocks.len() ==> scan_from(stream_bytes(blocks), index, height) == (
        ScanOutcome {
            result: Ok(
                (framing(blocks[height - index], height as u64), blocks[height - index]),
            ),
            rest: stream_bytes(blocks.skip(height - index + 1)),
        }),
        height - index >= blocks.len() ==> scan_from(stream_bytes(blocks), index, height) == (
        ScanOutcome { result: Err(ScanError::NotFound), rest: Seq::empty() }),
    decreases blocks.len(),
{
    if blocks.len() > 0 {
        let later = blocks.drop_first();
        lemma_scan_reads_record(blocks.first(), stream_bytes(later), index, height);
        if index == height {
            assert(blocks.skip(1) =~= later);
        } else {
            lemma_scan_from_finds(later, index + 1, height);
            if height - index < blocks.len() {
                assert(later.skip(height - index) =~= blocks.skip(height - index + 1));
            }
        }
    }
}

/// In a file that holds the records of `blocks` and nothing else, a scan for
/// a height below their number finds the record at that height, with its
/// framing header, and leaves the records behind it unread; a scan for any
/// other height ends with `NotFound`.
pub proof fn lemma_scan_finds(blocks: Seq<BlockView>, height: u64)
    requires
        forall|i: int| 0 <= i < blocks.len() ==> storable(#[trigger] blocks[i]),
    ensures
        height < blocks.len() ==> scan(stream_bytes(blocks), height) == (ScanOutcome {
            result: Ok((framing(blocks[height as int], height), blocks[height as int])),
            rest: stream_bytes(blocks.skip(height + 1)),
        }),
        height >= blocks.len() ==> scan(stream_bytes(blocks), height) == (ScanOutcome {
            result: Err(ScanError::NotFound),
            rest: Seq::empty(),
        }),
{
    lemma_scan_from_finds(blocks, 0, height as nat);
}

/// What a scan from the position `index` finds stood in the stream as a
/// record: before it stand as many whole records as lie between `index` and
/// `height`, and behind it stands what the scan left. The records before it
/// are the result.
pub proof fn lemma_scan_from_found(stream: Seq<u8>, index: nat, height: nat) -> (before: Seq<
    BlockView,
>)
    requires
        index <= height <= u64::MAX,
        scan_from(stream, index, height).result is Ok,
    ensures
        before.len() == height - index,
        forall|i: int| 0 <= i < before.len() ==> storable(#[trigger] before[i]),
        scan_from(stream, index, height).result matches Ok(found) && {
            &&& storable(found.1)
            &&& found.0 == framing(found.1, height as u64)
            &&& stream == stream_bytes(before) + record_bytes(found.1) + scan_from(
                stream,
                index,
                height,
            ).rest
        },
    decreases stream.len(),
{
    let info = spec_block_info(stream, index as u64);
    let size = le_u32(info.size);
    let body = stream.skip(8);
    let block = spec_block(body, size as u32);
    lemma_le_round_trip(info.size);
    lemma_le_is_reversed_be(info.size);
    assert(block.bytes() =~= body.take(size));
    assert(stream =~= record_bytes(block) + body.skip(size));
    if index == height {
        let before = Seq::<BlockView>::empty();
        assert(stream_bytes(before) + record_bytes(block) + body.skip(size) =~= stream);
        before
    } else {
        let later = lemma_scan_from_found(body.skip(size), index + 1, height);
        let before = seq![block] + later;
        let found = scan_from(stream, index, height).result->Ok_0;
        let rest = scan_from(stream, index, height).rest;
        assert(before.drop_first() =~= later);
        assert(stream_bytes(before) == record_bytes(block) + stream_bytes(later));
        assert(stream_bytes(before) + record_bytes(found.1) + rest =~= record_bytes(block) + (
        stream_bytes(later) + record_bytes(found.1) + rest));
        before
    }
}

/// What a scan finds stood in the stream as a record at the requested
/// height: the stream is that many whole records, then the record found with
/// its framing header, then what the scan left unread. The records before
/// the one found are the result.
pub proof fn lemma_scan_found(stream: Seq<u8>, height: u64) -> (before: Seq<BlockView>)
    requires
        scan(stream, height).result is Ok,
    ensures
        before.len() == height,
        forall|i: int| 0 <= i < before.len() ==> storable(#[trigger] before[i]),
        scan(stream, height).result matches Ok(found) && {
            &&& storable(found.1)
            &&& found.0 == framing(found.1, height)
            &&& stream == stream_bytes(before) + record_bytes(found.1) + scan(stream, height).rest
        },
{
    lemma_scan_from_found(stream, 0, height as nat)
}

/// A scan that stands before a record of which only a part is there, and
/// nothing behind it, ends with `InsufficientData`.
pub proof fn lemma_scan_cut_record(block: BlockView, cut: int, index: nat, height: nat)
    requires
        storable(block),
        0 < cut < record_bytes(block).len(),
    ensures
        scan_from(record_bytes(block).take(cut), index, height).result == Err::<
            (BlockInfoView, BlockView),
            ScanError,
        >(ScanError::InsufficientData),
{
    let stream = record_bytes(block).take(cut);
    let length = block.bytes().len() as int;
    lemma_le_value_round_trip(length);
    if cut >= 8 {
        let info = spec_block_info(stream, index as u64);
        assert(info.magic_bytes =~= mainnet_magic());
        assert(info.size =~= u32_le_bytes(length));
        assert(stream.skip(8).len() == cut - 8);
    }
}

/// In a file that ends inside a record, be it in the network identifier, the
/// length, the header, the transaction count or the data, a scan for that
/// record or a later one ends with `InsufficientData`.
pub proof fn lemma_scan_from_truncated(
    whole: Seq<BlockView>,
    block: BlockView,
    cut: int,
    index: nat,
    height: nat,
)
    requires
        forall|i: int| 0 <= i < whole.len() ==> storable(#[trigger] whole[i]),
        storable(block),
        0 < cut < record_bytes(block).len(),
        index + whole.len() <= height <= u64::MAX,
    ensures
        scan_from(stream_bytes(whole) + record_bytes(block).take(cut), index, height).result
            == Err::<(BlockInfoView, BlockView), ScanError>(ScanError::InsufficientData),
    decreases whole.len(),
{
    let part = record_bytes(block).take(cut);
    if whole.len() == 0 {
        assert(stream_bytes(whole) + part =~= part);
        lemma_scan_cut_record(block, cut, index, height);
    } else {
        let later = whole.drop_first();
        let tail = stream_bytes(later) + part;
        assert(stream_bytes(whole) + part =~= record_bytes(whole.first()) + tail);
        lemma_scan_reads_record(whole.first(), tail, index, height);
        lemma_scan_from_truncated(later, block, cut, index + 1, height);
    }
}

/// In a file that holds the records of `whole` and then only the first `cut`
/// bytes of one more record, a scan for a height that `whole` does not reach
/// ends with `InsufficientData`, wherever in the record the file ends.
pub proof fn lemma_scan_truncated(whole: Seq<BlockView>, block: BlockView, cut: int, height: u64)
    requires
        forall|i: int| 0 <= i < whole.len() ==> storable(#[trigger] whole[i]),
        storable(block),
        0 < cut < record_bytes(block).len(),
        whole.len() <= height,
    ensures
        scan(stream_bytes(whole) + record_bytes(block).take(cut), height).result == Err::<
            (BlockInfoView, BlockView),
            ScanError,
        >(ScanError::InsufficientData),
{
    lemma_scan_from_truncated(whole, block, cut, 0, height as nat);
}

/// Two scans of the same stream for the same height end alike: what
/// `find_block` returns and what it leaves in the buffer is the same, byte
/// for byte, both times.
pub proof fn lemma_scan_repeatable(
    stream: Seq<u8>,
    height: u64,
    first: Result<(BlockInfo, Block), ScanError>,
    first_left: Seq<u8>,
    second: Result<(BlockInfo, Block), ScanError>,
    second_left: Seq<u8>,
)
    requires
        found_view(first) == scan(stream, height).result,
        pending(first_left) == scan(stream, height).rest,
        found_view(second) == scan(stream, height).result,
        pending(second_left) == scan(stream, height).rest,
    ensures
        found_view(first) == found_view(second),
        first_left == second_left,
{
    assert(first_left =~= pending(first_left).reverse());
    assert(second_left =~= pending(second_left).reverse());
}

} // verus!
