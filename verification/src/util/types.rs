//! The decoded parts of a record: its framing header, the block's header
//! fields, and the block itself.
use crate::error::ScanError;
use crate::util::constant::{
    mainnet_magic, BLOCK_HEADER, BLOCK_HEADER_VERSION, BLOCK_SIZE, MAGIC_BYTES, MAINNET_HEX,
    MERKLE_ROOT_HASH, NONCE, PREVIOUS_BLOCK_HEADER_HASH, TARGET, TX_COUNT, UNIX_EPOCH_TIME,
};
use crate::util::cursor::{pending, take_bytes, take_front};
use crate::util::encoding::{
    be_u32, encode_hex, hex_digits, hex_string, le_u32, lemma_hex_digit, read_u32_be, read_u32_le,
};
use vstd::prelude::*;

verus! {

/// What a `BlockInfo` holds.
pub struct BlockInfoView {
    /// The record's position in the stream, counted from 0.
    pub height: u64,
    /// The network identifier, in stream order.
    pub magic_bytes: Seq<u8>,
    /// The length field, in stream order.
    pub size: Seq<u8>,
}

impl BlockInfoView {
    /// Both fields have their fixed width.
    pub open spec fn wf(self) -> bool {
        self.magic_bytes.len() == MAGIC_BYTES && self.size.len() == BLOCK_SIZE
    }
}

/// The framing header at the front of `stream`, for the record at `height`.
pub open spec fn spec_block_info(stream: Seq<u8>, height: u64) -> BlockInfoView {
    BlockInfoView { height, magic_bytes: stream.subrange(0, 4), size: stream.subrange(4, 8) }
}

/// The framing header of a record: where the record stands in the stream,
/// which network it belongs to, and how long its block is.
#[derive(Debug, Ord, PartialOrd, Eq, PartialEq)]
pub struct BlockInfo {
    height: u64,
    magic_bytes: Vec<u8>,
    size: Vec<u8>,
}

impl View for BlockInfo {
    type V = BlockInfoView;

    closed spec fn view(&self) -> BlockInfoView {
        BlockInfoView { height: self.height, magic_bytes: self.magic_bytes@, size: self.size@ }
    }
}

impl BlockInfo {
    #[verifier::type_invariant]
    spec fn well_formed(&self) -> bool {
        self@.wf()
    }

    /// A header from its parts.
    pub fn new(height: u64, magic_bytes: Vec<u8>, size: Vec<u8>) -> (info: Self)
        requires
            magic_bytes.len() == MAGIC_BYTES,
            size.len() == BLOCK_SIZE,
        ensures
            info@ == (BlockInfoView { height, magic_bytes: magic_bytes@, size: size@ }),
    {
        Self { height, magic_bytes, size }
    }

    /// The record's position in the stream, counted from 0.
    pub fn height(&self) -> (height: u64)
        ensures
            height == self@.height,
    {
        self.height
    }

    /// The length of the block that follows, in bytes: the length field read
    /// in little-endian order.
    pub fn size_as_u32(&self) -> (size: u32)
        ensures
            self@.wf(),
            size == le_u32(self@.size),
    {
        proof {
            use_type_invariant(self);
        }
        read_u32_le(&self.size)
    }

    /// The network identifier as hexadecimal text, in stream order.
    pub fn network_hex(&self) -> (text: String)
        ensures
            text@ == hex_string(self@.magic_bytes),
    {
        encode_hex(&self.magic_bytes)
    }

    /// Succeeds if the network identifier, as hexadecimal text in stream
    /// order, is `MAINNET_HEX`, that is, if its bytes are those of the main
    /// network; fails with `NetworkMismatch` if it is any other.
    pub fn validate_network(&self) -> (checked: Result<(), ScanError>)
        ensures
            self@.wf(),
            checked is Ok <==> hex_string(self@.magic_bytes) == MAINNET_HEX@,
            checked is Ok <==> self@.magic_bytes == mainnet_magic(),
            checked is Err ==> checked == Err::<(), ScanError>(ScanError::NetworkMismatch),
    {
        proof {
            use_type_invariant(self);
            lemma_mainnet_hex(self@.magic_bytes);
        }
        let expected: String = MAINNET_HEX.to_owned();
        if self.network_hex() == expected {
            Ok(())
        } else {
            Err(ScanError::NetworkMismatch)
        }
    }

    /// Reads the framing header of the record at `height` off the stream: the
    /// network identifier, then the length field. Fails, and leaves the
    /// stream as it was, if fewer than eight bytes are left.
    pub fn from_raw_bytes(raw_bytes: &mut Vec<u8>, height: u64) -> (decoded: Result<
        Self,
        ScanError,
    >)
        ensures
            match decoded {
                Ok(info) => {
                    &&& old(raw_bytes).len() >= MAGIC_BYTES + BLOCK_SIZE
                    &&& info@ == spec_block_info(pending(old(raw_bytes)@), height)
                    &&& info@.wf()
                    &&& pending(final(raw_bytes)@) == pending(old(raw_bytes)@).skip(8)
                    &&& final(raw_bytes)@ == old(raw_bytes)@.take(old(raw_bytes).len() - 8)
                },
                Err(e) => {
                    &&& e == ScanError::InsufficientData
                    &&& old(raw_bytes).len() < MAGIC_BYTES + BLOCK_SIZE
                    &&& final(raw_bytes)@ == old(raw_bytes)@
                },
            },
    {
        if raw_bytes.len() < (MAGIC_BYTES + BLOCK_SIZE) as usize {
            return Err(ScanError::InsufficientData);
        }
        let ghost stream = pending(raw_bytes@);
        let magic_bytes = match take_bytes(raw_bytes, MAGIC_BYTES) {
            Ok(bytes) => bytes,
            Err(e) => {
                return Err(e);
            },
        };
        let size = match take_bytes(raw_bytes, BLOCK_SIZE) {
            Ok(bytes) => bytes,
            Err(e) => {
                return Err(e);
            },
        };
        assert(magic_bytes@ =~= stream.subrange(0, 4));
        assert(size@ =~= stream.subrange(4, 8));
        assert(pending(raw_bytes@) =~= stream.skip(8));
        Ok(BlockInfo::new(height, magic_bytes, size))
    }
}

/// What a `BlockHeader` holds: its six fields, each in stream order.
pub struct BlockHeaderView {
    pub version: Seq<u8>,
    pub previous_block_header_hash: Seq<u8>,
    pub merkle_root_hash: Seq<u8>,
    pub unix_epoch_time: Seq<u8>,
    pub target: Seq<u8>,
    pub nonce: Seq<u8>,
}

impl BlockHeaderView {
    /// Each field has its fixed width.
    pub open spec fn wf(self) -> bool {
        &&& self.version.len() == BLOCK_HEADER_VERSION
        &&& self.previous_block_header_hash.len() == PREVIOUS_BLOCK_HEADER_HASH
        &&& self.merkle_root_hash.len() == MERKLE_ROOT_HASH
        &&& self.unix_epoch_time.len() == UNIX_EPOCH_TIME
        &&& self.target.len() == TARGET
        &&& self.nonce.len() == NONCE
    }

    /// The eighty bytes of the header: the fields one after another, in the
    /// order of the binary layout.
    pub open spec fn bytes(self) -> Seq<u8> {
        self.version + self.previous_block_header_hash + self.merkle_root_hash
            + self.unix_epoch_time + self.target + self.nonce
    }
}

/// The header fields at the front of `stream`, bytes in file order: the
/// version first, the nonce last.
pub open spec fn spec_block_header(stream: Seq<u8>) -> BlockHeaderView {
    BlockHeaderView {
        version: stream.subrange(0, 4),
        previous_block_header_hash: stream.subrange(4, 36),
        merkle_root_hash: stream.subrange(36, 68),
        unix_epoch_time: stream.subrange(68, 72),
        target: stream.subrange(72, 76),
        nonce: stream.subrange(76, 80),
    }
}

/// The six fixed-width fields of a block's header.
#[derive(Debug, Eq, PartialEq)]
pub struct BlockHeader {
    version: Vec<u8>,
    previous_block_header_hash: Vec<u8>,
    merkle_root_hash: Vec<u8>,
    unix_epoch_time: Vec<u8>,
    target: Vec<u8>,
    nonce: Vec<u8>,
}

impl View for BlockHeader {
    type V = BlockHeaderView;

    closed spec fn view(&self) -> BlockHeaderView {
        BlockHeaderView {
            version: self.version@,
            previous_block_header_hash: self.previous_block_header_hash@,
            merkle_root_hash: self.merkle_root_hash@,
            unix_epoch_time: self.unix_epoch_time@,
            target: self.target@,
            nonce: self.nonce@,
        }
    }
}

impl BlockHeader {
    #[verifier::type_invariant]
    spec fn well_formed(&self) -> bool {
        self@.wf()
    }

    /// A header from its six fields.
    pub fn new(
        version: Vec<u8>,
        previous_block_header_hash: Vec<u8>,
        merkle_root_hash: Vec<u8>,
        unix_epoch_time: Vec<u8>,
        target: Vec<u8>,
        nonce: Vec<u8>,
    ) -> (header: Self)
        requires
            version.len() == BLOCK_HEADER_VERSION,
            previous_block_header_hash.len() == PREVIOUS_BLOCK_HEADER_HASH,
            merkle_root_hash.len() == MERKLE_ROOT_HASH,
            unix_epoch_time.len() == UNIX_EPOCH_TIME,
            target.len() == TARGET,
            nonce.len() == NONCE,
        ensures
            header@ == (BlockHeaderView {
                version: version@,
                previous_block_header_hash: previous_block_header_hash@,
                merkle_root_hash: merkle_root_hash@,
                unix_epoch_time: unix_epoch_time@,
                target: target@,
                nonce: nonce@,
            }),
    {
        Self {
            version,
            previous_block_header_hash,
            merkle_root_hash,
            unix_epoch_time,
            target,
            nonce,
        }
    }

    /// Cuts the header's eighty bytes into its six fields. `raw_block_header`
    /// holds the bytes in file order, the first byte of the version first,
    /// and is read front to back in the order of the binary layout: the
    /// eighty bytes are removed from its front, and what stood behind them
    /// stays. Fails, and leaves the buffer as it was, if it holds fewer than
    /// eighty bytes.
    pub fn from_raw_bytes(raw_block_header: &mut Vec<u8>) -> (decoded: Result<Self, ScanError>)
        ensures
            match decoded {
                Ok(header) => {
                    &&& old(raw_block_header).len() >= BLOCK_HEADER
                    &&& header@ == spec_block_header(old(raw_block_header)@)
                    &&& header@.wf()
                    &&& final(raw_block_header)@ == old(raw_block_header)@.skip(80)
                },
                Err(e) => {
                    &&& e == ScanError::InsufficientData
                    &&& old(raw_block_header).len() < BLOCK_HEADER
                    &&& final(raw_block_header)@ == old(raw_block_header)@
                },
            },
    {
        if raw_block_header.len() < BLOCK_HEADER as usize {
            return Err(ScanError::InsufficientData);
        }
        let ghost bytes = raw_block_header@;
        let version = match take_front(raw_block_header, BLOCK_HEADER_VERSION) {
            Ok(field) => field,
            Err(e) => {
                return Err(e);
            },
        };
        assert(raw_block_header@ =~= bytes.skip(4));
        let previous_block_header_hash = match take_front(
            raw_block_header,
            PREVIOUS_BLOCK_HEADER_HASH,
        ) {
            Ok(field) => field,
            Err(e) => {
                return Err(e);
            },
        };
        assert(raw_block_header@ =~= bytes.skip(36));
        let merkle_root_hash = match take_front(raw_block_header, MERKLE_ROOT_HASH) {
            Ok(field) => field,
            Err(e) => {
                return Err(e);
            },
        };
        assert(raw_block_header@ =~= bytes.skip(68));
        let unix_epoch_time = match take_front(raw_block_header, UNIX_EPOCH_TIME) {
            Ok(field) => field,
            Err(e) => {
                return Err(e);
            },
        };
        assert(raw_block_header@ =~= bytes.skip(72));
        let target = match take_front(raw_block_header, TARGET) {
            Ok(field) => field,
            Err(e) => {
                return Err(e);
            },
        };
        assert(raw_block_header@ =~= bytes.skip(76));
        let nonce = match take_front(raw_block_header, NONCE) {
            Ok(field) => field,
            Err(e) => {
                return Err(e);
            },
        };
        assert(raw_block_header@ =~= bytes.skip(80));
        assert(version@ =~= bytes.subrange(0, 4));
        assert(previous_block_header_hash@ =~= bytes.subrange(4, 36));
        assert(merkle_root_hash@ =~= bytes.subrange(36, 68));
        assert(unix_epoch_time@ =~= bytes.subrange(68, 72));
        assert(target@ =~= bytes.subrange(72, 76));
        assert(nonce@ =~= bytes.subrange(76, 80));
        Ok(
            BlockHeader::new(
                version,
                previous_block_header_hash,
                merkle_root_hash,
                unix_epoch_time,
                target,
                nonce,
            ),
        )
    }

    /// The block's version: its field read in little-endian order.
    pub fn version(&self) -> (version: u32)
        ensures
            self@.wf(),
            version == le_u32(self@.version),
    {
        proof {
            use_type_invariant(self);
        }
        read_u32_le(&self.version)
    }

    /// The hash of the previous block's header as hexadecimal text, in stream
    /// order.
    pub fn previous_block_header_hash(&self) -> (text: String)
        ensures
            text@ == hex_string(self@.previous_block_header_hash),
    {
        encode_hex(&self.previous_block_header_hash)
    }

    /// The merkle root hash as hexadecimal text, in stream order.
    pub fn merkle_root_hash(&self) -> (text: String)
        ensures
            text@ == hex_string(self@.merkle_root_hash),
    {
        encode_hex(&self.merkle_root_hash)
    }

    /// The block's timestamp, in seconds since the Unix epoch: its field read
    /// in little-endian order.
    pub fn unix_epoch_time(&self) -> (seconds: u32)
        ensures
            self@.wf(),
            seconds == le_u32(self@.unix_epoch_time),
    {
        proof {
            use_type_invariant(self);
        }
        read_u32_le(&self.unix_epoch_time)
    }

    /// The block's target: its field read in little-endian order.
    pub fn target(&self) -> (target: u32)
        ensures
            self@.wf(),
            target == le_u32(self@.target),
    {
        proof {
            use_type_invariant(self);
        }
        read_u32_le(&self.target)
    }

    /// The block's nonce: its field read in little-endian order.
    pub fn nonce(&self) -> (nonce: u32)
        ensures
            self@.wf(),
            nonce == le_u32(self@.nonce),
    {
        proof {
            use_type_invariant(self);
        }
        read_u32_le(&self.nonce)
    }
}

/// What a `Block` holds.
pub struct BlockView {
    /// The header's six fields.
    pub block_header: BlockHeaderView,
    /// The transaction count field, in stream order.
    pub tx_count: Seq<u8>,
    /// What follows the count, up to the end of the block.
    pub tx_data: Seq<u8>,
}

impl BlockView {
    /// The header and the count have their fixed widths.
    pub open spec fn wf(self) -> bool {
        self.block_header.wf() && self.tx_count.len() == TX_COUNT
    }

    /// The bytes of the block: the header, the count, then the data.
    pub open spec fn bytes(self) -> Seq<u8> {
        self.block_header.bytes() + self.tx_count + self.tx_data
    }
}

/// The block of `block_size` bytes at the front of `stream`.
pub open spec fn spec_block(stream: Seq<u8>, block_size: u32) -> BlockView {
    BlockView {
        block_header: spec_block_header(stream),
        tx_count: stream.subrange(80, 84),
        tx_data: stream.subrange(84, block_size as int),
    }
}

/// A block: its header, its transaction count, and its transactions as
/// bytes that are not looked into.
#[derive(Debug, Eq, PartialEq)]
pub struct Block {
    block_header: BlockHeader,
    tx_count: Vec<u8>,
    tx_data: Vec<u8>,
}

impl View for Block {
    type V = BlockView;

    closed spec fn view(&self) -> BlockView {
        BlockView {
            block_header: self.block_header@,
            tx_count: self.tx_count@,
            tx_data: self.tx_data@,
        }
    }
}

impl Block {
    #[verifier::type_invariant]
    spec fn well_formed(&self) -> bool {
        self@.wf()
    }

    /// A block from its parts.
    pub fn new(block_header: BlockHeader, tx_count: Vec<u8>, tx_data: Vec<u8>) -> (block: Self)
        requires
            tx_count.len() == TX_COUNT,
        ensures
            block@ == (BlockView {
                block_header: block_header@,
                tx_count: tx_count@,
                tx_data: tx_data@,
            }),
    {
        proof {
            use_type_invariant(&block_header);
        }
        Self { block_header, tx_count, tx_data }
    }

    /// Reads a block of `block_size` bytes off the stream: eighty bytes of
    /// header, four of transaction count, and the rest as data. Fails, and
    /// leaves the stream as it was, if `block_size` has no room for header
    /// and count or if fewer than `block_size` bytes are left.
    pub fn from_raw_bytes(raw_bytes: &mut Vec<u8>, block_size: u32) -> (decoded: Result<
        Self,
        ScanError,
    >)
        ensures
            match decoded {
                Ok(block) => {
                    &&& BLOCK_HEADER + TX_COUNT <= block_size <= old(raw_bytes).len()
                    &&& block@ == spec_block(pending(old(raw_bytes)@), block_size)
                    &&& block@.wf()
                    &&& pending(final(raw_bytes)@) == pending(old(raw_bytes)@).skip(
                        block_size as int,
                    )
                    &&& final(raw_bytes)@ == old(raw_bytes)@.take(
                        old(raw_bytes).len() - block_size,
                    )
                },
                Err(e) => {
                    &&& e == ScanError::InsufficientData
                    &&& (block_size < BLOCK_HEADER + TX_COUNT || old(raw_bytes).len() < block_size)
                    &&& final(raw_bytes)@ == old(raw_bytes)@
                },
            },
    {
        if block_size < BLOCK_HEADER + TX_COUNT || raw_bytes.len() < block_size as usize {
            return Err(ScanError::InsufficientData);
        }
        let ghost stream = pending(raw_bytes@);
        let mut raw_block_header = match take_bytes(raw_bytes, BLOCK_HEADER) {
            Ok(bytes) => bytes,
            Err(e) => {
                return Err(e);
            },
        };
        assert(raw_block_header@ =~= stream.subrange(0, 80));
        let block_header = match BlockHeader::from_raw_bytes(&mut raw_block_header) {
            Ok(header) => header,
            Err(e) => {
                return Err(e);
            },
        };
        assert(pending(raw_bytes@) =~= stream.skip(80));
        let tx_count = match take_bytes(raw_bytes, TX_COUNT) {
            Ok(bytes) => bytes,
            Err(e) => {
                return Err(e);
            },
        };
        assert(pending(raw_bytes@) =~= stream.skip(84));
        let tx_data = match take_bytes(raw_bytes, block_size - (BLOCK_HEADER + TX_COUNT)) {
            Ok(bytes) => bytes,
            Err(e) => {
                return Err(e);
            },
        };
        assert(pending(raw_bytes@) =~= stream.skip(block_size as int));
        assert(tx_count@ =~= stream.subrange(80, 84));
        assert(tx_data@ =~= stream.subrange(84, block_size as int));
        assert(block_header@ =~= spec_block_header(stream)) by {
            let head = stream.subrange(0, 80);
            assert(head.subrange(0, 4) =~= stream.subrange(0, 4));
            assert(head.subrange(4, 36) =~= stream.subrange(4, 36));
            assert(head.subrange(36, 68) =~= stream.subrange(36, 68));
            assert(head.subrange(68, 72) =~= stream.subrange(68, 72));
            assert(head.subrange(72, 76) =~= stream.subrange(72, 76));
            assert(head.subrange(76, 80) =~= stream.subrange(76, 80));
        }
        Ok(Block::new(block_header, tx_count, tx_data))
    }

    /// The block's header.
    pub fn block_header(&self) -> (header: &BlockHeader)
        ensures
            header@ == self@.block_header,
    {
        &self.block_header
    }

    /// The transaction count: its field read in stream order, the first byte
    /// the most significant.
    pub fn tx_count(&self) -> (count: u32)
        ensures
            self@.wf(),
            count == be_u32(self@.tx_count),
    {
        proof {
            use_type_invariant(self);
        }
        read_u32_be(&self.tx_count)
    }

    /// The block's transactions, as the bytes that follow the count.
    pub fn tx_data(&self) -> (data: &Vec<u8>)
        ensures
            data@ == self@.tx_data,
    {
        &self.tx_data
    }
}

/// The hexadecimal text of four bytes is that of the main network exactly
/// when the bytes are the main network's identifier.
pub proof fn lemma_mainnet_hex(magic_bytes: Seq<u8>)
    requires
        magic_bytes.len() == 4,
    ensures
        hex_string(magic_bytes) == MAINNET_HEX@ <==> magic_bytes == mainnet_magic(),
{
    reveal_strlit("f9beb4d9");
    let text = hex_string(magic_bytes);
    if magic_bytes == mainnet_magic() {
        assert(text =~= MAINNET_HEX@);
    }
    if text == MAINNET_HEX@ {
        assert forall|i: int| 0 <= i < 4 implies magic_bytes[i] == mainnet_magic()[i] by {
            let b = magic_bytes[i] as int;
            lemma_hex_digit(b / 16);
            lemma_hex_digit(b % 16);
            assert(text[2 * i] == hex_digits()[b / 16]);
            assert(text[2 * i + 1] == hex_digits()[b % 16]);
        }
        assert(magic_bytes =~= mainnet_magic());
    }
}

} // verus!
