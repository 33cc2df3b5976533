use bitcoin_block_finder::util::cursor::reverse_in_place;
use bitcoin_block_finder::util::types::{Block, BlockHeader};
use bitcoin_block_finder::ScanError;

/// The first block of the main chain, as it stands in a block file behind
/// its eight bytes of framing.
fn first_block() -> Vec<u8> {
    let text = concat_text(&[
        "01000000",
        "0000000000000000000000000000000000000000000000000000000000000000",
        "3ba3edfd7a7b12b27ac72c3e67768f617fc81bc3888a51323a9fb8aa4b1e5e4a",
        "29ab5f49",
        "ffff001d",
        "1dac2b7c",
        "01",
        "01000000",
        "01",
        "0000000000000000000000000000000000000000000000000000000000000000ffffffff",
        "4d",
        "04ffff001d0104455468652054696d65732030332f4a616e2f32303039204368616e63656c6c6f72",
        "206f6e206272696e6b206f66207365636f6e64206261696c6f757420666f722062616e6b73",
        "ffffffff",
        "01",
        "00f2052a01000000",
        "43",
        "4104678afdb0fe5548271967f1a67130b7105cd6a828e03909a67962e0ea1f61deb649f6bc3f4cef38",
        "c4f35504e51ec112de5c384df7ba0b8d578a4c702b6bf11d5fac",
        "00000000",
    ]);
    hex::decode(text).unwrap()
}

fn concat_text(parts: &[&str]) -> String {
    let mut text = String::new();
    for part in parts {
        text.push_str(part);
    }
    text
}

fn as_buffer(stream: &[u8]) -> Vec<u8> {
    let mut buffer = stream.to_vec();
    reverse_in_place(&mut buffer);
    buffer
}

#[test]
fn first_block_has_285_bytes() {
    assert_eq!(first_block().len(), 285);
}

#[test]
fn header_fields_come_in_layout_order() {
    let block = first_block();
    let mut buffer = block[..80].to_vec();

    let header = BlockHeader::from_raw_bytes(&mut buffer).unwrap();

    assert!(buffer.is_empty());
    assert_eq!(header.version(), 1);
    assert_eq!(
        header.previous_block_header_hash(),
        "0000000000000000000000000000000000000000000000000000000000000000"
    );
    assert_eq!(
        header.merkle_root_hash(),
        "3ba3edfd7a7b12b27ac72c3e67768f617fc81bc3888a51323a9fb8aa4b1e5e4a"
    );
    assert_eq!(header.unix_epoch_time(), 1_231_006_505);
    assert_eq!(header.target(), 0x1d00_ffff);
    assert_eq!(header.nonce(), 2_083_236_893);
}

#[test]
fn header_is_the_first_eighty_bytes() {
    let stream: Vec<u8> = (0..100u8).collect();
    let mut buffer = stream.clone();

    let header = BlockHeader::from_raw_bytes(&mut buffer).unwrap();

    assert_eq!(buffer, stream[80..].to_vec());
    let expected = BlockHeader::new(
        stream[0..4].to_vec(),
        stream[4..36].to_vec(),
        stream[36..68].to_vec(),
        stream[68..72].to_vec(),
        stream[72..76].to_vec(),
        stream[76..80].to_vec(),
    );
    assert_eq!(header, expected);
    assert_eq!(header.version(), u32::from_le_bytes([0, 1, 2, 3]));
    assert_eq!(
        header.previous_block_header_hash(),
        "0405060708090a0b0c0d0e0f101112131415161718191a1b1c1d1e1f20212223"
    );
    assert_eq!(
        header.merkle_root_hash(),
        "2425262728292a2b2c2d2e2f303132333435363738393a3b3c3d3e3f40414243"
    );
    assert_eq!(header.unix_epoch_time(), u32::from_le_bytes([68, 69, 70, 71]));
    assert_eq!(header.target(), u32::from_le_bytes([72, 73, 74, 75]));
    assert_eq!(header.nonce(), u32::from_le_bytes([76, 77, 78, 79]));
}

#[test]
fn short_header_is_insufficient_data() {
    let block = first_block();
    for kept in [0usize, 1, 3, 4, 35, 36, 67, 68, 72, 76, 79] {
        let mut buffer = block[..kept].to_vec();
        let before = buffer.clone();
        assert_eq!(BlockHeader::from_raw_bytes(&mut buffer), Err(ScanError::InsufficientData));
        assert_eq!(buffer, before);
    }
}

/// Eighty bytes in file order, all zero but for `field` at `offset`.
fn header_with(offset: usize, field: &[u8]) -> Vec<u8> {
    let mut bytes: Vec<u8> = vec![0; 80];
    bytes[offset..offset + field.len()].copy_from_slice(field);
    bytes
}

#[test]
fn header_in_file_order_gives_each_field_from_its_own_slot() {
    let mut bytes: Vec<u8> = vec![1, 0, 0, 0];
    bytes.extend_from_slice(&[0xaa; 32]);
    bytes.extend_from_slice(&[0xbb; 32]);
    bytes.extend_from_slice(&[2, 0, 0, 0]);
    bytes.extend_from_slice(&[3, 0, 0, 0]);
    bytes.extend_from_slice(&[4, 0, 0, 0]);

    let header = BlockHeader::from_raw_bytes(&mut bytes).unwrap();

    assert!(bytes.is_empty());
    assert_eq!(header.version(), 1);
    assert_eq!(header.previous_block_header_hash(), "aa".repeat(32));
    assert_eq!(header.merkle_root_hash(), "bb".repeat(32));
    assert_eq!(header.unix_epoch_time(), 2);
    assert_eq!(header.target(), 3);
    assert_eq!(header.nonce(), 4);
}

#[test]
fn hashes_are_the_hex_of_their_slots_in_order() {
    let mut bytes: Vec<u8> = vec![0; 4];
    bytes.extend(0u8..32);
    bytes.extend(32u8..64);
    bytes.extend_from_slice(&[0; 12]);

    let header = BlockHeader::from_raw_bytes(&mut bytes).unwrap();

    assert_eq!(
        header.previous_block_header_hash(),
        "000102030405060708090a0b0c0d0e0f101112131415161718191a1b1c1d1e1f"
    );
    assert_eq!(
        header.merkle_root_hash(),
        "202122232425262728292a2b2c2d2e2f303132333435363738393a3b3c3d3e3f"
    );
}

#[test]
fn version_is_the_first_four_bytes() {
    let mut bytes = header_with(0, &[0x02, 0x00, 0x00, 0x20]);
    let header = BlockHeader::from_raw_bytes(&mut bytes).unwrap();
    assert_eq!(header.version(), 536_870_914);
    assert_eq!(header.nonce(), 0);
}

#[test]
fn previous_hash_is_bytes_4_to_36() {
    let mut bytes = header_with(4, &[0x6f, 0xe2, 0x8c, 0x0a]);
    let header = BlockHeader::from_raw_bytes(&mut bytes).unwrap();
    assert_eq!(
        header.previous_block_header_hash(),
        "6fe28c0a".to_string() + &"0".repeat(56)
    );
    assert_eq!(header.merkle_root_hash(), "0".repeat(64));
}

#[test]
fn merkle_root_is_bytes_36_to_68() {
    let mut bytes = header_with(36, &[0x3b, 0xa3, 0xed, 0xfd]);
    let header = BlockHeader::from_raw_bytes(&mut bytes).unwrap();
    assert_eq!(header.merkle_root_hash(), "3ba3edfd".to_string() + &"0".repeat(56));
    assert_eq!(header.previous_block_header_hash(), "0".repeat(64));
}

#[test]
fn time_is_bytes_68_to_72() {
    let mut bytes = header_with(68, &[0x29, 0xab, 0x5f, 0x49]);
    let header = BlockHeader::from_raw_bytes(&mut bytes).unwrap();
    assert_eq!(header.unix_epoch_time(), 1_231_006_505);
    assert_eq!(header.target(), 0);
}

#[test]
fn target_is_bytes_72_to_76() {
    let mut bytes = header_with(72, &[0xff, 0xff, 0x00, 0x1d]);
    let header = BlockHeader::from_raw_bytes(&mut bytes).unwrap();
    assert_eq!(header.target(), 486_604_799);
    assert_eq!(header.unix_epoch_time(), 0);
}

#[test]
fn nonce_is_the_last_four_bytes() {
    let mut bytes = header_with(76, &[0x1d, 0xac, 0x2b, 0x7c]);
    let header = BlockHeader::from_raw_bytes(&mut bytes).unwrap();
    assert_eq!(header.nonce(), 2_083_236_893);
    assert_eq!(header.version(), 0);
}

#[test]
fn header_agrees_with_little_endian_and_hex_of_its_slots() {
    let bytes: Vec<u8> = (0..80u32).map(|i| (i * 37 + 11) as u8).collect();
    let mut buffer = bytes.clone();

    let header = BlockHeader::from_raw_bytes(&mut buffer).unwrap();

    let le = |at: usize| u32::from_le_bytes([bytes[at], bytes[at + 1], bytes[at + 2], bytes[at + 3]]);
    assert_eq!(header.version(), le(0));
    assert_eq!(header.previous_block_header_hash(), hex::encode(&bytes[4..36]));
    assert_eq!(header.merkle_root_hash(), hex::encode(&bytes[36..68]));
    assert_eq!(header.unix_epoch_time(), le(68));
    assert_eq!(header.target(), le(72));
    assert_eq!(header.nonce(), le(76));
}

#[test]
fn block_is_header_count_and_data() {
    let bytes = first_block();
    let mut buffer = as_buffer(&bytes);

    let block = Block::from_raw_bytes(&mut buffer, 285).unwrap();

    assert!(buffer.is_empty());
    assert_eq!(block.block_header().version(), 1);
    assert_eq!(block.block_header().nonce(), 2_083_236_893);
    assert_eq!(block.tx_count(), 0x0101_0000);
    assert_eq!(block.tx_data(), &bytes[84..].to_vec());
    assert_eq!(block.tx_data().len(), 201);
}

#[test]
fn block_leaves_what_follows_it() {
    let mut stream = first_block();
    stream.extend_from_slice(&[0xaa, 0xbb, 0xcc]);
    let mut buffer = as_buffer(&stream);

    let block = Block::from_raw_bytes(&mut buffer, 285).unwrap();

    assert_eq!(buffer, vec![0xcc, 0xbb, 0xaa]);
    let mut header_buffer = stream[..80].to_vec();
    let expected = Block::new(
        BlockHeader::from_raw_bytes(&mut header_buffer).unwrap(),
        stream[80..84].to_vec(),
        stream[84..285].to_vec(),
    );
    assert_eq!(block, expected);
}

#[test]
fn transaction_count_is_read_in_stream_order() {
    let mut stream: Vec<u8> = vec![0; 80];
    stream.extend_from_slice(&[0x12, 0x34, 0x56, 0x78]);
    let mut buffer = as_buffer(&stream);

    let block = Block::from_raw_bytes(&mut buffer, 84).unwrap();

    assert_eq!(block.tx_count(), 0x1234_5678);
    assert!(block.tx_data().is_empty());
    assert!(buffer.is_empty());
}

#[test]
fn block_size_without_room_for_header_and_count_is_insufficient_data() {
    let bytes = first_block();
    for size in [0u32, 1, 79, 80, 83] {
        let mut buffer = as_buffer(&bytes);
        let before = buffer.clone();
        assert_eq!(Block::from_raw_bytes(&mut buffer, size), Err(ScanError::InsufficientData));
        assert_eq!(buffer, before);
    }
}

#[test]
fn short_block_is_insufficient_data() {
    let bytes = first_block();
    for kept in [0usize, 1, 79, 80, 82, 83, 84, 200, 284] {
        let mut buffer = as_buffer(&bytes[..kept]);
        let before = buffer.clone();
        assert_eq!(Block::from_raw_bytes(&mut buffer, 285), Err(ScanError::InsufficientData));
        assert_eq!(buffer, before);
    }
    let mut buffer = as_buffer(&bytes);
    assert_eq!(Block::from_raw_bytes(&mut buffer, u32::MAX), Err(ScanError::InsufficientData));
    assert_eq!(buffer, as_buffer(&bytes));
}
