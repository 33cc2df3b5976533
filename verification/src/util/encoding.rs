//! Hexadecimal text and the integers that fixed-width fields stand for.
use hex::ToHex;
use vstd::arithmetic::div_mod::lemma_fundamental_div_mod_converse;
use vstd::prelude::*;

verus! {

/// The sixteen lowercase hexadecimal digits, each at the index of its value.
pub open spec fn hex_digits() -> Seq<char> {
    seq!['0', '1', '2', '3', '4', '5', '6', '7', '8', '9', 'a', 'b', 'c', 'd', 'e', 'f']
}

/// The lowercase hexadecimal text of `bytes`: two digits for each byte, the
/// high half first, bytes in their given order.
pub open spec fn hex_string(bytes: Seq<u8>) -> Seq<char> {
    Seq::new(
        (2 * bytes.len()) as nat,
        |i: int|
            if i % 2 == 0 {
                hex_digits()[bytes[i / 2] as int / 16]
            } else {
                hex_digits()[bytes[i / 2] as int % 16]
            },
    )
}

/// Whether `c` is one of `0` to `9` or `a` to `f`.
pub open spec fn is_hex_digit(c: char) -> bool {
    ('0' as int <= c as int <= '9' as int) || ('a' as int <= c as int <= 'f' as int)
}

/// The value of the hexadecimal digit `c`.
pub open spec fn hex_digit_value(c: char) -> int {
    if c as int <= '9' as int {
        c as int - '0' as int
    } else {
        c as int - 'a' as int + 10
    }
}

/// Whether `text` is a non-empty run of lowercase hexadecimal digits.
pub open spec fn is_hex_numeral(text: Seq<char>) -> bool {
    text.len() > 0 && forall|i: int| 0 <= i < text.len() ==> is_hex_digit(#[trigger] text[i])
}

/// The number that the hexadecimal digits of `text` denote, the most
/// significant digit first.
pub open spec fn hex_numeral_value(text: Seq<char>) -> int
    decreases text.len(),
{
    if text.len() == 0 {
        0
    } else {
        16 * hex_numeral_value(text.drop_last()) + hex_digit_value(text.last())
    }
}

/// The number that `bytes` denote with the most significant byte first.
pub open spec fn be_value(bytes: Seq<u8>) -> int
    decreases bytes.len(),
{
    if bytes.len() == 0 {
        0
    } else {
        256 * be_value(bytes.drop_last()) + bytes.last() as int
    }
}

/// The unsigned 32-bit integer that four bytes hold in big-endian order.
pub open spec fn be_u32(bytes: Seq<u8>) -> int {
    bytes[0] as int * 0x100_0000 + bytes[1] as int * 0x1_0000 + bytes[2] as int * 0x100
        + bytes[3] as int
}

/// The unsigned 32-bit integer that four bytes hold in little-endian order.
pub open spec fn le_u32(bytes: Seq<u8>) -> int {
    bytes[0] as int + bytes[1] as int * 0x100 + bytes[2] as int * 0x1_0000 + bytes[3] as int
        * 0x100_0000
}

/// The four bytes that hold `value` in little-endian order.
pub open spec fn u32_le_bytes(value: int) -> Seq<u8> {
    seq![
        (value % 0x100) as u8,
        (value / 0x100 % 0x100) as u8,
        (value / 0x1_0000 % 0x100) as u8,
        (value / 0x100_0000 % 0x100) as u8,
    ]
}

/// Calls `hex::ToHex::encode_hex`, collecting into a `String`. Trusted: the
/// text is `hex_string` of the bytes, that is, for each byte in order the
/// digit of its high half and then the digit of its low half, taken from
/// `0123456789abcdef`.
#[verifier::external_body]
pub(crate) fn encode_hex(bytes: &Vec<u8>) -> (text: String)
    ensures
        text@ == hex_string(bytes@),
{
    bytes.encode_hex::<String>()
}

/// Calls `u32::from_str_radix`. Trusted: in base 16, a non-empty run of the
/// digits `0` to `9` and `a` to `f` whose value fits in 32 bits parses to that
/// value. Nothing is claimed of other text or of another base.
#[verifier::external_body]
pub(crate) fn u32_from_str_radix(src: &str, radix: u32) -> (parsed: Option<u32>)
    requires
        2 <= radix <= 36,
    ensures
        radix == 16 && is_hex_numeral(src@) && hex_numeral_value(src@) <= u32::MAX ==> parsed
            == Some(hex_numeral_value(src@) as u32),
{
    u32::from_str_radix(src, radix).ok()
}

/// Each digit of `hex_digits` is a hexadecimal digit and has its index as
/// its value.
pub proof fn lemma_hex_digit(n: int)
    requires
        0 <= n < 16,
    ensures
        is_hex_digit(hex_digits()[n]),
        hex_digit_value(hex_digits()[n]) == n,
{
}

/// The digits of `hex_string` are hexadecimal digits, and read as a number
/// they denote what the bytes denote with the most significant byte first.
pub proof fn lemma_hex_string_value(bytes: Seq<u8>)
    ensures
        hex_string(bytes).len() == 2 * bytes.len(),
        forall|i: int| 0 <= i < hex_string(bytes).len() ==> is_hex_digit(#[trigger] hex_string(bytes)[i]),
        hex_numeral_value(hex_string(bytes)) == be_value(bytes),
    decreases bytes.len(),
{
    let text = hex_string(bytes);
    assert forall|i: int| 0 <= i < text.len() implies is_hex_digit(#[trigger] text[i]) by {
        let b = bytes[i / 2] as int;
        lemma_hex_digit(b / 16);
        lemma_hex_digit(b % 16);
    }
    if bytes.len() > 0 {
        let front = bytes.drop_last();
        let last = bytes.last() as int;
        lemma_hex_string_value(front);
        lemma_hex_digit(last / 16);
        lemma_hex_digit(last % 16);
        assert(text.drop_last().drop_last() =~= hex_string(front));
        assert(text.last() == hex_digits()[last % 16]);
        assert(text.drop_last().last() == hex_digits()[last / 16]);
        assert(hex_numeral_value(text) == 16 * hex_numeral_value(text.drop_last())
            + hex_digit_value(text.last()));
        assert(hex_numeral_value(text.drop_last()) == 16 * hex_numeral_value(
            text.drop_last().drop_last(),
        ) + hex_digit_value(text.drop_last().last()));
    }
}

/// For four bytes, `be_value` is `be_u32`, and it fits in 32 bits.
pub proof fn lemma_be_value_of_four(bytes: Seq<u8>)
    requires
        bytes.len() == 4,
    ensures
        be_value(bytes) == be_u32(bytes),
        0 <= be_u32(bytes) <= u32::MAX,
{
    let b3 = bytes.drop_last();
    let b2 = b3.drop_last();
    let b1 = b2.drop_last();
    let b0 = b1.drop_last();
    assert(be_value(b0) == 0);
    assert(be_value(b1) == bytes[0] as int);
    assert(be_value(b2) == 256 * be_value(b1) + bytes[1] as int);
    assert(be_value(b3) == 256 * be_value(b2) + bytes[2] as int);
    assert(be_value(bytes) == 256 * be_value(b3) + bytes[3] as int);
}

/// Reading four bytes in little-endian order is reading their reversal in
/// big-endian order.
pub proof fn lemma_le_is_reversed_be(bytes: Seq<u8>)
    requires
        bytes.len() == 4,
    ensures
        le_u32(bytes) == be_u32(bytes.reverse()),
        0 <= le_u32(bytes) <= u32::MAX,
{
}

/// A copy of `bytes` in the opposite order.
pub fn reversed(bytes: &Vec<u8>) -> (out: Vec<u8>)
    ensures
        out@ == bytes@.reverse(),
{
    let mut out: Vec<u8> = Vec::new();
    let mut i: usize = bytes.len();
    while i > 0
        invariant
            i <= bytes.len(),
            out.len() == bytes.len() - i,
            forall|j: int| 0 <= j < out.len() ==> out[j] == bytes[bytes.len() - 1 - j],
        decreases i,
    {
        i = i - 1;
        out.push(bytes[i]);
    }
    assert(out@ =~= bytes@.reverse());
    out
}

/// The integer that four bytes hold in big-endian order, read off their
/// hexadecimal text.
pub fn read_u32_be(bytes: &Vec<u8>) -> (value: u32)
    requires
        bytes.len() == 4,
    ensures
        value == be_u32(bytes@),
{
    let text = encode_hex(bytes);
    proof {
        lemma_hex_string_value(bytes@);
        lemma_be_value_of_four(bytes@);
    }
    let parsed = u32_from_str_radix(text.as_str(), 16);
    parsed.unwrap()
}

/// The integer that four bytes hold in little-endian order, read off the
/// hexadecimal text of their reversal.
pub fn read_u32_le(bytes: &Vec<u8>) -> (value: u32)
    requires
        bytes.len() == 4,
    ensures
        value == le_u32(bytes@),
{
    let swapped = reversed(bytes);
    proof {
        lemma_le_is_reversed_be(bytes@);
    }
    read_u32_be(&swapped)
}

/// Decoding a little-endian length field and encoding the result again gives
/// the field's four bytes back.
pub proof fn lemma_le_round_trip(bytes: Seq<u8>)
    requires
        bytes.len() == 4,
    ensures
        u32_le_bytes(le_u32(bytes)) == bytes,
{
    let b0 = bytes[0] as int;
    let b1 = bytes[1] as int;
    let b2 = bytes[2] as int;
    let b3 = bytes[3] as int;
    let value = le_u32(bytes);
    lemma_fundamental_div_mod_converse(value, 0x100, b1 + b2 * 0x100 + b3 * 0x1_0000, b0);
    lemma_fundamental_div_mod_converse(value, 0x1_0000, b2 + b3 * 0x100, b0 + b1 * 0x100);
    lemma_fundamental_div_mod_converse(
        value,
        0x100_0000,
        b3,
        b0 + b1 * 0x100 + b2 * 0x1_0000,
    );
    lemma_fundamental_div_mod_converse(value / 0x100, 0x100, b2 + b3 * 0x100, b1);
    lemma_fundamental_div_mod_converse(value / 0x1_0000, 0x100, b3, b2);
    lemma_fundamental_div_mod_converse(value / 0x100_0000, 0x100, 0, b3);
    assert(u32_le_bytes(value) =~= bytes);
}

/// Encoding a 32-bit value in little-endian order and decoding the four
/// bytes gives the value back.
pub proof fn lemma_le_value_round_trip(value: int)
    requires
        0 <= value <= u32::MAX,
    ensures
        u32_le_bytes(value).len() == 4,
        le_u32(u32_le_bytes(value)) == value,
{
}

} // verus!
