//! Reading fixed-width fields off the front of a byte stream.
//!
//! The stream of a whole file is held in a `Vec<u8>` back to front: the next
//! byte to read is the buffer's last, so that reading with `take_bytes`
//! removes bytes from the buffer's end. What `take_bytes` returns is in file
//! order, first byte first; `take_front` reads fields off such a buffer.
use crate::error::ScanError;
use vstd::prelude::*;

verus! {

/// The bytes still to be read from `buffer`, in the order of the file.
pub open spec fn pending(buffer: Seq<u8>) -> Seq<u8> {
    buffer.reverse()
}

/// Turns the order of `bytes` around, in place: bytes in file order become a
/// buffer to read from, and the other way round.
pub fn reverse_in_place(bytes: &mut Vec<u8>)
    ensures
        final(bytes)@ == old(bytes)@.reverse(),
{
    let n: usize = bytes.len();
    let mut i: usize = 0;
    while i < n / 2
        invariant
            n == bytes.len(),
            n == old(bytes).len(),
            i <= n / 2,
            forall|j: int| 0 <= j < i ==> bytes[j] == old(bytes)[n - 1 - j],
            forall|j: int| 0 <= j < i ==> bytes[n - 1 - j] == old(bytes)[j],
            forall|j: int| i <= j < n - i ==> bytes[j] == old(bytes)[j],
        decreases n / 2 - i,
    {
        let front: u8 = bytes[i];
        let back: u8 = bytes[n - 1 - i];
        bytes.set(i, back);
        bytes.set(n - 1 - i, front);
        i = i + 1;
    }
    assert(bytes@ =~= old(bytes)@.reverse());
}

/// Removes the next `width` bytes from the stream and returns them in file
/// order, or fails and leaves the stream as it was if fewer are left.
pub fn take_bytes(raw_bytes: &mut Vec<u8>, width: u32) -> (taken: Result<Vec<u8>, ScanError>)
    ensures
        match taken {
            Ok(bytes) => {
                &&& width <= old(raw_bytes).len()
                &&& bytes@ == pending(old(raw_bytes)@).take(width as int)
                &&& pending(final(raw_bytes)@) == pending(old(raw_bytes)@).skip(width as int)
                &&& final(raw_bytes)@ == old(raw_bytes)@.take(old(raw_bytes).len() - width)
            },
            Err(e) => {
                &&& e == ScanError::InsufficientData
                &&& old(raw_bytes).len() < width
                &&& final(raw_bytes)@ == old(raw_bytes)@
            },
        },
{
    if raw_bytes.len() < width as usize {
        return Err(ScanError::InsufficientData);
    }
    let ghost start = raw_bytes@;
    let mut bytes: Vec<u8> = Vec::new();
    let mut i: u32 = 0;
    while i < width
        invariant
            i <= width <= start.len(),
            bytes.len() == i,
            raw_bytes@ == start.take(start.len() - i),
            forall|j: int| 0 <= j < i ==> bytes[j] == start[start.len() - 1 - j],
        decreases width - i,
    {
        let next = raw_bytes.pop();
        bytes.push(next.unwrap());
        i = i + 1;
    }
    assert(bytes@ =~= pending(start).take(width as int));
    assert(pending(raw_bytes@) =~= pending(start).skip(width as int));
    Ok(bytes)
}

/// Removes the first `width` bytes of `bytes`, a buffer in file order, and
/// returns them in that order, or fails and leaves the buffer as it was if
/// it holds fewer.
pub fn take_front(bytes: &mut Vec<u8>, width: u32) -> (taken: Result<Vec<u8>, ScanError>)
    ensures
        match taken {
            Ok(front) => {
                &&& width <= old(bytes).len()
                &&& front@ == old(bytes)@.take(width as int)
                &&& final(bytes)@ == old(bytes)@.skip(width as int)
            },
            Err(e) => {
                &&& e == ScanError::InsufficientData
                &&& old(bytes).len() < width
                &&& final(bytes)@ == old(bytes)@
            },
        },
{
    if bytes.len() < width as usize {
        return Err(ScanError::InsufficientData);
    }
    let mut front = bytes.split_off(width as usize);
    core::mem::swap(bytes, &mut front);
    Ok(front)
}

} // verus!
