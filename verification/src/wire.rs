//! Four-byte signed integers as they lie in a catalog container.

use vstd::endian::{endianness, Endian};
use vstd::prelude::*;

verus! {

/// The unsigned number that four bytes spell in the given byte order.
pub open spec fn word_from_bytes(bytes: Seq<u8>, order: Endian) -> int {
    match order {
        Endian::Little => bytes[0] + 0x100 * bytes[1] + 0x1_0000 * bytes[2] + 0x100_0000
            * bytes[3],
        Endian::Big => bytes[3] + 0x100 * bytes[2] + 0x1_0000 * bytes[1] + 0x100_0000 * bytes[0],
    }
}

/// The two's-complement reading of a 32-bit word.
pub open spec fn signed_word(word: int) -> int {
    if word >= 0x8000_0000 {
        word - 0x1_0000_0000
    } else {
        word
    }
}

/// The signed number that four bytes spell in the given byte order.
pub open spec fn i32_from_bytes(bytes: Seq<u8>, order: Endian) -> int {
    signed_word(word_from_bytes(bytes, order))
}

/// The 32-bit word whose two's-complement reading is `value`.
pub open spec fn unsigned_word(value: int) -> int {
    if value < 0 {
        value + 0x1_0000_0000
    } else {
        value
    }
}

/// The four bytes that spell `value` in the given byte order.
pub open spec fn i32_to_bytes(value: int, order: Endian) -> Seq<u8> {
    let word = unsigned_word(value);
    let b0 = (word % 0x100) as u8;
    let b1 = ((word / 0x100) % 0x100) as u8;
    let b2 = ((word / 0x100 / 0x100) % 0x100) as u8;
    let b3 = ((word / 0x100 / 0x100 / 0x100) % 0x100) as u8;
    match order {
        Endian::Little => seq![b0, b1, b2, b3],
        Endian::Big => seq![b3, b2, b1, b0],
    }
}

/// Whether `value` can be stored in a 32-bit signed field.
pub open spec fn fits_i32(value: int) -> bool {
    -0x8000_0000 <= value < 0x8000_0000
}

/// Reading back the bytes written for a value gives that value, in either
/// byte order.
pub proof fn lemma_i32_bytes_round_trip(value: int, order: Endian)
    requires
        fits_i32(value),
    ensures
        i32_to_bytes(value, order).len() == 4,
        i32_from_bytes(i32_to_bytes(value, order), order) == value,
{
    let word = unsigned_word(value);
    let q1 = word / 0x100;
    let q2 = q1 / 0x100;
    let q3 = q2 / 0x100;
    assert(word == 0x100 * q1 + word % 0x100);
    assert(q1 == 0x100 * q2 + q1 % 0x100);
    assert(q2 == 0x100 * q3 + q2 % 0x100);
    assert(0 <= q3 < 0x100);
    assert(q3 % 0x100 == q3);
    let bytes = i32_to_bytes(value, order);
    assert(word_from_bytes(bytes, order) == word);
}

/// `i32::from_ne_bytes`: the value whose memory representation on this
/// machine is the four bytes, that is, their two's-complement reading in the
/// machine's byte order.
#[verifier::external_body]
fn i32_from_native_bytes(bytes: [u8; 4]) -> (value: i32)
    ensures
        value as int == i32_from_bytes(bytes@, endianness()),
{
    i32::from_ne_bytes(bytes)
}

/// Reads the signed integer stored in the four bytes at `offset`, in the
/// machine's byte order.
pub fn read_i32(buffer: &[u8], offset: usize) -> (value: i32)
    requires
        offset + 4 <= buffer@.len(),
    ensures
        value as int == i32_from_bytes(
            buffer@.subrange(offset as int, offset + 4),
            endianness(),
        ),
{
    let bytes: [u8; 4] = [
        buffer[offset],
        buffer[offset + 1],
        buffer[offset + 2],
        buffer[offset + 3],
    ];
    assert(bytes@ =~= buffer@.subrange(offset as int, offset + 4));
    i32_from_native_bytes(bytes)
}

} // verus!
