//! How numbers are written, and that reading gives them back.

use vstd::prelude::*;

use crate::cursor::{i16_at, signed_8, u16_at, u32_at};

verus! {

/// A number in one byte, in two's complement when it is negative.
pub open spec fn octet(value: int) -> Seq<u8> {
    seq![(value % 256) as u8]
}

/// A number in two bytes, low byte first, in two's complement when it is negative.
pub open spec fn word(value: int) -> Seq<u8> {
    seq![(value % 256) as u8, (value / 256 % 256) as u8]
}

/// A number in three bytes, low byte first.
pub open spec fn triple(value: int) -> Seq<u8> {
    seq![(value % 256) as u8, (value / 256 % 256) as u8, (value / 65536 % 256) as u8]
}

/// A number in four bytes, low byte first.
pub open spec fn long(value: int) -> Seq<u8> {
    seq![
        (value % 256) as u8,
        (value / 256 % 256) as u8,
        (value / 65536 % 256) as u8,
        (value / 16777216 % 256) as u8,
    ]
}

/// Whether `part` stands in `bytes` at `at`.
pub open spec fn stands_at(bytes: Seq<u8>, at: int, part: Seq<u8>) -> bool {
    &&& 0 <= at
    &&& at + part.len() <= bytes.len()
    &&& forall|i: int| 0 <= i < part.len() ==> bytes[at + i] == #[trigger] part[i]
}

/// Every 16-bit number is read back from the two bytes that it is written in.
pub proof fn law_u16_is_read_back(value: u16, bytes: Seq<u8>, at: int)
    requires
        stands_at(bytes, at, word(value as int)),
    ensures
        u16_at(bytes, at) == value,
{
    let w = word(value as int);
    assert(bytes[at + 0] == w[0] && bytes[at + 1] == w[1]);
}

/// Every signed 16-bit number is read back from the two bytes that it is written in.
pub proof fn law_i16_is_read_back(value: i16, bytes: Seq<u8>, at: int)
    requires
        stands_at(bytes, at, word(value as int)),
    ensures
        i16_at(bytes, at) == value,
{
    let w = word(value as int);
    assert(bytes[at + 0] == w[0] && bytes[at + 1] == w[1]);
}

/// Every 32-bit number is read back from the four bytes that it is written in.
pub proof fn law_u32_is_read_back(value: u32, bytes: Seq<u8>, at: int)
    requires
        stands_at(bytes, at, long(value as int)),
    ensures
        u32_at(bytes, at) == value,
{
    let w = long(value as int);
    assert(bytes[at + 0] == w[0] && bytes[at + 1] == w[1] && bytes[at + 2] == w[2] && bytes[at + 3] == w[3]);
}

/// Every signed 8-bit number is read back from the byte that it is written in.
pub proof fn law_i8_is_read_back(value: i8)
    ensures
        signed_8(octet(value as int)[0]) == value,
{
}

} // verus!
