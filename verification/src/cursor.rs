//! Reading little-endian integers from the front of a byte slice.

use vstd::prelude::*;
use vstd::slice::slice_subrange;

use crate::error::{DecodeError, DecodeResult};

verus! {

/// The little-endian value of the two bytes at `at`.
pub open spec fn u16_at(bytes: Seq<u8>, at: int) -> u16 {
    (bytes[at] + 0x100 * bytes[at + 1]) as u16
}

/// The little-endian value of the four bytes at `at`.
pub open spec fn u32_at(bytes: Seq<u8>, at: int) -> u32 {
    (bytes[at] + 0x100 * bytes[at + 1] + 0x1_0000 * bytes[at + 2] + 0x100_0000 * bytes[at + 3]) as u32
}

/// The two's complement reading of `value` as a signed 16-bit number.
pub open spec fn signed_16(value: u16) -> i16 {
    if value < 0x8000 {
        value as i16
    } else {
        (value - 0x1_0000) as i16
    }
}

/// The two's complement reading of `value` as a signed 8-bit number.
pub open spec fn signed_8(value: u8) -> i8 {
    if value < 0x80 {
        value as i8
    } else {
        (value - 0x100) as i8
    }
}

/// The little-endian two's complement value of the two bytes at `at`.
pub open spec fn i16_at(bytes: Seq<u8>, at: int) -> i16 {
    signed_16(u16_at(bytes, at))
}

/// The outcome of asking for `expected` bytes out of `available`.
pub open spec fn size_check(available: nat, expected: nat) -> DecodeResult<()> {
    if available < expected {
        Err(DecodeError::NotEnoughBytes { received: available as usize, expected: expected as usize })
    } else {
        Ok(())
    }
}

/// Reads a byte as a signed number.
pub fn to_signed_8(value: u8) -> (r: i8)
    ensures
        r == signed_8(value),
{
    if value < 0x80 {
        value as i8
    } else {
        (value as i16 - 0x100) as i8
    }
}

/// Reads a 16-bit word as a signed number.
pub fn to_signed_16(value: u16) -> (r: i16)
    ensures
        r == signed_16(value),
{
    if value < 0x8000 {
        value as i16
    } else {
        (value as i32 - 0x1_0000) as i16
    }
}

/// A byte slice that is consumed from its front.
#[derive(Debug, Clone, Copy)]
pub struct ReadCursor<'a> {
    bytes: &'a [u8],
}

impl<'a> View for ReadCursor<'a> {
    type V = Seq<u8>;

    /// The bytes that have not been read yet.
    closed spec fn view(&self) -> Seq<u8> {
        self.bytes@
    }
}

impl<'a> ReadCursor<'a> {
    pub fn new(bytes: &'a [u8]) -> (r: Self)
        ensures
            r@ == bytes@,
    {
        ReadCursor { bytes }
    }

    /// Number of bytes left.
    pub fn len(&self) -> (r: usize)
        ensures
            r == self@.len(),
    {
        self.bytes.len()
    }

    pub fn is_empty(&self) -> (r: bool)
        ensures
            r == (self@.len() == 0),
    {
        self.bytes.len() == 0
    }

    /// All the bytes left, without consuming them.
    pub fn remaining(&self) -> (r: &'a [u8])
        ensures
            r@ == self@,
    {
        self.bytes
    }

    /// Fails when fewer than `expected` bytes are left.
    pub fn ensure_size(&self, expected: usize) -> (r: DecodeResult<()>)
        ensures
            r == size_check(self@.len(), expected as nat),
    {
        let received: usize = self.bytes.len();
        if received < expected {
            Err(DecodeError::NotEnoughBytes { received, expected })
        } else {
            Ok(())
        }
    }

    /// Skips `count` bytes.
    pub fn advance(&mut self, count: usize)
        requires
            count <= old(self)@.len(),
        ensures
            final(self)@ == old(self)@.skip(count as int),
    {
        let len: usize = self.bytes.len();
        self.bytes = slice_subrange(self.bytes, count, len);
    }

    pub fn read_u8(&mut self) -> (r: u8)
        requires
            old(self)@.len() >= 1,
        ensures
            r == old(self)@[0],
            final(self)@ == old(self)@.skip(1),
    {
        let r: u8 = self.bytes[0];
        self.advance(1);
        r
    }

    pub fn read_u16(&mut self) -> (r: u16)
        requires
            old(self)@.len() >= 2,
        ensures
            r == u16_at(old(self)@, 0),
            final(self)@ == old(self)@.skip(2),
    {
        let r: u16 = self.bytes[0] as u16 + 0x100 * (self.bytes[1] as u16);
        self.advance(2);
        r
    }

    pub fn read_i16(&mut self) -> (r: i16)
        requires
            old(self)@.len() >= 2,
        ensures
            r == i16_at(old(self)@, 0),
            final(self)@ == old(self)@.skip(2),
    {
        to_signed_16(self.read_u16())
    }

    pub fn read_u32(&mut self) -> (r: u32)
        requires
            old(self)@.len() >= 4,
        ensures
            r == u32_at(old(self)@, 0),
            final(self)@ == old(self)@.skip(4),
    {
        let r: u32 = self.bytes[0] as u32 + 0x100 * (self.bytes[1] as u32) + 0x1_0000 * (self.bytes[2] as u32)
            + 0x100_0000 * (self.bytes[3] as u32);
        self.advance(4);
        r
    }

    /// Takes the next `count` bytes.
    pub fn read_slice(&mut self, count: usize) -> (r: &'a [u8])
        requires
            count <= old(self)@.len(),
        ensures
            r@ == old(self)@.take(count as int),
            final(self)@ == old(self)@.skip(count as int),
    {
        let r: &'a [u8] = slice_subrange(self.bytes, 0, count);
        self.advance(count);
        r
    }
}

} // verus!
