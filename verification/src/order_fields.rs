//! The optional fields of a delta encoded order.
//!
//! A field is present when its flag is set; the present fields follow each other without gaps.

use vstd::prelude::*;

use crate::cursor::{i16_at, signed_8, to_signed_8, u16_at, ReadCursor};
use crate::error::{DecodeError, DecodeResult};

verus! {

/// How far a run of optional fields has been read.
#[verifier::ext_equal]
pub struct Fields {
    /// The bytes behind the fields that were read.
    pub rest: Seq<u8>,
    /// Size of the first present field that did not fit.
    pub missing: Option<nat>,
}

/// A colour written as blue, green, red, as one number with red in its third byte.
pub open spec fn bgr_at(bytes: Seq<u8>, at: int) -> u32 {
    (bytes[at] + 0x100 * bytes[at + 1] + 0x1_0000 * bytes[at + 2]) as u32
}

impl Fields {
    pub open spec fn start(bytes: Seq<u8>) -> Fields {
        Fields { rest: bytes, missing: None }
    }

    /// Whether a field of `size` bytes is read here.
    pub open spec fn reads(self, present: bool, size: nat) -> bool {
        self.missing is None && present && size <= self.rest.len()
    }

    /// Past a field of `size` bytes. Nothing is read once a field did not fit.
    #[verifier::opaque]
    pub open spec fn after(self, present: bool, size: nat) -> Fields {
        if self.reads(present, size) {
            Fields { rest: self.rest.skip(size as int), missing: None }
        } else if self.missing is None && present {
            Fields { rest: self.rest, missing: Some(size) }
        } else {
            self
        }
    }

    #[verifier::opaque]
    pub open spec fn u8_or(self, present: bool, old: u8) -> u8 {
        if self.reads(present, 1) {
            self.rest[0]
        } else {
            old
        }
    }

    #[verifier::opaque]
    pub open spec fn i8_or(self, present: bool, old: i8) -> i8 {
        if self.reads(present, 1) {
            signed_8(self.rest[0])
        } else {
            old
        }
    }

    #[verifier::opaque]
    pub open spec fn u16_or(self, present: bool, old: u16) -> u16 {
        if self.reads(present, 2) {
            u16_at(self.rest, 0)
        } else {
            old
        }
    }

    #[verifier::opaque]
    pub open spec fn i16_or(self, present: bool, old: i16) -> i16 {
        if self.reads(present, 2) {
            i16_at(self.rest, 0)
        } else {
            old
        }
    }

    #[verifier::opaque]
    pub open spec fn color_or(self, present: bool, old: u32) -> u32 {
        if self.reads(present, 3) {
            bgr_at(self.rest, 0)
        } else {
            old
        }
    }

    /// Replaces the red byte of `old`.
    #[verifier::opaque]
    pub open spec fn red_or(self, present: bool, old: u32) -> u32 {
        if self.reads(present, 1) {
            (old as int % 0x1_0000 + 0x1_0000 * self.rest[0]) as u32
        } else {
            old
        }
    }

    /// Replaces the green byte of `old`.
    #[verifier::opaque]
    pub open spec fn green_or(self, present: bool, old: u32) -> u32 {
        if self.reads(present, 1) {
            (old as int / 0x1_0000 % 0x100 * 0x1_0000 + 0x100 * self.rest[0] + old as int % 0x100) as u32
        } else {
            old
        }
    }

    /// Replaces the blue byte of `old`.
    #[verifier::opaque]
    pub open spec fn blue_or(self, present: bool, old: u32) -> u32 {
        if self.reads(present, 1) {
            (old as int / 0x100 % 0x1_0000 * 0x100 + self.rest[0]) as u32
        } else {
            old
        }
    }

    #[verifier::opaque]
    pub open spec fn bytes_or(self, present: bool, size: nat, old: Seq<u8>) -> Seq<u8> {
        if self.reads(present, size) {
            self.rest.take(size as int)
        } else {
            old
        }
    }

    /// Moves `old` by a signed byte.
    #[verifier::opaque]
    pub open spec fn moved_or(self, present: bool, old: i16) -> i16 {
        if self.reads(present, 1) {
            old.wrapping_add(signed_8(self.rest[0]) as i16)
        } else {
            old
        }
    }

    /// A signed number in two bytes when `wide`, in one byte otherwise.
    pub open spec fn delta(self, wide: bool) -> i16 {
        if wide {
            i16_at(self.rest, 0)
        } else {
            signed_8(self.rest[0]) as i16
        }
    }

    pub open spec fn after_delta(self, wide: bool) -> Fields {
        self.after(true, if wide { 2 } else { 1 })
    }

    /// Fails with the first field that did not fit.
    pub open spec fn result(self) -> DecodeResult<()> {
        match self.missing {
            Some(size) => Err(
                DecodeError::NotEnoughBytes { received: self.rest.len() as usize, expected: size as usize },
            ),
            None => Ok(()),
        }
    }
}

/// Once a field did not fit, nothing more is read and every value stays.
pub proof fn lemma_missing_stops()
    ensures
        forall|f: Fields, p: bool, n: nat| f.missing is Some ==> #[trigger] f.after(p, n) == f,
        forall|f: Fields, p: bool, v: u8| f.missing is Some ==> #[trigger] f.u8_or(p, v) == v,
        forall|f: Fields, p: bool, v: i8| f.missing is Some ==> #[trigger] f.i8_or(p, v) == v,
        forall|f: Fields, p: bool, v: u16| f.missing is Some ==> #[trigger] f.u16_or(p, v) == v,
        forall|f: Fields, p: bool, v: i16| f.missing is Some ==> #[trigger] f.i16_or(p, v) == v,
        forall|f: Fields, p: bool, v: i16| f.missing is Some ==> #[trigger] f.moved_or(p, v) == v,
        forall|f: Fields, p: bool, v: u32| f.missing is Some ==> #[trigger] f.color_or(p, v) == v,
        forall|f: Fields, p: bool, v: u32| f.missing is Some ==> #[trigger] f.red_or(p, v) == v,
        forall|f: Fields, p: bool, v: u32| f.missing is Some ==> #[trigger] f.green_or(p, v) == v,
        forall|f: Fields, p: bool, v: u32| f.missing is Some ==> #[trigger] f.blue_or(p, v) == v,
        forall|f: Fields, p: bool, n: nat, v: Seq<u8>|
            f.missing is Some ==> #[trigger] f.bytes_or(p, n, v) == v,
{
    reveal(Fields::after);
    reveal(Fields::u8_or);
    reveal(Fields::i8_or);
    reveal(Fields::u16_or);
    reveal(Fields::i16_or);
    reveal(Fields::color_or);
    reveal(Fields::red_or);
    reveal(Fields::green_or);
    reveal(Fields::blue_or);
    reveal(Fields::bytes_or);
    reveal(Fields::moved_or);
}

pub fn read_u8_field(cursor: &mut ReadCursor<'_>, present: bool, field: &mut u8) -> (r: DecodeResult<()>)
    ensures
        *final(field) == Fields::start(old(cursor)@).u8_or(present, *old(field)),
        final(cursor)@ == Fields::start(old(cursor)@).after(present, 1).rest,
        r == Fields::start(old(cursor)@).after(present, 1).result(),
{
    proof {
        reveal(Fields::after);
        reveal(Fields::u8_or);
    }
    if present {
        cursor.ensure_size(1)?;
        *field = cursor.read_u8();
    }
    Ok(())
}

pub fn read_i8_field(cursor: &mut ReadCursor<'_>, present: bool, field: &mut i8) -> (r: DecodeResult<()>)
    ensures
        *final(field) == Fields::start(old(cursor)@).i8_or(present, *old(field)),
        final(cursor)@ == Fields::start(old(cursor)@).after(present, 1).rest,
        r == Fields::start(old(cursor)@).after(present, 1).result(),
{
    proof {
        reveal(Fields::after);
        reveal(Fields::i8_or);
    }
    if present {
        cursor.ensure_size(1)?;
        *field = to_signed_8(cursor.read_u8());
    }
    Ok(())
}

pub fn read_u16_field(cursor: &mut ReadCursor<'_>, present: bool, field: &mut u16) -> (r: DecodeResult<()>)
    ensures
        *final(field) == Fields::start(old(cursor)@).u16_or(present, *old(field)),
        final(cursor)@ == Fields::start(old(cursor)@).after(present, 2).rest,
        r == Fields::start(old(cursor)@).after(present, 2).result(),
{
    proof {
        reveal(Fields::after);
        reveal(Fields::u16_or);
    }
    if present {
        cursor.ensure_size(2)?;
        *field = cursor.read_u16();
    }
    Ok(())
}

pub fn read_i16_field(cursor: &mut ReadCursor<'_>, present: bool, field: &mut i16) -> (r: DecodeResult<()>)
    ensures
        *final(field) == Fields::start(old(cursor)@).i16_or(present, *old(field)),
        final(cursor)@ == Fields::start(old(cursor)@).after(present, 2).rest,
        r == Fields::start(old(cursor)@).after(present, 2).result(),
{
    proof {
        reveal(Fields::after);
        reveal(Fields::i16_or);
    }
    if present {
        cursor.ensure_size(2)?;
        *field = cursor.read_i16();
    }
    Ok(())
}

/// Moves a coordinate by a signed byte.
pub fn read_move_field(cursor: &mut ReadCursor<'_>, present: bool, field: &mut i16) -> (r: DecodeResult<()>)
    ensures
        *final(field) == Fields::start(old(cursor)@).moved_or(present, *old(field)),
        final(cursor)@ == Fields::start(old(cursor)@).after(present, 1).rest,
        r == Fields::start(old(cursor)@).after(present, 1).result(),
{
    proof {
        reveal(Fields::after);
        reveal(Fields::moved_or);
    }
    if present {
        cursor.ensure_size(1)?;
        let delta: i8 = to_signed_8(cursor.read_u8());
        *field = (*field).wrapping_add(delta as i16);
    }
    Ok(())
}

/// Reads a colour written as blue, green, red.
pub fn read_color_field(cursor: &mut ReadCursor<'_>, present: bool, field: &mut u32) -> (r: DecodeResult<()>)
    ensures
        *final(field) == Fields::start(old(cursor)@).color_or(present, *old(field)),
        final(cursor)@ == Fields::start(old(cursor)@).after(present, 3).rest,
        r == Fields::start(old(cursor)@).after(present, 3).result(),
{
    proof {
        reveal(Fields::after);
        reveal(Fields::color_or);
    }
    if present {
        cursor.ensure_size(3)?;
        let bytes: &[u8] = cursor.read_slice(3);
        *field = bytes[0] as u32 + 0x100 * (bytes[1] as u32) + 0x1_0000 * (bytes[2] as u32);
    }
    Ok(())
}

pub fn read_red_field(cursor: &mut ReadCursor<'_>, present: bool, color: &mut u32) -> (r: DecodeResult<()>)
    ensures
        *final(color) == Fields::start(old(cursor)@).red_or(present, *old(color)),
        final(cursor)@ == Fields::start(old(cursor)@).after(present, 1).rest,
        r == Fields::start(old(cursor)@).after(present, 1).result(),
{
    proof {
        reveal(Fields::after);
        reveal(Fields::red_or);
    }
    if present {
        cursor.ensure_size(1)?;
        *color = *color % 0x1_0000 + 0x1_0000 * (cursor.read_u8() as u32);
    }
    Ok(())
}

pub fn read_green_field(cursor: &mut ReadCursor<'_>, present: bool, color: &mut u32) -> (r: DecodeResult<()>)
    ensures
        *final(color) == Fields::start(old(cursor)@).green_or(present, *old(color)),
        final(cursor)@ == Fields::start(old(cursor)@).after(present, 1).rest,
        r == Fields::start(old(cursor)@).after(present, 1).result(),
{
    proof {
        reveal(Fields::after);
        reveal(Fields::green_or);
    }
    if present {
        cursor.ensure_size(1)?;
        *color = *color / 0x1_0000 % 0x100 * 0x1_0000 + 0x100 * (cursor.read_u8() as u32) + *color % 0x100;
    }
    Ok(())
}

pub fn read_blue_field(cursor: &mut ReadCursor<'_>, present: bool, color: &mut u32) -> (r: DecodeResult<()>)
    ensures
        *final(color) == Fields::start(old(cursor)@).blue_or(present, *old(color)),
        final(cursor)@ == Fields::start(old(cursor)@).after(present, 1).rest,
        r == Fields::start(old(cursor)@).after(present, 1).result(),
{
    proof {
        reveal(Fields::after);
        reveal(Fields::blue_or);
    }
    if present {
        cursor.ensure_size(1)?;
        *color = *color / 0x100 % 0x1_0000 * 0x100 + cursor.read_u8() as u32;
    }
    Ok(())
}

pub fn read_extra_field(cursor: &mut ReadCursor<'_>, present: bool, field: &mut [u8; 7]) -> (r: DecodeResult<()>)
    ensures
        final(field)@ == Fields::start(old(cursor)@).bytes_or(present, 7, old(field)@),
        final(cursor)@ == Fields::start(old(cursor)@).after(present, 7).rest,
        r == Fields::start(old(cursor)@).after(present, 7).result(),
{
    proof {
        reveal(Fields::after);
        reveal(Fields::bytes_or);
    }
    if present {
        cursor.ensure_size(7)?;
        let bytes: &[u8] = cursor.read_slice(7);
        *field = [bytes[0], bytes[1], bytes[2], bytes[3], bytes[4], bytes[5], bytes[6]];
    }
    Ok(())
}

/// Reads a signed number from two bytes when `wide`, from one byte otherwise.
pub fn read_delta(cursor: &mut ReadCursor<'_>, wide: bool) -> (r: DecodeResult<i16>)
    ensures
        final(cursor)@ == Fields::start(old(cursor)@).after_delta(wide).rest,
        match r {
            Ok(value) => {
                &&& Fields::start(old(cursor)@).after_delta(wide).missing is None
                &&& value == Fields::start(old(cursor)@).delta(wide)
            },
            Err(e) => Fields::start(old(cursor)@).after_delta(wide).result() == Err::<(), DecodeError>(e),
        },
{
    proof {
        reveal(Fields::after);
    }
    if wide {
        cursor.ensure_size(2)?;
        Ok(cursor.read_i16())
    } else {
        cursor.ensure_size(1)?;
        Ok(to_signed_8(cursor.read_u8()) as i16)
    }
}

} // verus!
