//! Packets and updates on the fast path.

use vstd::prelude::*;

use crate::bitmap::{invalid, missing, Decoded};
use crate::cursor::{u16_at, ReadCursor};
use crate::error::{DecodeError, DecodeResult, EncodeError, EncodeResult};

verus! {

/// How a packet is protected.
#[derive(Debug, Clone, Copy, PartialEq, Eq, Structural)]
pub struct EncryptionFlags(pub u8);

impl EncryptionFlags {
    pub const SECURE_CHECKSUM: u8 = 0x01;

    pub const ENCRYPTED: u8 = 0x02;

    /// There are two flags.
    pub open spec fn wf(self) -> bool {
        self.0 < 4
    }
}

/// The header of a packet.
#[derive(Debug, Clone, Copy, PartialEq, Eq, Structural)]
pub struct FastPathHeader {
    pub flags: EncryptionFlags,
    pub data_length: usize,
    /// The length takes two bytes though it would fit into one.
    pub forced_long_length: bool,
}

/// A length in one byte, or in two with the highest bit set.
pub open spec fn length_bytes(length: int, long: bool) -> Seq<u8> {
    if long {
        seq![(length / 0x100 % 0x80 + 0x80) as u8, (length % 0x100) as u8]
    } else {
        seq![length as u8]
    }
}

impl FastPathHeader {
    /// Bytes of the header.
    pub open spec fn byte_count(self) -> int {
        if self.forced_long_length || self.data_length + 2 > 0x7F {
            3
        } else {
            2
        }
    }

    /// Whether the length of the packet fits into its field.
    pub open spec fn encodable(self) -> bool {
        self.data_length + self.byte_count() <= 0xFFFF
    }

    /// The header in bytes: the flags in the two highest bits, then the length of the packet.
    pub open spec fn encoded(self) -> Seq<u8> {
        seq![(self.flags.0 * 0x40) as u8] + length_bytes(
            self.data_length + self.byte_count(),
            self.byte_count() == 3,
        )
    }

    pub fn size(&self) -> (r: usize)
        requires
            self.data_length + 3 <= usize::MAX,
        ensures
            r == self.byte_count(),
    {
        if self.forced_long_length || self.data_length + 2 > 0x7F {
            3
        } else {
            2
        }
    }

    /// Appends the header.
    pub fn encode(&self, dst: &mut Vec<u8>) -> (r: EncodeResult<()>)
        requires
            self.flags.wf(),
            self.data_length + 3 <= usize::MAX,
        ensures
            self.encodable() ==> r is Ok && final(dst)@ == old(dst)@ + self.encoded(),
            !self.encodable() ==> r == Err::<(), EncodeError>(EncodeError::LengthTooLarge) && final(dst)@
                == old(dst)@,
    {
        let length: usize = self.data_length + self.size();
        if length > 0xFFFF {
            return Err(EncodeError::LengthTooLarge);
        }
        dst.push(self.flags.0 * 0x40);
        if self.size() == 3 {
            dst.push((length / 0x100 % 0x80 + 0x80) as u8);
            dst.push((length % 0x100) as u8);
        } else {
            dst.push(length as u8);
        }
        assert(dst@ =~= old(dst)@ + self.encoded());
        Ok(())
    }

    pub fn decode(src: &mut ReadCursor<'_>) -> (r: DecodeResult<Self>)
        ensures
            r == header_at(old(src)@).result,
            final(src)@ == header_at(old(src)@).rest,
    {
        let ghost bytes = src@;
        src.ensure_size(1)?;
        let flags: EncryptionFlags = EncryptionFlags(src.read_u8() / 0x40);
        src.ensure_size(1)?;
        let first: u8 = src.read_u8();
        let mut length: usize = first as usize;
        let mut size: usize = 2;
        assert(src@ =~= bytes.skip(2));
        if first >= 0x80 {
            src.ensure_size(1)?;
            length = (first as usize - 0x80) * 0x100 + src.read_u8() as usize;
            size = 3;
            assert(src@ =~= bytes.skip(3));
        }
        if length < size {
            return Err(
                DecodeError::InvalidField { field: "length", reason: "received fastpath PDU with invalid length" },
            );
        }
        Ok(
            FastPathHeader {
                flags,
                data_length: length - size,
                forced_long_length: size == 3 && length <= 0x7F,
            },
        )
    }
}

/// The header that some bytes start with.
pub open spec fn header_at(bytes: Seq<u8>) -> Decoded<FastPathHeader> {
    if bytes.len() < 1 {
        missing(bytes, 1)
    } else if bytes.len() < 2 {
        missing(bytes.skip(1), 1)
    } else if bytes[1] >= 0x80 && bytes.len() < 3 {
        missing(bytes.skip(2), 1)
    } else {
        let long = bytes[1] >= 0x80;
        let size: int = if long {
            3
        } else {
            2
        };
        let length = if long {
            (bytes[1] - 0x80) * 0x100 + bytes[2]
        } else {
            bytes[1] as int
        };
        if length < size {
            invalid("length", "received fastpath PDU with invalid length", bytes.skip(size))
        } else {
            Decoded {
                result: Ok(
                    FastPathHeader {
                        flags: EncryptionFlags(bytes[0] / 0x40),
                        data_length: (length - size) as usize,
                        forced_long_length: long && length <= 0x7F,
                    },
                ),
                rest: bytes.skip(size),
            }
        }
    }
}

/// A header is read back as it was written. (The highest bit of a length says that the length takes
/// two bytes, so longer packets are left out. So is the mark of a length in two bytes where the
/// length needs them anyway.)
pub proof fn law_header_round_trip(header: FastPathHeader, rest: Seq<u8>)
    requires
        header.flags.wf(),
        header.data_length + header.byte_count() < 0x8000,
        header.forced_long_length ==> header.data_length + 3 <= 0x7F,
    ensures
        header_at(header.encoded() + rest) == (Decoded { result: Ok(header), rest }),
        header.encoded().len() == header.byte_count(),
{
    let bytes = header.encoded() + rest;
    assert(bytes.skip(header.byte_count()) =~= rest);
    let length = header.data_length + header.byte_count();
    assert(bytes[0] == header.flags.0 * 0x40);
    assert(header.flags.0 * 0x40 / 0x40 == header.flags.0);
}

/// Which part of an update a packet carries.
#[derive(Debug, Clone, Copy, PartialEq, Eq, Structural)]
pub enum Fragmentation {
    Single,
    Last,
    First,
    Next,
}

/// The kind of an update.
#[derive(Debug, Clone, Copy, PartialEq, Eq, Structural)]
pub enum UpdateCode {
    Orders,
    Bitmap,
    Palette,
    Synchronize,
    SurfaceCommands,
    HiddenPointer,
    DefaultPointer,
    PositionPointer,
    ColorPointer,
    CachedPointer,
    NewPointer,
    LargePointer,
}

/// How the data of an update are compressed.
#[derive(Debug, Clone, Copy, PartialEq, Eq, Structural)]
pub enum CompressionType {
    K8,
    K64,
    Rdp6,
    Rdp61,
}

/// What compression did with the data of an update.
#[derive(Debug, Clone, Copy, PartialEq, Eq, Structural)]
pub struct CompressionFlags(pub u8);

impl CompressionFlags {
    pub const COMPRESSED: u8 = 0x20;

    pub const AT_FRONT: u8 = 0x40;

    pub const FLUSHED: u8 = 0x80;

    /// Only the three highest bits have a meaning.
    pub open spec fn wf(self) -> bool {
        self.0 % 0x20 == 0
    }

    pub open spec fn has(self, mask: u8) -> bool {
        self.0 & mask == mask
    }

    pub fn contains(self, mask: u8) -> (r: bool)
        ensures
            r == self.has(mask),
    {
        self.0 & mask == mask
    }
}

impl Fragmentation {
    pub open spec fn code(self) -> u8 {
        match self {
            Fragmentation::Single => 0,
            Fragmentation::Last => 1,
            Fragmentation::First => 2,
            Fragmentation::Next => 3,
        }
    }

    pub fn as_u8(self) -> (r: u8)
        ensures
            r == self.code(),
    {
        match self {
            Fragmentation::Single => 0,
            Fragmentation::Last => 1,
            Fragmentation::First => 2,
            Fragmentation::Next => 3,
        }
    }

    pub fn from_u8(value: u8) -> (r: Option<Self>)
        ensures
            r == fragmentation_of(value),
    {
        match value {
            0 => Some(Fragmentation::Single),
            1 => Some(Fragmentation::Last),
            2 => Some(Fragmentation::First),
            3 => Some(Fragmentation::Next),
            _ => None,
        }
    }
}

impl UpdateCode {
    pub open spec fn code(self) -> u8 {
        match self {
            UpdateCode::Orders => 0x0,
            UpdateCode::Bitmap => 0x1,
            UpdateCode::Palette => 0x2,
            UpdateCode::Synchronize => 0x3,
            UpdateCode::SurfaceCommands => 0x4,
            UpdateCode::HiddenPointer => 0x5,
            UpdateCode::DefaultPointer => 0x6,
            UpdateCode::PositionPointer => 0x8,
            UpdateCode::ColorPointer => 0x9,
            UpdateCode::CachedPointer => 0xA,
            UpdateCode::NewPointer => 0xB,
            UpdateCode::LargePointer => 0xC,
        }
    }

    pub fn as_u8(self) -> (r: u8)
        ensures
            r == self.code(),
    {
        match self {
            UpdateCode::Orders => 0x0,
            UpdateCode::Bitmap => 0x1,
            UpdateCode::Palette => 0x2,
            UpdateCode::Synchronize => 0x3,
            UpdateCode::SurfaceCommands => 0x4,
            UpdateCode::HiddenPointer => 0x5,
            UpdateCode::DefaultPointer => 0x6,
            UpdateCode::PositionPointer => 0x8,
            UpdateCode::ColorPointer => 0x9,
            UpdateCode::CachedPointer => 0xA,
            UpdateCode::NewPointer => 0xB,
            UpdateCode::LargePointer => 0xC,
        }
    }

    pub fn from_u8(value: u8) -> (r: Option<Self>)
        ensures
            r == update_code_of(value),
    {
        match value {
            0x0 => Some(UpdateCode::Orders),
            0x1 => Some(UpdateCode::Bitmap),
            0x2 => Some(UpdateCode::Palette),
            0x3 => Some(UpdateCode::Synchronize),
            0x4 => Some(UpdateCode::SurfaceCommands),
            0x5 => Some(UpdateCode::HiddenPointer),
            0x6 => Some(UpdateCode::DefaultPointer),
            0x8 => Some(UpdateCode::PositionPointer),
            0x9 => Some(UpdateCode::ColorPointer),
            0xA => Some(UpdateCode::CachedPointer),
            0xB => Some(UpdateCode::NewPointer),
            0xC => Some(UpdateCode::LargePointer),
            _ => None,
        }
    }
}

impl CompressionType {
    pub open spec fn code(self) -> u8 {
        match self {
            CompressionType::K8 => 0,
            CompressionType::K64 => 1,
            CompressionType::Rdp6 => 2,
            CompressionType::Rdp61 => 3,
        }
    }

    pub fn as_u8(self) -> (r: u8)
        ensures
            r == self.code(),
            r < 4,
    {
        match self {
            CompressionType::K8 => 0,
            CompressionType::K64 => 1,
            CompressionType::Rdp6 => 2,
            CompressionType::Rdp61 => 3,
        }
    }

    pub fn from_u8(value: u8) -> (r: Option<Self>)
        ensures
            r == compression_type_of(value),
    {
        match value {
            0 => Some(CompressionType::K8),
            1 => Some(CompressionType::K64),
            2 => Some(CompressionType::Rdp6),
            3 => Some(CompressionType::Rdp61),
            _ => None,
        }
    }
}

/// The part of an update that a number stands for.
pub open spec fn fragmentation_of(value: u8) -> Option<Fragmentation> {
    match value {
        0 => Some(Fragmentation::Single),
        1 => Some(Fragmentation::Last),
        2 => Some(Fragmentation::First),
        3 => Some(Fragmentation::Next),
        _ => None,
    }
}

/// The kind of update that a number stands for.
pub open spec fn update_code_of(value: u8) -> Option<UpdateCode> {
    match value {
        0x0 => Some(UpdateCode::Orders),
        0x1 => Some(UpdateCode::Bitmap),
        0x2 => Some(UpdateCode::Palette),
        0x3 => Some(UpdateCode::Synchronize),
        0x4 => Some(UpdateCode::SurfaceCommands),
        0x5 => Some(UpdateCode::HiddenPointer),
        0x6 => Some(UpdateCode::DefaultPointer),
        0x8 => Some(UpdateCode::PositionPointer),
        0x9 => Some(UpdateCode::ColorPointer),
        0xA => Some(UpdateCode::CachedPointer),
        0xB => Some(UpdateCode::NewPointer),
        0xC => Some(UpdateCode::LargePointer),
        _ => None,
    }
}

/// The compression that a number stands for.
pub open spec fn compression_type_of(value: u8) -> Option<CompressionType> {
    match value {
        0 => Some(CompressionType::K8),
        1 => Some(CompressionType::K64),
        2 => Some(CompressionType::Rdp6),
        3 => Some(CompressionType::Rdp61),
        _ => None,
    }
}

/// A part of an update on its way: which part of which update, how its data are compressed, and the
/// data.
#[derive(Debug, Clone, Copy, PartialEq, Eq)]
pub struct FastPathUpdatePdu<'a> {
    pub fragmentation: Fragmentation,
    pub update_code: UpdateCode,
    pub compression_flags: Option<CompressionFlags>,
    pub compression_type: Option<CompressionType>,
    pub data: &'a [u8],
}

#[verifier::ext_equal]
pub struct UpdatePduView {
    pub fragmentation: Fragmentation,
    pub update_code: UpdateCode,
    pub compression_flags: Option<CompressionFlags>,
    pub compression_type: Option<CompressionType>,
    pub data: Seq<u8>,
}

impl<'a> View for FastPathUpdatePdu<'a> {
    type V = UpdatePduView;

    open spec fn view(&self) -> UpdatePduView {
        UpdatePduView {
            fragmentation: self.fragmentation,
            update_code: self.update_code,
            compression_flags: self.compression_flags,
            compression_type: self.compression_type,
            data: self.data@,
        }
    }
}

impl UpdatePduView {
    /// The type of compression comes with the flags, and the flags are flags.
    pub open spec fn wf(self) -> bool {
        &&& self.compression_flags is Some == self.compression_type is Some
        &&& self.compression_flags matches Some(flags) ==> flags.wf()
    }

    /// The update in bytes: kind, part and whether there are compression flags in one byte; flags and
    /// type of compression in another; length; data.
    pub open spec fn encoded(self) -> Seq<u8> {
        let compressed = self.compression_flags is Some;
        let header = self.update_code.code() + 0x10 * self.fragmentation.code() + (if compressed {
            0x80int
        } else {
            0int
        });
        let compression = match (self.compression_flags, self.compression_type) {
            (Some(flags), Some(t)) => seq![(flags.0 + t.code()) as u8],
            _ => Seq::empty(),
        };
        let length = self.data.len() as int;
        seq![header as u8] + compression + seq![(length % 0x100) as u8, (length / 0x100) as u8] + self.data
    }
}

/// The update behind its first byte, with the given compression.
pub open spec fn pdu_data_at(
    bytes: Seq<u8>,
    fragmentation: Fragmentation,
    update_code: UpdateCode,
    compression_flags: Option<CompressionFlags>,
    compression_type: Option<CompressionType>,
) -> Decoded<UpdatePduView> {
    let length = u16_at(bytes, 0) as int;
    let rest = bytes.skip(2);
    if rest.len() < length {
        missing(rest, length as nat)
    } else {
        Decoded {
            result: Ok(
                UpdatePduView {
                    fragmentation,
                    update_code,
                    compression_flags,
                    compression_type,
                    data: rest.take(length),
                },
            ),
            rest: rest.skip(length),
        }
    }
}

/// The update that some bytes start with.
pub open spec fn pdu_at(bytes: Seq<u8>) -> Decoded<UpdatePduView> {
    if bytes.len() < 1 {
        missing(bytes, 1)
    } else {
        let rest = bytes.skip(1);
        match (update_code_of(bytes[0] % 0x10), fragmentation_of(bytes[0] / 0x10 % 4)) {
            (None, _) => invalid("updateHeader", "invalid update code", rest),
            (_, None) => invalid("updateHeader", "invalid fragmentation", rest),
            (Some(code), Some(fragmentation)) => if bytes[0] >= 0x80 {
                if rest.len() < 3 {
                    missing(rest, 3)
                } else {
                    match compression_type_of(rest[0] % 0x10) {
                        None => invalid("compressionFlags", "invalid compression type", rest.skip(1)),
                        Some(t) => pdu_data_at(
                            rest.skip(1),
                            fragmentation,
                            code,
                            Some(CompressionFlags((rest[0] / 0x20 * 0x20) as u8)),
                            Some(t),
                        ),
                    }
                }
            } else if rest.len() < 2 {
                missing(rest, 2)
            } else {
                pdu_data_at(rest, fragmentation, code, None, None)
            },
        }
    }
}

impl<'a> FastPathUpdatePdu<'a> {
    pub fn size(&self) -> (r: usize)
        requires
            self.data@.len() + 4 <= usize::MAX,
            self@.wf(),
        ensures
            r == self@.encoded().len(),
    {
        let compression: usize = if self.compression_flags.is_some() {
            1
        } else {
            0
        };
        1 + compression + 2 + self.data.len()
    }

    /// Appends the update.
    pub fn encode(&self, dst: &mut Vec<u8>) -> (r: EncodeResult<()>)
        requires
            self@.wf(),
        ensures
            self.data@.len() <= 0xFFFF ==> r is Ok && final(dst)@ == old(dst)@ + self@.encoded(),
            self.data@.len() > 0xFFFF ==> r == Err::<(), EncodeError>(EncodeError::LengthTooLarge)
                && final(dst)@ == old(dst)@,
    {
        let length: usize = self.data.len();
        if length > 0xFFFF {
            return Err(EncodeError::LengthTooLarge);
        }
        let compressed: u8 = if self.compression_flags.is_some() {
            0x80
        } else {
            0
        };
        dst.push(self.update_code.as_u8() + 0x10 * self.fragmentation.as_u8() + compressed);
        match (self.compression_flags, self.compression_type) {
            (Some(flags), Some(t)) => {
                dst.push(flags.0 + t.as_u8());
            },
            _ => {},
        }
        dst.push((length % 0x100) as u8);
        dst.push((length / 0x100) as u8);
        dst.extend_from_slice(self.data);
        assert(dst@ =~= old(dst)@ + self@.encoded());
        Ok(())
    }

    pub fn decode(src: &mut ReadCursor<'a>) -> (r: DecodeResult<Self>)
        ensures
            match r {
                Ok(pdu) => pdu_at(old(src)@).result == Ok::<UpdatePduView, DecodeError>(pdu@),
                Err(e) => pdu_at(old(src)@).result == Err::<UpdatePduView, DecodeError>(e),
            },
            final(src)@ == pdu_at(old(src)@).rest,
            r matches Ok(pdu) ==> pdu@.wf() && final(src)@.len() < old(src)@.len(),
    {
        src.ensure_size(1)?;
        let header: u8 = src.read_u8();
        let update_code: UpdateCode = match UpdateCode::from_u8(header % 0x10) {
            Some(c) => c,
            None => {
                return Err(DecodeError::InvalidField { field: "updateHeader", reason: "invalid update code" });
            },
        };
        let fragmentation: Fragmentation = match Fragmentation::from_u8(header / 0x10 % 4) {
            Some(f) => f,
            None => {
                return Err(DecodeError::InvalidField { field: "updateHeader", reason: "invalid fragmentation" });
            },
        };
        let mut compression_flags: Option<CompressionFlags> = None;
        let mut compression_type: Option<CompressionType> = None;
        if header >= 0x80 {
            src.ensure_size(3)?;
            let compression: u8 = src.read_u8();
            match CompressionType::from_u8(compression % 0x10) {
                Some(t) => {
                    compression_flags = Some(CompressionFlags(compression / 0x20 * 0x20));
                    compression_type = Some(t);
                },
                None => {
                    return Err(
                        DecodeError::InvalidField {
                            field: "compressionFlags",
                            reason: "invalid compression type",
                        },
                    );
                },
            }
        } else {
            src.ensure_size(2)?;
        }
        let length: usize = src.read_u16() as usize;
        src.ensure_size(length)?;
        let data: &'a [u8] = src.read_slice(length);
        Ok(FastPathUpdatePdu { fragmentation, update_code, compression_flags, compression_type, data })
    }
}

/// An update is read back as it was written, also where it is compressed.
pub proof fn law_update_round_trip(pdu: UpdatePduView, rest: Seq<u8>)
    requires
        pdu.wf(),
        pdu.data.len() <= 0xFFFF,
    ensures
        pdu_at(pdu.encoded() + rest) == (Decoded { result: Ok(pdu), rest }),
{
    let bytes = pdu.encoded() + rest;
    let length = pdu.data.len() as int;
    let head = bytes[0];
    assert(head % 0x10 == pdu.update_code.code());
    assert(head / 0x10 % 4 == pdu.fragmentation.code());
    assert(update_code_of(pdu.update_code.code()) == Some(pdu.update_code));
    assert(fragmentation_of(pdu.fragmentation.code()) == Some(pdu.fragmentation));
    let tail = bytes.skip(1);
    match (pdu.compression_flags, pdu.compression_type) {
        (Some(flags), Some(t)) => {
            assert(head >= 0x80);
            assert(tail[0] == flags.0 + t.code());
            assert(tail[0] % 0x10 == t.code());
            assert(tail[0] / 0x20 * 0x20 == flags.0);
            assert(compression_type_of(t.code()) == Some(t));
            let body = tail.skip(1);
            assert(body[0] == (length % 0x100) as u8);
            assert(body[1] == (length / 0x100) as u8);
            assert(u16_at(body, 0) == length);
            assert(body.skip(2).take(length) =~= pdu.data);
            assert(body.skip(2).skip(length) =~= rest);
        },
        _ => {
            assert(head < 0x80);
            assert(tail[0] == (length % 0x100) as u8);
            assert(tail[1] == (length / 0x100) as u8);
            assert(u16_at(tail, 0) == length);
            assert(tail.skip(2).take(length) =~= pdu.data);
            assert(tail.skip(2).skip(length) =~= rest);
        },
    }
}

} // verus!
