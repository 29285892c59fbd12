//! Bitmaps for rectangles of the screen.

use vstd::prelude::*;

use crate::cursor::{u16_at, ReadCursor};
use crate::error::{DecodeError, DecodeResult};
use crate::geometry::InclusiveRectangle;

verus! {

/// How a bitmap is compressed.
#[derive(Debug, Clone, Copy, PartialEq, Eq, Structural)]
pub struct Compression(pub u16);

impl Compression {
    /// The bitmap is compressed
    pub const BITMAP_COMPRESSION: u16 = 0x0001;

    /// A compressed bitmap comes without a header
    pub const NO_BITMAP_COMPRESSION_HDR: u16 = 0x0400;

    pub open spec fn has(self, mask: u16) -> bool {
        self.0 & mask == mask
    }

    /// Keeps the bits that have a meaning.
    pub open spec fn truncated(bits: u16) -> Compression {
        Compression(bits & 0x0401)
    }

    pub fn from_bits_truncate(bits: u16) -> (r: Self)
        ensures
            r == Compression::truncated(bits),
    {
        Compression(bits & 0x0401)
    }

    pub fn contains(self, mask: u16) -> (r: bool)
        ensures
            r == self.has(mask),
    {
        self.0 & mask == mask
    }
}

/// The header in front of compressed data.
#[derive(Debug, Clone, Copy, PartialEq, Eq, Structural)]
pub struct CompressedDataHeader {
    pub main_body_size: u16,
    pub scan_width: u16,
    pub uncompressed_size: u16,
}

/// A bitmap for a rectangle of the screen.
#[derive(Debug, Clone, Copy)]
pub struct BitmapData<'a> {
    pub rectangle: InclusiveRectangle,
    pub width: u16,
    pub height: u16,
    pub bits_per_pixel: u16,
    pub compression_flags: Compression,
    pub compressed_data_header: Option<CompressedDataHeader>,
    pub bitmap_data: &'a [u8],
}

#[verifier::ext_equal]
pub struct BitmapView {
    pub rectangle: InclusiveRectangle,
    pub width: u16,
    pub height: u16,
    pub bits_per_pixel: u16,
    pub compression_flags: Compression,
    pub header: Option<CompressedDataHeader>,
    pub data: Seq<u8>,
}

impl<'a> View for BitmapData<'a> {
    type V = BitmapView;

    open spec fn view(&self) -> BitmapView {
        BitmapView {
            rectangle: self.rectangle,
            width: self.width,
            height: self.height,
            bits_per_pixel: self.bits_per_pixel,
            compression_flags: self.compression_flags,
            header: self.compressed_data_header,
            data: self.bitmap_data@,
        }
    }
}

/// Bitmaps for some rectangles of the screen.
#[derive(Debug)]
pub struct BitmapUpdateData<'a> {
    pub rectangles: Vec<BitmapData<'a>>,
}

/// What some bytes hold, and the bytes behind it.
#[verifier::reject_recursive_types(T)]
#[verifier::ext_equal]
pub struct Decoded<T> {
    pub result: DecodeResult<T>,
    pub rest: Seq<u8>,
}

pub open spec fn missing<T>(available: Seq<u8>, expected: nat) -> Decoded<T> {
    Decoded {
        result: Err(
            DecodeError::NotEnoughBytes { received: available.len() as usize, expected: expected as usize },
        ),
        rest: available,
    }
}

pub open spec fn invalid<T>(field: &'static str, reason: &'static str, rest: Seq<u8>) -> Decoded<T> {
    Decoded { result: Err(DecodeError::InvalidField { field, reason }), rest }
}

/// The header in front of compressed data: a zero, the size of the data, the width of a row, which is
/// a multiple of four, and the size without compression.
pub open spec fn header_at(bytes: Seq<u8>) -> Decoded<CompressedDataHeader> {
    if bytes.len() < 8 {
        missing(bytes, 8)
    } else if u16_at(bytes, 0) != 0 {
        invalid("cbCompFirstRowSize", "cbCompFirstRowSize must be 0", bytes.skip(2))
    } else if u16_at(bytes, 4) % 4 != 0 {
        invalid("cbScanWidth", "the width of the bitmap must be divisible by 4", bytes.skip(6))
    } else {
        Decoded {
            result: Ok(
                CompressedDataHeader {
                    main_body_size: u16_at(bytes, 2),
                    scan_width: u16_at(bytes, 4),
                    uncompressed_size: u16_at(bytes, 6),
                },
            ),
            rest: bytes.skip(8),
        }
    }
}

/// The first 18 bytes of a bitmap, with the given header and data.
pub open spec fn bitmap_fields(
    bytes: Seq<u8>,
    header: Option<CompressedDataHeader>,
    data: Seq<u8>,
) -> BitmapView {
    BitmapView {
        rectangle: InclusiveRectangle {
            left: u16_at(bytes, 0),
            top: u16_at(bytes, 2),
            right: u16_at(bytes, 4),
            bottom: u16_at(bytes, 6),
        },
        width: u16_at(bytes, 8),
        height: u16_at(bytes, 10),
        bits_per_pixel: u16_at(bytes, 12),
        compression_flags: Compression::truncated(u16_at(bytes, 14)),
        header,
        data,
    }
}

/// A bitmap: rectangle, size, bits per pixel, compression, length, and so many bytes of header and
/// data.
pub open spec fn bitmap_at(bytes: Seq<u8>) -> Decoded<BitmapView> {
    let flags = Compression::truncated(u16_at(bytes, 14));
    let length = u16_at(bytes, 16) as int;
    let rest = bytes.skip(18);
    if bytes.len() < 18 {
        missing(bytes, 18)
    } else if rest.len() < length {
        missing(rest, length as nat)
    } else if flags.has(Compression::BITMAP_COMPRESSION) && !flags.has(
        Compression::NO_BITMAP_COMPRESSION_HDR,
    ) {
        if length < 8 {
            invalid(
                "cbCompEncodedBitmapDataLength",
                "length is less than the size of the compressed data header",
                rest,
            )
        } else {
            match header_at(rest).result {
                Err(e) => Decoded { result: Err(e), rest: header_at(rest).rest },
                Ok(header) => Decoded {
                    result: Ok(bitmap_fields(bytes, Some(header), rest.subrange(8, length))),
                    rest: rest.skip(length),
                },
            }
        }
    } else {
        Decoded {
            result: Ok(bitmap_fields(bytes, None, rest.take(length))),
            rest: rest.skip(length),
        }
    }
}

/// `count` bitmaps, one after the other. Nothing is kept of them if one cannot be read.
pub open spec fn bitmaps_at(bytes: Seq<u8>, count: nat) -> Decoded<Seq<BitmapView>>
    decreases count,
{
    if count == 0 {
        Decoded { result: Ok(Seq::empty()), rest: bytes }
    } else {
        let before = bitmaps_at(bytes, (count - 1) as nat);
        match before.result {
            Err(e) => before,
            Ok(list) => {
                let next = bitmap_at(before.rest);
                Decoded {
                    result: match next.result {
                        Err(e) => Err(e),
                        Ok(b) => Ok(list.push(b)),
                    },
                    rest: next.rest,
                }
            },
        }
    }
}

impl CompressedDataHeader {
    pub fn decode(src: &mut ReadCursor<'_>) -> (r: DecodeResult<Self>)
        ensures
            r == header_at(old(src)@).result,
            final(src)@ == header_at(old(src)@).rest,
    {
        src.ensure_size(8)?;
        let first_row_size: u16 = src.read_u16();
        if first_row_size != 0 {
            return Err(
                DecodeError::InvalidField {
                    field: "cbCompFirstRowSize",
                    reason: "cbCompFirstRowSize must be 0",
                },
            );
        }
        let main_body_size: u16 = src.read_u16();
        let scan_width: u16 = src.read_u16();
        assert(src@ =~= old(src)@.skip(6));
        if scan_width % 4 != 0 {
            return Err(
                DecodeError::InvalidField {
                    field: "cbScanWidth",
                    reason: "the width of the bitmap must be divisible by 4",
                },
            );
        }
        let uncompressed_size: u16 = src.read_u16();
        assert(src@ =~= old(src)@.skip(8));
        Ok(CompressedDataHeader { main_body_size, scan_width, uncompressed_size })
    }
}

impl<'a> BitmapData<'a> {
    pub fn decode(src: &mut ReadCursor<'a>) -> (r: DecodeResult<Self>)
        ensures
            match r {
                Ok(b) => bitmap_at(old(src)@).result == Ok::<BitmapView, DecodeError>(b@),
                Err(e) => bitmap_at(old(src)@).result == Err::<BitmapView, DecodeError>(e),
            },
            final(src)@ == bitmap_at(old(src)@).rest,
    {
        src.ensure_size(18)?;
        let ghost bytes = src@;
        let left: u16 = src.read_u16();
        let top: u16 = src.read_u16();
        let right: u16 = src.read_u16();
        let bottom: u16 = src.read_u16();
        let width: u16 = src.read_u16();
        let height: u16 = src.read_u16();
        let bits_per_pixel: u16 = src.read_u16();
        let compression_flags: Compression = Compression::from_bits_truncate(src.read_u16());
        let length: u16 = src.read_u16();
        assert(src@ =~= bytes.skip(18));
        src.ensure_size(length as usize)?;
        let mut size: usize = length as usize;
        let mut header: Option<CompressedDataHeader> = None;
        if compression_flags.contains(Compression::BITMAP_COMPRESSION) && !compression_flags.contains(
            Compression::NO_BITMAP_COMPRESSION_HDR,
        ) {
            if length < 8 {
                return Err(
                    DecodeError::InvalidField {
                        field: "cbCompEncodedBitmapDataLength",
                        reason: "length is less than the size of the compressed data header",
                    },
                );
            }
            size = length as usize - 8;
            header = Some(CompressedDataHeader::decode(src)?);
        }
        let bitmap_data: &'a [u8] = src.read_slice(size);
        proof {
            let rest = bytes.skip(18);
            assert(src@ =~= rest.skip(length as int));
            if header is Some {
                assert(bitmap_data@ =~= rest.subrange(8, length as int));
            }
        }
        Ok(
            BitmapData {
                rectangle: InclusiveRectangle { left, top, right, bottom },
                width,
                height,
                bits_per_pixel,
                compression_flags,
                compressed_data_header: header,
                bitmap_data,
            },
        )
    }
}

/// The bitmaps of a list.
pub open spec fn bitmap_views(list: Seq<BitmapData<'_>>) -> Seq<BitmapView> {
    Seq::new(list.len(), |i: int| list[i]@)
}

impl<'a> View for BitmapUpdateData<'a> {
    type V = Seq<BitmapView>;

    open spec fn view(&self) -> Seq<BitmapView> {
        bitmap_views(self.rectangles@)
    }
}

/// Once a bitmap could not be read, no further one is.
proof fn lemma_bitmaps_stop(bytes: Seq<u8>, k: nat, n: nat)
    requires
        k <= n,
        bitmaps_at(bytes, k).result is Err,
    ensures
        bitmaps_at(bytes, n) == bitmaps_at(bytes, k),
    decreases n - k,
{
    if k < n {
        lemma_bitmaps_stop(bytes, k, (n - 1) as nat);
    }
}

/// Reads `count` bitmaps.
pub fn decode_bitmaps<'a>(src: &mut ReadCursor<'a>, count: u16) -> (r: DecodeResult<BitmapUpdateData<'a>>)
    ensures
        match r {
            Ok(b) => bitmaps_at(old(src)@, count as nat).result == Ok::<Seq<BitmapView>, DecodeError>(b@),
            Err(e) => bitmaps_at(old(src)@, count as nat).result == Err::<Seq<BitmapView>, DecodeError>(e),
        },
        final(src)@ == bitmaps_at(old(src)@, count as nat).rest,
{
    let ghost bytes = src@;
    let mut rectangles: Vec<BitmapData<'a>> = Vec::with_capacity(count as usize);
    let mut i: u16 = 0;
    assert(bitmap_views(rectangles@) =~= Seq::empty());
    while i < count
        invariant
            i <= count,
            bytes == old(src)@,
            bitmaps_at(bytes, i as nat).result == Ok::<Seq<BitmapView>, DecodeError>(
                bitmap_views(rectangles@),
            ),
            bitmaps_at(bytes, i as nat).rest == src@,
        decreases count - i,
    {
        let ghost earlier = rectangles@;
        match BitmapData::decode(src) {
            Ok(b) => {
                rectangles.push(b);
                assert(bitmap_views(rectangles@) =~= bitmap_views(earlier).push(b@));
            },
            Err(e) => {
                proof {
                    lemma_bitmaps_stop(bytes, (i + 1) as nat, count as nat);
                }
                return Err(e);
            },
        }
        i = i + 1;
    }
    Ok(BitmapUpdateData { rectangles })
}

} // verus!
