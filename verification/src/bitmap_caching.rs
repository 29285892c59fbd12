//! Orders that put bitmaps into the cache.

use vstd::prelude::*;

use crate::bitmap_cache::{
    caches_wf, entry_check, same_entries, stored, to_bytes, BitmapCache, CacheView, CachedView,
};
use crate::cursor::{u16_at, ReadCursor};
use crate::error::{SessionError, SessionResult};
use crate::geometry::lemma_area_bound;
use crate::palette::{ColorPalette, PaletteEntry};

verus! {

/// Bytes per pixel of the bitmaps that can be cached.
pub open spec fn bytes_of_depth(bpp: u16) -> Option<int> {
    if bpp == 8 {
        Some(1)
    } else if bpp == 15 || bpp == 16 {
        Some(2)
    } else if bpp == 24 {
        Some(3)
    } else if bpp == 32 {
        Some(4)
    } else {
        None
    }
}

/// A 5-bit intensity as an 8-bit one: its bits, then its highest bits again.
pub open spec fn widen_5(value: int) -> u8 {
    (value * 8 + value / 4) as u8
}

/// A 6-bit intensity as an 8-bit one: its bits, then its highest bits again.
pub open spec fn widen_6(value: int) -> u8 {
    (value * 4 + value / 16) as u8
}

/// Pixel `i` of a bitmap as red, green, blue and opacity.
pub open spec fn rgba_pixel(src: Seq<u8>, i: int, bpp: u16, palette: Seq<PaletteEntry>) -> Seq<u8> {
    if bpp == 8 {
        let entry = palette[src[i] as int];
        seq![entry.red, entry.green, entry.blue, 255u8]
    } else if bpp == 15 {
        let value = u16_at(src, i * 2) as int;
        seq![
            widen_5(value / 0x400 % 0x20),
            widen_5(value / 0x20 % 0x20),
            widen_5(value % 0x20),
            255u8,
        ]
    } else if bpp == 16 {
        let value = u16_at(src, i * 2) as int;
        seq![
            widen_5(value / 0x800 % 0x20),
            widen_6(value / 0x20 % 0x40),
            widen_5(value % 0x20),
            255u8,
        ]
    } else if bpp == 24 {
        seq![src[i * 3 + 2], src[i * 3 + 1], src[i * 3], 255u8]
    } else {
        seq![src[i * 4 + 2], src[i * 4 + 1], src[i * 4], src[i * 4 + 3]]
    }
}

/// The first `count` pixels of a bitmap in RGBA.
pub open spec fn rgba_pixels(src: Seq<u8>, count: int, bpp: u16, palette: Seq<PaletteEntry>) -> Seq<u8> {
    Seq::new((count * 4) as nat, |k: int| rgba_pixel(src, k / 4, bpp, palette)[k % 4])
}

/// Whether `src` holds all the pixels of a bitmap.
pub open spec fn has_pixels(src: Seq<u8>, width: u16, height: u16, bpp: u16) -> bool {
    bytes_of_depth(bpp) matches Some(size) ==> width * height * size <= src.len()
}

/// A bitmap in RGBA, if the number of bits per pixel is known.
pub open spec fn rgba_bitmap(
    src: Seq<u8>,
    width: u16,
    height: u16,
    bpp: u16,
    palette: Seq<PaletteEntry>,
) -> SessionResult<Seq<u8>> {
    if bytes_of_depth(bpp) is Some {
        Ok(rgba_pixels(src, width * height, bpp, palette))
    } else {
        Err(SessionError::UnsupportedBpp(bpp))
    }
}

fn pixel_to_rgba(src: &[u8], i: usize, bpp: u16, palette: &ColorPalette) -> (r: [u8; 4])
    requires
        bytes_of_depth(bpp) matches Some(size) && (i + 1) * size <= src@.len(),
    ensures
        r@ == rgba_pixel(src@, i as int, bpp, palette@),
{
    let len: usize = src.len();
    if bpp == 8 {
        assert((i + 1) * 1 <= src@.len());
        let rgb: [u8; 3] = palette.get(src[i]);
        [rgb[0], rgb[1], rgb[2], 255]
    } else if bpp == 15 {
        let value: u16 = src[i * 2] as u16 + 0x100 * (src[i * 2 + 1] as u16);
        let r: u16 = value / 0x400 % 0x20;
        let g: u16 = value / 0x20 % 0x20;
        let b: u16 = value % 0x20;
        [(r * 8 + r / 4) as u8, (g * 8 + g / 4) as u8, (b * 8 + b / 4) as u8, 255]
    } else if bpp == 16 {
        let value: u16 = src[i * 2] as u16 + 0x100 * (src[i * 2 + 1] as u16);
        let r: u16 = value / 0x800 % 0x20;
        let g: u16 = value / 0x20 % 0x40;
        let b: u16 = value % 0x20;
        [(r * 8 + r / 4) as u8, (g * 4 + g / 16) as u8, (b * 8 + b / 4) as u8, 255]
    } else if bpp == 24 {
        [src[i * 3 + 2], src[i * 3 + 1], src[i * 3], 255]
    } else {
        [src[i * 4 + 2], src[i * 4 + 1], src[i * 4], src[i * 4 + 3]]
    }
}

/// Convert bitmap data to RGBA format.
pub fn convert_to_rgba(palette: &ColorPalette, src: &[u8], width: u16, height: u16, bpp: u16) -> (r: SessionResult<
    Vec<u8>,
>)
    requires
        width * height * 4 <= usize::MAX,
        has_pixels(src@, width, height, bpp),
    ensures
        match rgba_bitmap(src@, width, height, bpp, palette@) {
            Ok(pixels) => r is Ok && (r->Ok_0)@ == pixels,
            Err(e) => r == Err::<Vec<u8>, SessionError>(e),
        },
{
    if bpp != 8 && bpp != 15 && bpp != 16 && bpp != 24 && bpp != 32 {
        return Err(SessionError::UnsupportedBpp(bpp));
    }
    proof {
        lemma_area_bound(width, height);
    }
    let count: usize = width as usize * height as usize;
    let mut dst: Vec<u8> = Vec::with_capacity(count * 4);
    let ghost size = bytes_of_depth(bpp)->Some_0;
    let mut i: usize = 0;
    while i < count
        invariant
            i <= count,
            count == width * height,
            count * 4 <= usize::MAX,
            bytes_of_depth(bpp) == Some(size),
            count * size <= src@.len(),
            dst@ == rgba_pixels(src@, i as int, bpp, palette@),
        decreases count - i,
    {
        assert((i + 1) * size <= count * size) by (nonlinear_arith)
            requires
                i + 1 <= count,
                1 <= size,
        ;
        let pixel: [u8; 4] = pixel_to_rgba(src, i, bpp, palette);
        dst.push(pixel[0]);
        dst.push(pixel[1]);
        dst.push(pixel[2]);
        dst.push(pixel[3]);
        i = i + 1;
        assert(dst@ =~= rgba_pixels(src@, i as int, bpp, palette@));
    }
    Ok(dst)
}

/// Whether a bitmap is run-length encoded.
pub open spec fn is_compressed(flags: u16) -> bool {
    flags as int / 0x400 % 2 == 0
}

/// A bitmap in RGBA. If it is run-length encoded, `inflated` is what the encoding stands for, or
/// nothing if it could not be read.
pub open spec fn decompressed(
    data: Seq<u8>,
    inflated: Option<Seq<u8>>,
    width: u16,
    height: u16,
    bpp: u16,
    flags: u16,
    palette: Seq<PaletteEntry>,
) -> SessionResult<Seq<u8>> {
    if is_compressed(flags) {
        match inflated {
            Some(bytes) => rgba_bitmap(bytes, width, height, bpp, palette),
            None => Err(SessionError::Rle),
        }
    } else {
        rgba_bitmap(data, width, height, bpp, palette)
    }
}

/// Whether a bitmap has all its pixels.
pub open spec fn is_whole(
    data: Seq<u8>,
    inflated: Option<Seq<u8>>,
    width: u16,
    height: u16,
    bpp: u16,
    flags: u16,
) -> bool {
    &&& width * height * 4 <= usize::MAX
    &&& if is_compressed(flags) {
        inflated matches Some(bytes) ==> has_pixels(bytes, width, height, bpp)
    } else {
        has_pixels(data, width, height, bpp)
    }
}

/// The bytes of an optional buffer.
pub open spec fn optional_bytes(bytes: Option<&[u8]>) -> Option<Seq<u8>> {
    match bytes {
        Some(b) => Some(b@),
        None => None,
    }
}

/// Decompress bitmap data to RGBA format.
pub fn decompress_bitmap(
    palette: &ColorPalette,
    data: &[u8],
    inflated: Option<&[u8]>,
    width: u16,
    height: u16,
    bpp: u16,
    flags: u16,
) -> (r: SessionResult<Vec<u8>>)
    requires
        is_whole(data@, optional_bytes(inflated), width, height, bpp, flags),
    ensures
        match decompressed(data@, optional_bytes(inflated), width, height, bpp, flags, palette@) {
            Ok(pixels) => r is Ok && (r->Ok_0)@ == pixels,
            Err(e) => r == Err::<Vec<u8>, SessionError>(e),
        },
{
    if flags / 0x400 % 2 == 0 {
        match inflated {
            Some(bytes) => convert_to_rgba(palette, bytes, width, height, bpp),
            None => Err(SessionError::Rle),
        }
    } else {
        convert_to_rgba(palette, data, width, height, bpp)
    }
}

/// An order to cache a bitmap.
#[derive(Debug, Clone, Copy)]
pub struct CacheBitmap<'a> {
    pub cache_id: u8,
    pub cache_index: u16,
    pub width: u16,
    pub height: u16,
    pub bpp: u16,
    pub flags: u16,
    pub data: &'a [u8],
}

#[verifier::ext_equal]
pub struct CacheBitmapView {
    pub cache_id: u8,
    pub cache_index: u16,
    pub width: u16,
    pub height: u16,
    pub bpp: u16,
    pub flags: u16,
    pub data: Seq<u8>,
}

impl<'a> View for CacheBitmap<'a> {
    type V = CacheBitmapView;

    open spec fn view(&self) -> CacheBitmapView {
        CacheBitmapView {
            cache_id: self.cache_id,
            cache_index: self.cache_index,
            width: self.width,
            height: self.height,
            bpp: self.bpp,
            flags: self.flags,
            data: self.data@,
        }
    }
}

/// Where the bitmap of a cache order starts: behind cache and entry, and behind the keys of a
/// bitmap that outlives the session.
pub open spec fn bitmap_offset(bytes: Seq<u8>) -> int {
    if bytes[0] / 4 % 2 == 1 {
        11
    } else {
        3
    }
}

/// The order that `bytes` hold: cache in the lowest two bits, entry, bitmap. The bitmap is width,
/// height, bits per pixel, flags, length, data.
pub open spec fn cache_bitmap_at(bytes: Seq<u8>) -> SessionResult<CacheBitmapView> {
    let body = bytes.skip(bitmap_offset(bytes));
    if bytes.len() < 3 {
        Err(SessionError::CacheOrderTooShort(bytes.len() as usize))
    } else if body.len() < 10 {
        Err(SessionError::CachedBitmapTooShort)
    } else {
        Ok(
            CacheBitmapView {
                cache_id: bytes[0] % 4,
                cache_index: u16_at(bytes, 1),
                width: u16_at(body, 0),
                height: u16_at(body, 2),
                bpp: u16_at(body, 4),
                flags: u16_at(body, 6),
                data: body.subrange(10, 10 + u16_at(body, 8)),
            },
        )
    }
}

/// Whether a cache order does not end in its keys or in the data of its bitmap.
pub open spec fn cache_order_ends_well(bytes: Seq<u8>) -> bool {
    let body = bytes.skip(bitmap_offset(bytes));
    bytes.len() >= 3 ==> {
        &&& bitmap_offset(bytes) <= bytes.len()
        &&& body.len() >= 10 ==> 10 + u16_at(body, 8) <= body.len()
    }
}

/// Reads an order to cache a bitmap.
pub fn parse_cache_bitmap(bytes: &[u8]) -> (r: SessionResult<CacheBitmap<'_>>)
    requires
        cache_order_ends_well(bytes@),
    ensures
        match cache_bitmap_at(bytes@) {
            Ok(order) => r is Ok && (r->Ok_0)@ == order,
            Err(e) => r == Err::<CacheBitmap<'_>, SessionError>(e),
        },
{
    if bytes.len() < 3 {
        return Err(SessionError::CacheOrderTooShort(bytes.len()));
    }
    let mut cursor: ReadCursor<'_> = ReadCursor::new(bytes);
    let first: u8 = cursor.read_u8();
    let cache_index: u16 = cursor.read_u16();
    if first / 4 % 2 == 1 {
        cursor.advance(8);
    }
    assert(cursor@ =~= bytes@.skip(bitmap_offset(bytes@)));
    if cursor.len() < 10 {
        return Err(SessionError::CachedBitmapTooShort);
    }
    let width: u16 = cursor.read_u16();
    let height: u16 = cursor.read_u16();
    let bpp: u16 = cursor.read_u16();
    let flags: u16 = cursor.read_u16();
    let length: u16 = cursor.read_u16();
    let data: &[u8] = cursor.read_slice(length as usize);
    let order: CacheBitmap<'_> = CacheBitmap {
        cache_id: first % 4,
        cache_index,
        width,
        height,
        bpp,
        flags,
        data,
    };
    assert(data@ =~= bytes@.skip(bitmap_offset(bytes@)).subrange(10, 10 + length));
    Ok(order)
}

/// Whether an order to cache a bitmap is complete.
pub open spec fn cache_order_is_whole(bytes: Seq<u8>, inflated: Option<Seq<u8>>) -> bool {
    &&& cache_order_ends_well(bytes)
    &&& cache_bitmap_at(bytes) matches Ok(o) ==> is_whole(
        o.data,
        inflated,
        o.width,
        o.height,
        o.bpp,
        o.flags,
    )
}

/// The caches after an order to cache a bitmap, and whether that worked.
pub open spec fn cached(
    caches: CacheView,
    palette: Seq<PaletteEntry>,
    bytes: Seq<u8>,
    inflated: Option<Seq<u8>>,
) -> (CacheView, SessionResult<()>) {
    match cache_bitmap_at(bytes) {
        Err(e) => (caches, Err(e)),
        Ok(o) => match decompressed(o.data, inflated, o.width, o.height, o.bpp, o.flags, palette) {
            Err(e) => (caches, Err(e)),
            Ok(data) => match entry_check(caches, o.cache_id, o.cache_index) {
                Err(e) => (caches, Err(e)),
                Ok(_) => (
                    stored(
                        caches,
                        o.cache_id,
                        o.cache_index,
                        (CachedView { width: o.width, height: o.height, data }),
                    ),
                    Ok(()),
                ),
            },
        },
    }
}

/// Whether an order to cache a bitmap fails: its header is not complete, its bitmap cannot be read, or
/// there is no entry for it. That does not depend on what the caches hold.
pub open spec fn cache_order_fails(caches: CacheView, bytes: Seq<u8>, inflated: Option<Seq<u8>>) -> bool {
    match cache_bitmap_at(bytes) {
        Err(_) => true,
        Ok(o) => {
            ||| is_compressed(o.flags) && inflated is None
            ||| bytes_of_depth(o.bpp) is None
            ||| entry_check(caches, o.cache_id, o.cache_index) is Err
        },
    }
}

/// An order to cache a bitmap leaves the caches with the same entries.
pub proof fn lemma_cached(
    caches: CacheView,
    palette: Seq<PaletteEntry>,
    bytes: Seq<u8>,
    inflated: Option<Seq<u8>>,
)
    ensures
        cached(caches, palette, bytes, inflated).1 is Err <==> cache_order_fails(caches, bytes, inflated),
        same_entries(cached(caches, palette, bytes, inflated).0, caches),
{
}

/// Whether an order to cache a bitmap will fail.
pub fn will_fail(cache: &BitmapCache, bytes: &[u8], inflated: Option<&[u8]>) -> (r: bool)
    requires
        cache_order_ends_well(bytes@),
    ensures
        r == cache_order_fails(cache@, bytes@, optional_bytes(inflated)),
{
    match parse_cache_bitmap(bytes) {
        Err(_) => true,
        Ok(o) => {
            let known: bool = match o.bpp {
                8 | 15 | 16 | 24 | 32 => true,
                _ => false,
            };
            (o.flags / 0x400 % 2 == 0 && inflated.is_none()) || !known || cache.check_entry(
                o.cache_id,
                o.cache_index,
            ).is_err()
        },
    }
}

/// Process CacheBitmapV2 secondary order.
///
/// If the bitmap is run-length encoded, `inflated` is what the encoding stands for, or nothing if it
/// could not be read.
pub fn process_cache_bitmap_v2(
    cache: &mut BitmapCache,
    palette: &ColorPalette,
    data: &[u8],
    inflated: Option<&[u8]>,
) -> (r: SessionResult<()>)
    requires
        cache_order_is_whole(data@, optional_bytes(inflated)),
    ensures
        (final(cache)@, r) == cached(old(cache)@, palette@, data@, optional_bytes(inflated)),
        caches_wf(old(cache)@) ==> caches_wf(final(cache)@),
{
    let order: CacheBitmap<'_> = parse_cache_bitmap(data)?;
    let rgba: Vec<u8> = decompress_bitmap(
        palette,
        order.data,
        inflated,
        order.width,
        order.height,
        order.bpp,
        order.flags,
    )?;
    cache.store(order.cache_id, order.cache_index, order.width, order.height, to_bytes(rgba))
}

/// What a run-length decoder has to be asked for before an order can be processed.
#[derive(Debug, Clone, Copy)]
pub struct InflateRequest<'a> {
    pub data: &'a [u8],
    pub width: u16,
    pub height: u16,
    pub bpp: u16,
}

/// The run-length encoded bitmap of an order to cache a bitmap, if there is one.
pub fn inflate_request(bytes: &[u8]) -> (r: Option<InflateRequest<'_>>)
    requires
        cache_order_ends_well(bytes@),
    ensures
        match cache_bitmap_at(bytes@) {
            Ok(o) if is_compressed(o.flags) => {
                &&& r matches Some(q)
                &&& q.data@ == o.data
                &&& (q.width, q.height, q.bpp) == (o.width, o.height, o.bpp)
            },
            _ => r is None,
        },
{
    match parse_cache_bitmap(bytes) {
        Ok(o) => if o.flags / 0x400 % 2 == 0 {
            Some(InflateRequest { data: o.data, width: o.width, height: o.height, bpp: o.bpp })
        } else {
            None
        },
        Err(_) => None,
    }
}

/// Whether an order to cache a bitmap does not end in its keys or in the data of its bitmap.
pub fn ends_well(bytes: &[u8]) -> (r: bool)
    ensures
        r == cache_order_ends_well(bytes@),
{
    let len: usize = bytes.len();
    if len < 3 {
        return true;
    }
    let offset: usize = if bytes[0] / 4 % 2 == 1 {
        11
    } else {
        3
    };
    if len < offset {
        return false;
    }
    if len - offset < 10 {
        return true;
    }
    let length: usize = bytes[offset + 8] as usize + 0x100 * (bytes[offset + 9] as usize);
    10 + length <= len - offset
}

/// Whether an order to cache a bitmap is complete.
pub fn is_whole_order(bytes: &[u8], inflated: Option<&[u8]>) -> (r: bool)
    ensures
        r == cache_order_is_whole(bytes@, optional_bytes(inflated)),
{
    if !ends_well(bytes) {
        return false;
    }
    match parse_cache_bitmap(bytes) {
        Err(_) => true,
        Ok(o) => {
            proof {
                lemma_area_bound(o.width, o.height);
            }
            let count: u64 = o.width as u64 * o.height as u64;
            if count * 4 > usize::MAX as u64 {
                return false;
            }
            let source: &[u8] = if o.flags / 0x400 % 2 == 0 {
                match inflated {
                    Some(b) => b,
                    None => {
                        return true;
                    },
                }
            } else {
                o.data
            };
            let size: u64 = match o.bpp {
                8 => 1,
                15 | 16 => 2,
                24 => 3,
                32 => 4,
                _ => {
                    return true;
                },
            };
            assert(count * size <= 0xFFFF * 0xFFFF * 4) by (nonlinear_arith)
                requires
                    0 <= count <= 0xFFFF * 0xFFFF,
                    1 <= size <= 4,
            ;
            count * size <= source.len() as u64
        },
    }
}

} // verus!
