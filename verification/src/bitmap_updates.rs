//! Bitmaps of the server on the image.

use vstd::prelude::*;
use vstd::slice::slice_subrange;

use crate::bitmap::{bitmap_views, BitmapData, BitmapUpdateData, BitmapView, Compression};
use crate::error::SessionResult;
use crate::geometry::InclusiveRectangle;
use crate::image::{lemma_bitmapped_shape, DecodedImage, ImageView};
use crate::order_rendering::{combine_rectangles, combined};
use crate::palette::ColorPalette;
use crate::pixel_format::PixelFormat;
use crate::pointer_updates::UpdateKind;
use crate::raster::Encoding;

verus! {

/// What a decompressed bitmap is made of.
#[derive(Debug, Clone, Copy, PartialEq, Eq, Structural)]
pub enum RlePixelFormat {
    Rgb24,
    Rgb16,
    Rgb15,
    Rgb8,
}

/// A compressed bitmap after decompression.
#[derive(Debug)]
pub struct Inflated {
    pub format: RlePixelFormat,
    pub data: Vec<u8>,
}

pub struct InflatedView {
    pub format: RlePixelFormat,
    pub data: Seq<u8>,
}

/// What became of the compressed bitmaps of an update: entry `k` for bitmap `k`, nothing where the
/// bitmap could not be decompressed.
pub open spec fn inflated_at(list: Seq<Option<Inflated>>, k: int) -> Option<InflatedView> {
    if 0 <= k < list.len() {
        match list[k] {
            Some(i) => Some(InflatedView { format: i.format, data: i.data@ }),
            None => None,
        }
    } else {
        None
    }
}

/// Rows of `padded` bytes each, cut down to their first `row` bytes.
pub open spec fn unpadded(data: Seq<u8>, row: int, padded: int) -> Seq<u8>
    decreases data.len(),
{
    if data.len() == 0 || padded <= 0 {
        Seq::empty()
    } else {
        let size = if padded <= data.len() {
            padded
        } else {
            data.len() as int
        };
        let kept = if row <= size {
            row
        } else {
            size
        };
        data.take(kept) + unpadded(data.skip(size), row, padded)
    }
}

/// Bytes per row of an uncompressed bitmap, without padding.
pub open spec fn row_bytes(b: BitmapView) -> int {
    b.width * ((b.bits_per_pixel + 7) / 8)
}

/// The next multiple of four.
pub open spec fn padded_to_four(size: int) -> int {
    (size + 3) / 4 * 4
}

/// The pixels of an uncompressed bitmap, without the padding of its rows.
pub open spec fn raw_pixels(b: BitmapView) -> Seq<u8> {
    if padded_to_four(row_bytes(b)) != row_bytes(b) {
        unpadded(b.data, row_bytes(b), padded_to_four(row_bytes(b)))
    } else {
        b.data
    }
}

/// The image after some pixels were put into a rectangle, and the area that changed. `depth` is the
/// number of bits per pixel; nothing happens for other depths.
pub open spec fn raw_applied(
    v: ImageView,
    depth: int,
    pixels: Seq<u8>,
    palette: ColorPalette,
    rect: InclusiveRectangle,
) -> (ImageView, InclusiveRectangle) {
    if depth == 8 {
        v.bitmapped(pixels, Encoding::Indexed8(&palette), rect, true)
    } else if depth == 15 {
        v.bitmapped_inside(pixels, Encoding::Rgb15, rect, true)
    } else if depth == 16 {
        v.bitmapped_inside(pixels, Encoding::Rgb16, rect, true)
    } else if depth == 24 {
        v.bitmapped_inside(pixels, Encoding::Bgr24, rect, true)
    } else if depth == 32 {
        v.bitmapped_inside(pixels, bgrx_encoding(v), rect, true)
    } else {
        (v, rect)
    }
}

/// How pixels written as blue, green, red and a byte without meaning go into the image.
pub open spec fn bgrx_encoding<'a>(v: ImageView) -> Encoding<'a> {
    if PixelFormat::BgrX32 == v.format {
        Encoding::Raw32
    } else {
        Encoding::Color32(PixelFormat::BgrX32)
    }
}

/// Whether the image has room for the pixels.
pub open spec fn raw_fits(v: ImageView, depth: int, len: nat, rect: InclusiveRectangle) -> bool {
    if depth == 8 {
        v.has_room(rect, len, 1)
    } else if depth == 15 || depth == 16 {
        v.has_room_inside(rect, len, 2)
    } else if depth == 24 {
        v.has_room_inside(rect, len, 3)
    } else if depth == 32 {
        v.has_room_inside(rect, len, 4)
    } else {
        true
    }
}

/// Number of bits per pixel of a decompressed bitmap.
pub open spec fn inflated_depth(i: InflatedView) -> int {
    match i.format {
        RlePixelFormat::Rgb24 => 24,
        RlePixelFormat::Rgb16 => 16,
        RlePixelFormat::Rgb15 => 15,
        RlePixelFormat::Rgb8 => 8,
    }
}

/// The image after a bitmap, and the area that changed. A compressed bitmap with 32 bits per pixel
/// stands for red, green and blue; other bitmaps with three bytes per pixel are blue, green, red.
pub open spec fn bitmap_applied(
    v: ImageView,
    b: BitmapView,
    inflated: Option<InflatedView>,
    palette: ColorPalette,
) -> (ImageView, InclusiveRectangle) {
    if b.compression_flags.has(Compression::BITMAP_COMPRESSION) {
        match inflated {
            Some(i) => if b.bits_per_pixel == 32 {
                v.bitmapped_inside(i.data, Encoding::Rgb24, b.rectangle, true)
            } else {
                raw_applied(v, inflated_depth(i), i.data, palette, b.rectangle)
            },
            None => (v, b.rectangle),
        }
    } else {
        raw_applied(v, b.bits_per_pixel as int, raw_pixels(b), palette, b.rectangle)
    }
}

/// Whether the image has room for a bitmap.
pub open spec fn bitmap_fits(v: ImageView, b: BitmapView, inflated: Option<InflatedView>) -> bool {
    if b.compression_flags.has(Compression::BITMAP_COMPRESSION) {
        inflated matches Some(i) ==> if b.bits_per_pixel == 32 {
            v.has_room_inside(b.rectangle, i.data.len(), 3)
        } else {
            raw_fits(v, inflated_depth(i), i.data.len(), b.rectangle)
        }
    } else {
        raw_fits(v, b.bits_per_pixel as int, raw_pixels(b).len(), b.rectangle)
    }
}

/// The image after the first `n` bitmaps of an update, and the areas that changed.
pub open spec fn bitmaps_applied(
    v: ImageView,
    list: Seq<BitmapView>,
    inflated: Seq<Option<Inflated>>,
    palette: ColorPalette,
    n: nat,
) -> (ImageView, Seq<InclusiveRectangle>)
    decreases n,
{
    if n == 0 {
        (v, Seq::empty())
    } else {
        let (before, areas) = bitmaps_applied(v, list, inflated, palette, (n - 1) as nat);
        let (after, area) = bitmap_applied(before, list[n - 1], inflated_at(inflated, n - 1), palette);
        (after, areas.push(area))
    }
}

/// Whether the image has room for each bitmap of an update.
pub open spec fn bitmaps_fit(v: ImageView, list: Seq<BitmapView>, inflated: Seq<Option<Inflated>>) -> bool {
    forall|k: int| 0 <= k < list.len() ==> #[trigger] bitmap_fits(v, list[k], inflated_at(inflated, k))
}

/// One region around everything that changed; nothing for an update without bitmaps.
pub open spec fn bitmap_regions(areas: Seq<InclusiveRectangle>) -> Seq<UpdateKind> {
    match combined(areas) {
        Some(area) => seq![UpdateKind::Region(area)],
        None => Seq::empty(),
    }
}

/// Cuts the padding off rows of `padded` bytes.
fn strip_padding(data: &[u8], row: usize, padded: usize) -> (r: Vec<u8>)
    requires
        padded > 0,
    ensures
        r@ == unpadded(data@, row as int, padded as int),
{
    let mut out: Vec<u8> = Vec::new();
    let mut at: usize = 0;
    assert(data@.skip(0) =~= data@);
    while at < data.len()
        invariant
            at <= data@.len(),
            padded > 0,
            out@ + unpadded(data@.skip(at as int), row as int, padded as int) == unpadded(
                data@,
                row as int,
                padded as int,
            ),
        decreases data@.len() - at,
    {
        let left: usize = data.len() - at;
        let size: usize = if padded <= left {
            padded
        } else {
            left
        };
        let kept: usize = if row <= size {
            row
        } else {
            size
        };
        let ghost rest = data@.skip(at as int);
        let ghost before = out@;
        let part: &[u8] = slice_subrange(data, at, at + kept);
        out.extend_from_slice(part);
        proof {
            assert(part@ =~= rest.take(kept as int));
            assert(out@ =~= before + rest.take(kept as int));
            assert(rest.skip(size as int) =~= data@.skip(at + size));
            assert(out@ + unpadded(rest.skip(size as int), row as int, padded as int) =~= before + (rest.take(
                kept as int,
            ) + unpadded(rest.skip(size as int), row as int, padded as int)));
        }
        at = at + size;
    }
    assert(unpadded(data@.skip(at as int), row as int, padded as int) =~= Seq::empty());
    assert(out@ =~= out@ + Seq::<u8>::empty());
    out
}

/// Puts some pixels into a rectangle.
fn apply_raw(
    image: &mut DecodedImage,
    depth: u16,
    pixels: &[u8],
    palette: &ColorPalette,
    rect: &InclusiveRectangle,
) -> (r: SessionResult<InclusiveRectangle>)
    requires
        old(image)@.wf(),
        raw_fits(old(image)@, depth as int, pixels@.len(), *rect),
    ensures
        final(image)@.wf(),
        r is Ok,
        (final(image)@, r->Ok_0) == raw_applied(old(image)@, depth as int, pixels@, *palette, *rect),
{
    match depth {
        8 => image.apply_indexed8_bitmap(pixels, palette, rect),
        15 => image.apply_rgb15_bitmap(pixels, rect),
        16 => image.apply_rgb16_bitmap(pixels, rect),
        24 => image.apply_bgr24_bitmap(pixels, rect),
        32 => image.apply_rgb32_bitmap(pixels, PixelFormat::BgrX32, rect),
        _ => Ok(*rect),
    }
}

/// Applies one bitmap of an update.
fn apply_bitmap_data(
    image: &mut DecodedImage,
    update: &BitmapData<'_>,
    inflated: Option<&Inflated>,
    palette: &ColorPalette,
) -> (r: SessionResult<InclusiveRectangle>)
    requires
        old(image)@.wf(),
        bitmap_fits(old(image)@, update@, inflated_view(inflated)),
    ensures
        final(image)@.wf(),
        r is Ok,
        (final(image)@, r->Ok_0) == bitmap_applied(
            old(image)@,
            update@,
            inflated_view(inflated),
            *palette,
        ),
{
    if update.compression_flags.contains(Compression::BITMAP_COMPRESSION) {
        match inflated {
            Some(i) => if update.bits_per_pixel == 32 {
                image.apply_rgb24(i.data.as_slice(), &update.rectangle, true)
            } else {
                apply_raw(image, inflated_bits(i.format), i.data.as_slice(), palette, &update.rectangle)
            },
            None => Ok(update.rectangle),
        }
    } else {
        match packed_pixels(update) {
            Some(pixels) => apply_raw(
                image,
                update.bits_per_pixel,
                pixels.as_slice(),
                palette,
                &update.rectangle,
            ),
            None => apply_raw(
                image,
                update.bits_per_pixel,
                update.bitmap_data,
                palette,
                &update.rectangle,
            ),
        }
    }
}

/// Whether the image has room for some pixels.
pub fn has_room_for_pixels(image: &DecodedImage, depth: u16, len: usize, rect: &InclusiveRectangle) -> (r: bool)
    ensures
        r == raw_fits(image@, depth as int, len as nat, *rect),
{
    match depth {
        8 => image.has_room_for(rect, len, 1),
        15 | 16 => !image.rect_fits(rect) || image.has_room_for(rect, len, 2),
        24 => !image.rect_fits(rect) || image.has_room_for(rect, len, 3),
        32 => !image.rect_fits(rect) || image.has_room_for(rect, len, 4),
        _ => true,
    }
}

/// Whether the image has room for each bitmap of an update.
pub fn has_room_for_bitmaps(
    image: &DecodedImage,
    bitmap_update: &BitmapUpdateData<'_>,
    inflated: &[Option<Inflated>],
) -> (r: bool)
    ensures
        r == bitmaps_fit(image@, bitmap_update@, inflated@),
{
    let mut k: usize = 0;
    while k < bitmap_update.rectangles.len()
        invariant
            k <= bitmap_update.rectangles@.len(),
            forall|n: int|
                0 <= n < k ==> #[trigger] bitmap_fits(image@, bitmap_update@[n], inflated_at(inflated@, n)),
        decreases bitmap_update.rectangles@.len() - k,
    {
        let update: BitmapData<'_> = bitmap_update.rectangles[k];
        let data: Option<&Inflated> = if k < inflated.len() {
            inflated[k].as_ref()
        } else {
            None
        };
        assert(inflated_view(data) == inflated_at(inflated@, k as int));
        assert(bitmap_update@[k as int] == update@);
        if !has_room_for_bitmap(image, &update, data) {
            return false;
        }
        k = k + 1;
    }
    true
}

fn has_room_for_bitmap(image: &DecodedImage, update: &BitmapData<'_>, inflated: Option<&Inflated>) -> (r: bool)
    ensures
        r == bitmap_fits(image@, update@, inflated_view(inflated)),
{
    if update.compression_flags.contains(Compression::BITMAP_COMPRESSION) {
        match inflated {
            Some(i) => if update.bits_per_pixel == 32 {
                !image.rect_fits(&update.rectangle) || image.has_room_for(
                    &update.rectangle,
                    i.data.len(),
                    3,
                )
            } else {
                has_room_for_pixels(
                    image,
                    inflated_bits(i.format),
                    i.data.len(),
                    &update.rectangle,
                )
            },
            None => true,
        }
    } else {
        match packed_pixels(update) {
            Some(pixels) => has_room_for_pixels(
                image,
                update.bits_per_pixel,
                pixels.len(),
                &update.rectangle,
            ),
            None => has_room_for_pixels(
                image,
                update.bits_per_pixel,
                update.bitmap_data.len(),
                &update.rectangle,
            ),
        }
    }
}

/// Number of bits per pixel of a decompressed bitmap.
fn inflated_bits(format: RlePixelFormat) -> (r: u16)
    ensures
        forall|i: InflatedView| i.format == format ==> r == #[trigger] inflated_depth(i),
{
    match format {
        RlePixelFormat::Rgb24 => 24,
        RlePixelFormat::Rgb16 => 16,
        RlePixelFormat::Rgb15 => 15,
        RlePixelFormat::Rgb8 => 8,
    }
}

/// The pixels of an uncompressed bitmap, if its rows are padded.
fn packed_pixels(update: &BitmapData<'_>) -> (r: Option<Vec<u8>>)
    ensures
        match r {
            Some(pixels) => pixels@ == raw_pixels(update@),
            None => update.bitmap_data@ == raw_pixels(update@),
        },
{
    let bytes_per_pixel: u32 = (update.bits_per_pixel as u32 + 7) / 8;
    assert(update.width * bytes_per_pixel <= 0xFFFF * 0x2000) by (nonlinear_arith)
        requires
            0 <= update.width <= 0xFFFF,
            0 <= bytes_per_pixel <= 0x2000,
    ;
    let row: u32 = update.width as u32 * bytes_per_pixel;
    let padded: u32 = (row + 3) / 4 * 4;
    if padded != row {
        Some(strip_padding(update.bitmap_data, row as usize, padded as usize))
    } else {
        None
    }
}

pub open spec fn inflated_view(inflated: Option<&Inflated>) -> Option<InflatedView> {
    match inflated {
        Some(i) => Some(InflatedView { format: i.format, data: i.data@ }),
        None => None,
    }
}

/// Pixels do not change the size of the image.
proof fn lemma_raw_keeps_size(
    v: ImageView,
    depth: int,
    pixels: Seq<u8>,
    palette: ColorPalette,
    rect: InclusiveRectangle,
)
    ensures
        raw_applied(v, depth, pixels, palette, rect).0.same_shape(v),
{
    if depth == 8 {
        lemma_bitmapped_shape(v, pixels, Encoding::Indexed8(&palette), rect, true);
    } else if depth == 15 {
        lemma_bitmapped_shape(v, pixels, Encoding::Rgb15, rect, true);
    } else if depth == 16 {
        lemma_bitmapped_shape(v, pixels, Encoding::Rgb16, rect, true);
    } else if depth == 24 {
        lemma_bitmapped_shape(v, pixels, Encoding::Bgr24, rect, true);
    } else if depth == 32 {
        lemma_bitmapped_shape(v, pixels, bgrx_encoding(v), rect, true);
    }
}

/// A bitmap does not change the size of the image.
proof fn lemma_bitmap_keeps_size(
    v: ImageView,
    b: BitmapView,
    inflated: Option<InflatedView>,
    palette: ColorPalette,
)
    ensures
        bitmap_applied(v, b, inflated, palette).0.same_shape(v),
{
    if b.compression_flags.has(Compression::BITMAP_COMPRESSION) {
        match inflated {
            Some(i) => if b.bits_per_pixel == 32 {
                lemma_bitmapped_shape(v, i.data, Encoding::Rgb24, b.rectangle, true);
            } else {
                lemma_raw_keeps_size(v, inflated_depth(i), i.data, palette, b.rectangle);
            },
            None => {},
        }
    } else {
        lemma_raw_keeps_size(v, b.bits_per_pixel as int, raw_pixels(b), palette, b.rectangle);
    }
}

/// Bitmaps do not change the size of the image, so there is room for later ones as for earlier ones.
proof fn lemma_applied_keeps_size(
    v: ImageView,
    list: Seq<BitmapView>,
    inflated: Seq<Option<Inflated>>,
    palette: ColorPalette,
    n: nat,
)
    ensures
        bitmaps_applied(v, list, inflated, palette, n).0.same_shape(v),
    decreases n,
{
    if n > 0 {
        let before = bitmaps_applied(v, list, inflated, palette, (n - 1) as nat).0;
        lemma_applied_keeps_size(v, list, inflated, palette, (n - 1) as nat);
        lemma_bitmap_keeps_size(before, list[n - 1], inflated_at(inflated, n - 1), palette);
    }
}

/// Applies the bitmaps of an update.
///
/// `inflated` holds what decompression made of the compressed bitmaps: entry `k` for bitmap `k`,
/// nothing where it failed. A bitmap that could not be decompressed counts as drawn.
pub fn process_bitmap_update(
    palette: &ColorPalette,
    image: &mut DecodedImage,
    bitmap_update: &BitmapUpdateData<'_>,
    inflated: &[Option<Inflated>],
) -> (r: SessionResult<Vec<UpdateKind>>)
    requires
        old(image)@.wf(),
        bitmaps_fit(old(image)@, bitmap_update@, inflated@),
    ensures
        final(image)@.wf(),
        r is Ok,
        ({
            let (v, areas) = bitmaps_applied(
                old(image)@,
                bitmap_update@,
                inflated@,
                *palette,
                bitmap_update@.len(),
            );
            &&& final(image)@ == v
            &&& (r->Ok_0)@ == bitmap_regions(areas)
        }),
{
    let mut rects: Vec<InclusiveRectangle> = Vec::with_capacity(bitmap_update.rectangles.len());
    let ghost start = image@;
    let ghost list = bitmap_update@;
    let mut k: usize = 0;
    while k < bitmap_update.rectangles.len()
        invariant
            k <= bitmap_update.rectangles@.len(),
            list == bitmap_views(bitmap_update.rectangles@),
            start == old(image)@,
            start.wf(),
            bitmaps_fit(start, list, inflated@),
            image@.wf(),
            (image@, rects@) == bitmaps_applied(start, list, inflated@, *palette, k as nat),
        decreases bitmap_update.rectangles@.len() - k,
    {
        let data: Option<&Inflated> = if k < inflated.len() {
            inflated[k].as_ref()
        } else {
            None
        };
        proof {
            lemma_applied_keeps_size(start, list, inflated@, *palette, k as nat);
            assert(bitmap_fits(start, list[k as int], inflated_at(inflated@, k as int)));
            assert(inflated_view(data) == inflated_at(inflated@, k as int));
        }
        let rect: InclusiveRectangle = apply_bitmap_data(image, &bitmap_update.rectangles[k], data, palette)?;
        rects.push(rect);
        k = k + 1;
    }
    let mut updates: Vec<UpdateKind> = Vec::new();
    match combine_rectangles(rects.as_slice()) {
        Some(rect) => {
            updates.push(UpdateKind::Region(rect));
        },
        None => {},
    }
    assert(updates@ =~= bitmap_regions(rects@));
    Ok(updates)
}

} // verus!
