//! What each call on the image does to each of its pixels.

use vstd::prelude::*;

use crate::bitmap_laws::{
    bitmap_pixel, is_free, lemma_bitmap_bytes, lemma_bitmapped, row_len, Written,
};
use crate::drawing_laws::{
    complement, cut_box, from_edge, law_copy_by_source, law_lined_by_pixel, on_line,
};
use crate::error::{SessionError, SessionResult};
use crate::geometry::InclusiveRectangle;
use crate::image::{DecodedImage, ImageView};
use crate::palette::ColorPalette;
use crate::pixel_format::PixelFormat;
use crate::pixel_laws::{
    byte_of, bytes_of, color_bytes, is_part, law_color_is_read_back, law_tile_by_pixel, lemma_on_screen,
    lemma_painted_bytes, on_screen, some_covers, tells_opacity, tile_bytes,
};
use crate::raster::{inverted, paint_rows, solid, Encoding};

verus! {

/// A new image is black and transparent throughout, of the size and format that were asked for, without a
/// pointer.
pub proof fn law_new_image(format: PixelFormat, width: u16, height: u16, r: DecodedImage, i: int)
    requires
        width * height * 4 <= usize::MAX,
        call_ensures(DecodedImage::new, (format, width, height), r),
        0 <= i < width * height * 4,
    ensures
        r@.format == format,
        r@.width == width,
        r@.height == height,
        r@.data.len() == width * height * 4,
        r@.data[i] == 0,
        r@.pointer is None,
        !r@.shown,
        r@.x == 0 && r@.y == 0,
{
}

/// The bytes from the first pixel of a rectangle to its last, row after row of the image.
pub proof fn law_data_for_rect(image: &DecodedImage, rect: InclusiveRectangle, r: &[u8], x: int, y: int, c: int)
    requires
        image@.wf(),
        rect.left <= rect.right < image@.width,
        rect.top <= rect.bottom < image@.height,
        call_ensures(DecodedImage::data_for_rect, (image, &rect), r),
        rect.left <= x <= rect.right,
        rect.top <= y <= rect.bottom,
        0 <= c < 4,
    ensures
        ({
            let at = ((y - rect.top) * image@.width + (x - rect.left)) * 4 + c;
            &&& 0 <= at < r@.len()
            &&& r@[at] == byte_of(image@, x, y, c)
            &&& x == rect.right && y == rect.bottom && c == 3 ==> r@.len() == at + 1
        }),
{
    let v = image@;
    let w = v.width as int;
    lemma_on_screen(v, x, y);
    lemma_on_screen(v, rect.right as int, rect.bottom as int);
    lemma_on_screen(v, rect.left as int, rect.top as int);
    let at = ((y - rect.top) * w + (x - rect.left)) * 4 + c;
    let first = (rect.top * w + rect.left) * 4;
    let (t, l, b, rt) = (rect.top as int, rect.left as int, rect.bottom as int, rect.right as int);
    assert(first + at == (y * w + x) * 4 + c) by (nonlinear_arith)
        requires
            first == (t * w + l) * 4,
            at == ((y - t) * w + (x - l)) * 4 + c,
    ;
    assert(0 <= (y - t) * w) by (nonlinear_arith)
        requires
            y >= t,
            w >= 0,
    ;
    assert(y * w <= b * w && (y == b ==> y * w == b * w)) by (nonlinear_arith)
        requires
            y <= b,
            w >= 0,
    ;
}

/// Filling a rectangle of the image gives its pixels the four bytes of the colour, and changes no other.
pub proof fn law_fill_rectangle(
    image: &mut DecodedImage,
    rect: InclusiveRectangle,
    color: [u8; 4],
    r: SessionResult<InclusiveRectangle>,
    x: int,
    y: int,
)
    requires
        old(image)@.wf(),
        rect.left <= rect.right < old(image)@.width,
        rect.top <= rect.bottom < old(image)@.height,
        !old(image)@.covers(rect),
        call_ensures(DecodedImage::fill_rectangle, (image, &rect, color), r),
        on_screen(old(image)@, x, y),
    ensures
        r == Ok::<InclusiveRectangle, SessionError>(rect),
        bytes_of(final(image)@, x, y) == (if rect.left <= x <= rect.right && rect.top <= y <= rect.bottom {
            color@
        } else {
            bytes_of(old(image)@, x, y)
        }),
{
    let v = old(image)@;
    lemma_on_screen(v, x, y);
    lemma_painted_bytes(
        v,
        v.data,
        rect.left as int,
        rect.top as int,
        rect.columns(),
        rect.rows() as nat,
        solid(color@),
        x,
        y,
    );
    let after = v.filled(rect, color@).0;
    if rect.left <= x <= rect.right && rect.top <= y <= rect.bottom {
        assert(bytes_of(after, x, y) =~= color@);
    } else {
        assert(bytes_of(after, x, y) =~= bytes_of(v, x, y));
    }
}

/// Inverting a rectangle of the image turns the first three bytes of its pixels into their complement, and
/// changes no other pixel.
pub proof fn law_invert_rectangle(
    image: &mut DecodedImage,
    rect: InclusiveRectangle,
    r: SessionResult<InclusiveRectangle>,
    x: int,
    y: int,
)
    requires
        old(image)@.wf(),
        rect.left <= rect.right < old(image)@.width,
        rect.top <= rect.bottom < old(image)@.height,
        !old(image)@.covers(rect),
        call_ensures(DecodedImage::invert_rectangle, (image, &rect), r),
        on_screen(old(image)@, x, y),
    ensures
        r == Ok::<InclusiveRectangle, SessionError>(rect),
        bytes_of(final(image)@, x, y) == (if rect.left <= x <= rect.right && rect.top <= y <= rect.bottom {
            complement(bytes_of(old(image)@, x, y))
        } else {
            bytes_of(old(image)@, x, y)
        }),
{
    let v = old(image)@;
    lemma_on_screen(v, x, y);
    lemma_painted_bytes(
        v,
        v.data,
        rect.left as int,
        rect.top as int,
        rect.columns(),
        rect.rows() as nat,
        inverted(),
        x,
        y,
    );
    let after = v.flipped(rect).0;
    if rect.left <= x <= rect.right && rect.top <= y <= rect.bottom {
        assert(bytes_of(after, x, y) =~= complement(bytes_of(v, x, y)));
    } else {
        assert(bytes_of(after, x, y) =~= bytes_of(v, x, y));
    }
}

/// Copying a rectangle gives its pixels what was at their source before, where that is in the image, and
/// changes no other.
pub proof fn law_copy_rectangle(
    image: &mut DecodedImage,
    src_x: i16,
    src_y: i16,
    rect: InclusiveRectangle,
    r: SessionResult<InclusiveRectangle>,
    x: int,
    y: int,
)
    requires
        old(image)@.wf(),
        rect.left <= rect.right < 0xFFFF,
        rect.top <= rect.bottom < 0xFFFF,
        !old(image)@.covers(rect),
        call_ensures(DecodedImage::copy_rectangle, (image, src_x, src_y, &rect), r),
        on_screen(old(image)@, x, y),
    ensures
        r == Ok::<InclusiveRectangle, SessionError>(rect),
        ({
            let v = old(image)@;
            let from_x = from_edge(src_x as int) + x - rect.left;
            let from_y = from_edge(src_y as int) + y - rect.top;
            let inside = rect.left <= x <= rect.right && rect.top <= y <= rect.bottom;
            bytes_of(final(image)@, x, y) == (if inside && on_screen(v, from_x, from_y) {
                bytes_of(v, from_x, from_y)
            } else {
                bytes_of(v, x, y)
            })
        }),
{
    law_copy_by_source(old(image)@, src_x, src_y, rect, x, y);
}

/// Drawing a line gives its pixels the four bytes of the colour, and changes no other.
pub proof fn law_draw_line(
    image: &mut DecodedImage,
    x0: i16,
    y0: i16,
    x1: i16,
    y1: i16,
    color: [u8; 4],
    r: SessionResult<InclusiveRectangle>,
    x: int,
    y: int,
)
    requires
        old(image)@.wf(),
        old(image)@.width <= 0x8000,
        old(image)@.height <= 0x8000,
        !old(image)@.covers(cut_box(old(image)@, x0, y0, x1, y1)),
        call_ensures(DecodedImage::draw_line, (image, x0, y0, x1, y1, color), r),
        on_screen(old(image)@, x, y),
    ensures
        r == Ok::<InclusiveRectangle, SessionError>(cut_box(old(image)@, x0, y0, x1, y1)),
        bytes_of(final(image)@, x, y) == (if on_line(x0 as int, y0 as int, x1 as int, y1 as int, x, y) {
            color@
        } else {
            bytes_of(old(image)@, x, y)
        }),
{
    law_lined_by_pixel(old(image)@, x0, y0, x1, y1, color@, x, y);
}

/// Laying a tile on the image gives the pixels of the visible rectangles the pixels of the tile over them,
/// and changes no other.
pub proof fn law_apply_tile(
    image: &mut DecodedImage,
    tile: &[u8],
    format: PixelFormat,
    extents: InclusiveRectangle,
    region: &[InclusiveRectangle],
    place: InclusiveRectangle,
    r: SessionResult<InclusiveRectangle>,
    x: int,
    y: int,
)
    requires
        old(image)@.wf(),
        extents.right < old(image)@.width,
        extents.bottom < old(image)@.height,
        !old(image)@.covers(extents),
        forall|k: int| 0 <= k < region@.len() ==> is_part(old(image)@, #[trigger] region@[k], place),
        call_ensures(DecodedImage::apply_tile, (image, tile, format, &extents, region, &place), r),
        on_screen(old(image)@, x, y),
    ensures
        r == Ok::<InclusiveRectangle, SessionError>(extents),
        bytes_of(final(image)@, x, y) == (if some_covers(region@, x, y) {
            tile_bytes(
                tile@,
                format,
                old(image)@.format,
                ((y - place.top) * 64 + (x - place.left)) * 4,
            )
        } else {
            bytes_of(old(image)@, x, y)
        }),
{
    law_tile_by_pixel(old(image)@, tile@, format, extents, region@, place, x, y);
}

/// Whether a bitmap of whole rows fits a rectangle of the image that the pointer does not cover.
pub open spec fn is_ready(
    v: ImageView,
    written: Written,
    len: nat,
    rect: InclusiveRectangle,
    rows: int,
    x: int,
    y: int,
) -> bool {
    &&& v.wf()
    &&& is_free(v, rect, rows)
    &&& rows * row_len(rect, written) <= len < (rows + 1) * row_len(rect, written)
    &&& on_screen(v, x, y)
}

/// What a bitmap of whole rows makes of a pixel.
pub open spec fn bitmap_result(
    v: ImageView,
    written: Written,
    palette: ColorPalette,
    data: Seq<u8>,
    rect: InclusiveRectangle,
    rows: int,
    down: bool,
    x: int,
    y: int,
) -> Seq<u8> {
    bitmap_pixel(v, written, palette, data, row_len(rect, written), rect, rows, down, x, y)
}

/// A bitmap of 16 bits per pixel stands on its head.
pub proof fn law_apply_rgb16_bitmap(
    image: &mut DecodedImage,
    data: &[u8],
    rect: InclusiveRectangle,
    r: SessionResult<InclusiveRectangle>,
    palette: ColorPalette,
    rows: int,
    x: int,
    y: int,
)
    requires
        is_ready(old(image)@, Written::Bits16, data@.len(), rect, rows, x, y),
        call_ensures(DecodedImage::apply_rgb16_bitmap, (image, data, &rect), r),
    ensures
        r == Ok::<InclusiveRectangle, SessionError>(rect),
        bytes_of(final(image)@, x, y) == bitmap_result(
            old(image)@,
            Written::Bits16,
            palette,
            data@,
            rect,
            rows,
            false,
            x,
            y,
        ),
{
    lemma_bitmapped(old(image)@, Written::Bits16, &palette, data@, rect, rows, false, x, y);
}

/// A bitmap of 15 bits per pixel stands on its head.
pub proof fn law_apply_rgb15_bitmap(
    image: &mut DecodedImage,
    data: &[u8],
    rect: InclusiveRectangle,
    r: SessionResult<InclusiveRectangle>,
    palette: ColorPalette,
    rows: int,
    x: int,
    y: int,
)
    requires
        is_ready(old(image)@, Written::Bits15, data@.len(), rect, rows, x, y),
        call_ensures(DecodedImage::apply_rgb15_bitmap, (image, data, &rect), r),
    ensures
        r == Ok::<InclusiveRectangle, SessionError>(rect),
        bytes_of(final(image)@, x, y) == bitmap_result(
            old(image)@,
            Written::Bits15,
            palette,
            data@,
            rect,
            rows,
            false,
            x,
            y,
        ),
{
    lemma_bitmapped(old(image)@, Written::Bits15, &palette, data@, rect, rows, false, x, y);
}

/// A bitmap of blue, green and red stands on its head.
pub proof fn law_apply_bgr24_bitmap(
    image: &mut DecodedImage,
    data: &[u8],
    rect: InclusiveRectangle,
    r: SessionResult<InclusiveRectangle>,
    palette: ColorPalette,
    rows: int,
    x: int,
    y: int,
)
    requires
        is_ready(old(image)@, Written::BlueGreenRed, data@.len(), rect, rows, x, y),
        call_ensures(DecodedImage::apply_bgr24_bitmap, (image, data, &rect), r),
    ensures
        r == Ok::<InclusiveRectangle, SessionError>(rect),
        bytes_of(final(image)@, x, y) == bitmap_result(
            old(image)@,
            Written::BlueGreenRed,
            palette,
            data@,
            rect,
            rows,
            false,
            x,
            y,
        ),
{
    lemma_bitmapped(old(image)@, Written::BlueGreenRed, &palette, data@, rect, rows, false, x, y);
}

/// A bitmap of red, green and blue stands on its head if it is flipped, and only then.
pub proof fn law_apply_rgb24(
    image: &mut DecodedImage,
    data: &[u8],
    rect: InclusiveRectangle,
    flip: bool,
    r: SessionResult<InclusiveRectangle>,
    palette: ColorPalette,
    rows: int,
    x: int,
    y: int,
)
    requires
        is_ready(old(image)@, Written::RedGreenBlue, data@.len(), rect, rows, x, y),
        call_ensures(DecodedImage::apply_rgb24, (image, data, &rect, flip), r),
    ensures
        r == Ok::<InclusiveRectangle, SessionError>(rect),
        bytes_of(final(image)@, x, y) == bitmap_result(
            old(image)@,
            Written::RedGreenBlue,
            palette,
            data@,
            rect,
            rows,
            !flip,
            x,
            y,
        ),
{
    lemma_bitmapped(old(image)@, Written::RedGreenBlue, &palette, data@, rect, rows, !flip, x, y);
}

/// A bitmap of red, green, blue and opacity stands on its head if it is flipped, and only then.
pub proof fn law_apply_rgba32(
    image: &mut DecodedImage,
    data: &[u8],
    rect: InclusiveRectangle,
    flip: bool,
    r: SessionResult<InclusiveRectangle>,
    palette: ColorPalette,
    rows: int,
    x: int,
    y: int,
)
    requires
        is_ready(old(image)@, Written::RedGreenBlueOpacity, data@.len(), rect, rows, x, y),
        call_ensures(DecodedImage::apply_rgba32, (image, data, &rect, flip), r),
    ensures
        r == Ok::<InclusiveRectangle, SessionError>(rect),
        bytes_of(final(image)@, x, y) == bitmap_result(
            old(image)@,
            Written::RedGreenBlueOpacity,
            palette,
            data@,
            rect,
            rows,
            !flip,
            x,
            y,
        ),
{
    lemma_bitmapped(old(image)@, Written::RedGreenBlueOpacity, &palette, data@, rect, rows, !flip, x, y);
}

/// A bitmap of numbers of palette colours stands on its head.
pub proof fn law_apply_indexed8_bitmap(
    image: &mut DecodedImage,
    data: &[u8],
    palette: ColorPalette,
    rect: InclusiveRectangle,
    r: SessionResult<InclusiveRectangle>,
    rows: int,
    x: int,
    y: int,
)
    requires
        is_ready(old(image)@, Written::Index, data@.len(), rect, rows, x, y),
        call_ensures(DecodedImage::apply_indexed8_bitmap, (image, data, &palette, &rect), r),
    ensures
        r == Ok::<InclusiveRectangle, SessionError>(rect),
        bytes_of(final(image)@, x, y) == bitmap_result(
            old(image)@,
            Written::Index,
            palette,
            data@,
            rect,
            rows,
            false,
            x,
            y,
        ),
{
    lemma_bitmapped(old(image)@, Written::Index, &palette, data@, rect, rows, false, x, y);
}

/// A bitmap of four bytes per pixel in some format stands on its head. Its bytes are taken over where the
/// image has the same format; otherwise each colour is written as the image writes it, opaque where the
/// format of the bitmap knows no opacity.
#[verifier::spinoff_prover]
#[verifier::rlimit(60)]
pub proof fn law_apply_rgb32_bitmap(
    image: &mut DecodedImage,
    data: &[u8],
    format: PixelFormat,
    rect: InclusiveRectangle,
    r: SessionResult<InclusiveRectangle>,
    rows: int,
    x: int,
    y: int,
    red: u8,
    green: u8,
    blue: u8,
    opacity: u8,
)
    requires
        is_ready(old(image)@, Written::RedGreenBlueOpacity, data@.len(), rect, rows, x, y),
        call_ensures(DecodedImage::apply_rgb32_bitmap, (image, data, format, &rect), r),
        rect.left <= x <= rect.right,
        rect.top <= y < rect.top + rows,
        forall|c: int|
            0 <= c < 4 ==> data@[((rect.top + rows - 1 - y) * (rect.right - rect.left + 1) + (x - rect.left)) * 4 + c]
                == #[trigger] color_bytes(format, red, green, blue, opacity)[c],
    ensures
        r == Ok::<InclusiveRectangle, SessionError>(rect),
        bytes_of(final(image)@, x, y) == color_bytes(
            old(image)@.format,
            red,
            green,
            blue,
            if format == old(image)@.format || tells_opacity(format) {
                opacity
            } else {
                255
            },
        ),
{
    let v = old(image)@;
    let encoding = if format == v.format {
        Encoding::Raw32
    } else {
        Encoding::Color32(format)
    };
    let after = v.bitmapped_inside(data@, encoding, rect, true).0;
    let cols = rect.right - rect.left + 1;
    let row = rect.top + rows - 1 - y;
    let at = (row * cols + (x - rect.left)) * 4;
    assert(at == row * (cols * 4) + (x - rect.left) * 4) by (nonlinear_arith)
        requires
            at == (row * cols + (x - rect.left)) * 4,
    ;
    law_color_is_read_back(format, data@, at, red, green, blue, opacity);
    let expected = color_bytes(
        v.format,
        red,
        green,
        blue,
        if format == v.format || tells_opacity(format) {
            opacity
        } else {
            255
        },
    );
    assert(row_len(rect, Written::RedGreenBlueOpacity) == cols * 4);
    lemma_bitmap_bytes(v, encoding, data@, rect, rows, false, x, y, 0);
    lemma_bitmap_bytes(v, encoding, data@, rect, rows, false, x, y, 1);
    lemma_bitmap_bytes(v, encoding, data@, rect, rows, false, x, y, 2);
    lemma_bitmap_bytes(v, encoding, data@, rect, rows, false, x, y, 3);
    let own = color_bytes(format, red, green, blue, opacity);
    assert(data@[at + 0] == own[0] && data@[at + 1] == own[1] && data@[at + 2] == own[2] && data@[at + 3] == own[3]);
    assert(bytes_of(after, x, y) =~= expected);
}

/// A bitmap for a rectangle that reaches out of the image changes nothing.
pub proof fn law_bitmap_outside(
    v: ImageView,
    data: Seq<u8>,
    encoding: Encoding<'_>,
    rect: InclusiveRectangle,
    bottom_up: bool,
)
    requires
        rect.right >= v.width || rect.bottom >= v.height,
    ensures
        v.bitmapped_inside(data, encoding, rect, bottom_up) == (
            v,
            InclusiveRectangle { left: 0, top: 0, right: 0, bottom: 0 },
        ),
{
}

/// How often pixel `at`, counted row after row, is met by the rows of a rectangle. A row that reaches beyond
/// the right edge of the image goes on in the next row of the image.
pub open spec fn times_met(v: ImageView, rect: InclusiveRectangle, n: nat, at: int) -> nat
    decreases n,
{
    if n == 0 {
        0
    } else {
        let start = (rect.top + n - 1) * v.width + rect.left;
        let met = start <= at < start + (rect.right - rect.left + 1);
        times_met(v, rect, (n - 1) as nat, at) + if met {
            1nat
        } else {
            0
        }
    }
}

proof fn lemma_times_met(v: ImageView, rect: InclusiveRectangle, color: Seq<u8>, n: nat, i: int)
    requires
        rect.left <= rect.right < 0xFFFF,
        0 <= i < v.data.len(),
    ensures
        ({
            let first = rect.top * v.width + rect.left;
            let cols = rect.right - rect.left + 1;
            let filled = paint_rows(v.data, first, v.width as int, cols, n, solid(color));
            let flipped = paint_rows(v.data, first, v.width as int, cols, n, inverted());
            &&& filled.len() == v.data.len() && flipped.len() == v.data.len()
            &&& filled[i] == (if times_met(v, rect, n, i / 4) > 0 {
                color[i % 4]
            } else {
                v.data[i]
            })
            &&& flipped[i] == (if times_met(v, rect, n, i / 4) % 2 == 1 && i % 4 < 3 {
                (255 - v.data[i]) as u8
            } else {
                v.data[i]
            })
        }),
    decreases n,
{
    if n > 0 {
        lemma_times_met(v, rect, color, (n - 1) as nat, i);
        let (t, w, l) = (rect.top as int, v.width as int, rect.left as int);
        assert((t + n - 1) * w + l == t * w + l + (n - 1) * w) by (nonlinear_arith);
    }
}

/// Filling and inverting a rectangle in order, wherever it lies: a pixel is filled if a row of the rectangle
/// meets it, and inverted if an odd number of them do.
pub proof fn law_fill_and_invert_anywhere(v: ImageView, rect: InclusiveRectangle, color: Seq<u8>, i: int)
    requires
        rect.left <= rect.right < 0xFFFF,
        rect.top <= rect.bottom < 0xFFFF,
        !v.covers(rect),
        0 <= i < v.data.len(),
    ensures
        ({
            let met = times_met(v, rect, (rect.bottom - rect.top + 1) as nat, i / 4);
            &&& v.filled(rect, color).0.data[i] == (if met > 0 {
                color[i % 4]
            } else {
                v.data[i]
            })
            &&& v.flipped(rect).0.data[i] == (if met % 2 == 1 && i % 4 < 3 {
                (255 - v.data[i]) as u8
            } else {
                v.data[i]
            })
            &&& v.filled(rect, color).1 == rect
            &&& v.flipped(rect).1 == rect
        }),
{
    lemma_times_met(v, rect, color, (rect.bottom - rect.top + 1) as nat, i);
}

/// A pixel has four bytes, and the rows of the image are as many bytes apart as a row has.
pub proof fn law_stride(image: &DecodedImage, stride: usize, size: usize, width: u16, height: u16, format: PixelFormat)
    requires
        call_ensures(DecodedImage::stride, (image,), stride),
        call_ensures(DecodedImage::bytes_per_pixel, (image,), size),
        call_ensures(DecodedImage::width, (image,), width),
        call_ensures(DecodedImage::height, (image,), height),
        call_ensures(DecodedImage::pixel_format, (image,), format),
    ensures
        stride == 4 * image@.width,
        size == 4,
        width == image@.width,
        height == image@.height,
        format == image@.format,
{
}

} // verus!
