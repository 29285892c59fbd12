//! What the operations on the image do to each pixel, in the bytes of the pixel.

use vstd::prelude::*;

use crate::geometry::InclusiveRectangle;
use crate::image::ImageView;
use crate::pixel_format::{PixelFormat, Rgba};
use crate::raster::{
    blended, byte_index, composited, converted, law_paint_rows_by_pixel, lemma_paint_rows_len, paint_rows,
    Brush, Encoding,
};

verus! {

/// Byte `c` of the pixel in column `x` and row `y`.
pub open spec fn byte_of(v: ImageView, x: int, y: int, c: int) -> u8 {
    v.data[(y * v.width + x) * 4 + c]
}

/// The four bytes of the pixel in column `x` and row `y`.
pub open spec fn bytes_of(v: ImageView, x: int, y: int) -> Seq<u8> {
    seq![byte_of(v, x, y, 0), byte_of(v, x, y, 1), byte_of(v, x, y, 2), byte_of(v, x, y, 3)]
}

/// Whether the image has a pixel in column `x` and row `y`.
pub open spec fn on_screen(v: ImageView, x: int, y: int) -> bool {
    0 <= x < v.width && 0 <= y < v.height
}

/// A colour in the four bytes of a pixel format.
pub open spec fn color_bytes(format: PixelFormat, r: u8, g: u8, b: u8, a: u8) -> Seq<u8> {
    match format {
        PixelFormat::ARgb32 => seq![a, r, g, b],
        PixelFormat::XRgb32 => seq![a, r, g, b],
        PixelFormat::ABgr32 => seq![a, b, g, r],
        PixelFormat::XBgr32 => seq![a, b, g, r],
        PixelFormat::BgrA32 => seq![b, g, r, a],
        PixelFormat::BgrX32 => seq![b, g, r, a],
        PixelFormat::RgbA32 => seq![r, g, b, a],
        PixelFormat::RgbX32 => seq![r, g, b, a],
    }
}

/// Whether a pixel format has a byte for opacity.
pub open spec fn tells_opacity(format: PixelFormat) -> bool {
    format is ARgb32 || format is ABgr32 || format is BgrA32 || format is RgbA32
}

/// Whether two pixel formats put red, green and blue at the same places.
pub open spec fn same_order(a: PixelFormat, b: PixelFormat) -> bool {
    color_bytes(a, 1, 2, 3, 4) =~= color_bytes(b, 1, 2, 3, 4)
}

/// Reading a pixel gives back the colour that was written, opaque where the format knows no opacity.
pub proof fn law_color_is_read_back(format: PixelFormat, bytes: Seq<u8>, at: int, r: u8, g: u8, b: u8, a: u8)
    requires
        forall|c: int| 0 <= c < 4 ==> bytes[at + c] == #[trigger] color_bytes(format, r, g, b, a)[c],
    ensures
        format.color_at(bytes, at) == (Rgba {
            r,
            g,
            b,
            a: if tells_opacity(format) {
                a
            } else {
                255
            },
        }),
{
    let w = color_bytes(format, r, g, b, a);
    assert(bytes[at + 0] == w[0] && bytes[at + 1] == w[1] && bytes[at + 2] == w[2] && bytes[at + 3] == w[3]);
}

/// The bytes that a colour becomes in an image of some format.
pub proof fn law_color_is_written(format: PixelFormat, color: Rgba, c: int)
    requires
        0 <= c < 4,
    ensures
        format.offsets().byte(color, c) == color_bytes(format, color.r, color.g, color.b, color.a)[c],
{
}

/// Two formats have the same places for their channels exactly where they order them alike.
pub proof fn law_formats_are_told_apart(a: PixelFormat, b: PixelFormat)
    ensures
        (a.offsets() == b.offsets()) == same_order(a, b),
{
    let x = color_bytes(a, 1, 2, 3, 4);
    let y = color_bytes(b, 1, 2, 3, 4);
    assert(x[0] == y[0] && x[1] == y[1] && x[2] == y[2] && x[3] == y[3] ==> x =~= y);
}

pub proof fn lemma_on_screen(v: ImageView, x: int, y: int)
    requires
        v.sized(),
        on_screen(v, x, y),
    ensures
        0 <= (y * v.width + x) * 4,
        (y * v.width + x) * 4 + 4 <= v.data.len(),
{
    let w = v.width as int;
    let h = v.height as int;
    assert(0 <= y * w && y * w + w <= w * h) by (nonlinear_arith)
        requires
            0 <= y,
            y + 1 <= h,
            0 <= w,
    ;
}

/// Painting changes the pixels of an area, each byte as the brush says, and no other.
pub proof fn lemma_painted_bytes(
    v: ImageView,
    data: Seq<u8>,
    left: int,
    top: int,
    count: int,
    rows: nat,
    brush: Brush,
    x: int,
    y: int,
)
    requires
        v.sized(),
        data.len() == v.data.len(),
        on_screen(v, x, y),
        0 <= left,
        0 <= top,
        0 <= count,
        left + count <= v.width,
    ensures
        paint_rows(data, top * v.width + left, v.width as int, count, rows, brush).len() == data.len(),
        forall|c: int|
            #![trigger paint_rows(data, top * v.width + left, v.width as int, count, rows, brush)[(y * v.width + x)
                * 4 + c]]
            0 <= c < 4 ==> paint_rows(data, top * v.width + left, v.width as int, count, rows, brush)[(y * v.width
                + x) * 4 + c] == (if left <= x < left + count && top <= y < top + rows {
                brush(y - top, x - left, c, data[(y * v.width + x) * 4 + c])
            } else {
                data[(y * v.width + x) * 4 + c]
            }),
{
    let w = v.width as int;
    lemma_on_screen(v, x, y);
    lemma_paint_rows_len(data, top * w + left, w, count, rows, brush);
    assert forall|c: int|
        #![trigger paint_rows(data, top * v.width + left, v.width as int, count, rows, brush)[(y * v.width + x) * 4
            + c]]
        0 <= c < 4 implies paint_rows(data, top * v.width + left, v.width as int, count, rows, brush)[(y * v.width
        + x) * 4 + c] == (if left <= x < left + count && top <= y < top + rows {
        brush(y - top, x - left, c, data[(y * v.width + x) * 4 + c])
    } else {
        data[(y * v.width + x) * 4 + c]
    }) by {
        law_paint_rows_by_pixel(data, left, top, w, count, rows, brush, x, y, c);
        assert(byte_index(w, x, y, c) == (y * v.width + x) * 4 + c);
    }
}

/// Whether one of the rectangles covers column `x` and row `y`.
pub open spec fn some_covers(parts: Seq<InclusiveRectangle>, x: int, y: int) -> bool {
    exists|k: int|
        0 <= k < parts.len() && (#[trigger] parts[k]).left <= x <= parts[k].right && parts[k].top <= y
            <= parts[k].bottom
}

/// The bytes that a pixel of a tile becomes, read from byte `at` of the tile: as they are where the
/// image orders its channels like the tile, channel by channel otherwise.
pub open spec fn tile_bytes(tile: Seq<u8>, from: PixelFormat, to: PixelFormat, at: int) -> Seq<u8> {
    let (p, q, r, s) = (tile[at], tile[at + 1], tile[at + 2], tile[at + 3]);
    if same_order(from, to) {
        seq![p, q, r, s]
    } else if from is ARgb32 {
        color_bytes(to, q, r, s, p)
    } else if from is XRgb32 {
        color_bytes(to, q, r, s, 255)
    } else if from is ABgr32 {
        color_bytes(to, s, r, q, p)
    } else if from is XBgr32 {
        color_bytes(to, s, r, q, 255)
    } else if from is BgrA32 {
        color_bytes(to, r, q, p, s)
    } else if from is BgrX32 {
        color_bytes(to, r, q, p, 255)
    } else if from is RgbA32 {
        color_bytes(to, p, q, r, s)
    } else {
        color_bytes(to, p, q, r, 255)
    }
}

proof fn lemma_tile_bytes(tile: Seq<u8>, from: PixelFormat, to: PixelFormat, at: int, c: int)
    requires
        0 <= c < 4,
    ensures
        ({
            let encoding = if from.offsets() == to.offsets() {
                Encoding::Raw32
            } else {
                Encoding::Color32(from)
            };
            encoding.byte(tile, at, to, c) == tile_bytes(tile, from, to, at)[c]
        }),
{
    law_formats_are_told_apart(from, to);
}

#[verifier::spinoff_prover]
#[verifier::rlimit(60)]
proof fn lemma_tile_parts(
    v: ImageView,
    data: Seq<u8>,
    tile: Seq<u8>,
    format: PixelFormat,
    parts: Seq<InclusiveRectangle>,
    place: InclusiveRectangle,
    n: nat,
    x: int,
    y: int,
)
    requires
        v.sized(),
        data.len() == v.data.len(),
        on_screen(v, x, y),
        n <= parts.len(),
        forall|k: int| 0 <= k < parts.len() ==> is_part(v, #[trigger] parts[k], place),
    ensures
        v.tile_parts(data, tile, format, parts, place, n).len() == data.len(),
        forall|c: int|
            #![trigger v.tile_parts(data, tile, format, parts, place, n)[(y * v.width + x) * 4 + c]]
            0 <= c < 4 ==> v.tile_parts(data, tile, format, parts, place, n)[(y * v.width + x) * 4 + c] == (
            if some_covers(parts.take(n as int), x, y) {
                tile_bytes(tile, format, v.format, ((y - place.top) * 64 + (x - place.left)) * 4)[c]
            } else {
                data[(y * v.width + x) * 4 + c]
            }),
    decreases n,
{
    if n > 0 {
        let m = (n - 1) as nat;
        lemma_tile_parts(v, data, tile, format, parts, place, m, x, y);
        let before = v.tile_parts(data, tile, format, parts, place, m);
        let part = parts[n - 1];
        assert(is_part(v, part, place));
        let encoding = if format.offsets() == v.format.offsets() {
            Encoding::Raw32
        } else {
            Encoding::Color32(format)
        };
        let first = (part.top - place.top) * 64 + (part.left - place.left);
        let brush = converted(tile, encoding, first, 64, v.format);
        lemma_painted_bytes(
            v,
            before,
            part.left as int,
            part.top as int,
            part.columns(),
            part.rows() as nat,
            brush,
            x,
            y,
        );
        let inside = part.left <= x <= part.right && part.top <= y <= part.bottom;
        let at = ((y - place.top) * 64 + (x - place.left)) * 4;
        assert((first + (y - part.top) * 64 + (x - part.left)) * 4 == at);
        assert forall|c: int|
            #![trigger v.tile_parts(data, tile, format, parts, place, n)[(y * v.width + x) * 4 + c]]
            0 <= c < 4 implies v.tile_parts(data, tile, format, parts, place, n)[(y * v.width + x) * 4 + c] == (
        if some_covers(parts.take(n as int), x, y) {
            tile_bytes(tile, format, v.format, at)[c]
        } else {
            data[(y * v.width + x) * 4 + c]
        }) by {
            lemma_tile_bytes(tile, format, v.format, at, c);
            assert(before[(y * v.width + x) * 4 + c] == before[(y * v.width + x) * 4 + c]);
            assert(parts.take(n as int)[n - 1] == part);
            if some_covers(parts.take(m as int), x, y) {
                let k = choose|k: int|
                    0 <= k < m && (#[trigger] parts.take(m as int)[k]).left <= x <= parts.take(m as int)[k].right
                        && parts.take(m as int)[k].top <= y <= parts.take(m as int)[k].bottom;
                assert(parts.take(n as int)[k] == parts.take(m as int)[k]);
            }
            if !inside && some_covers(parts.take(n as int), x, y) {
                let k = choose|k: int|
                    0 <= k < n && (#[trigger] parts.take(n as int)[k]).left <= x <= parts.take(n as int)[k].right
                        && parts.take(n as int)[k].top <= y <= parts.take(n as int)[k].bottom;
                assert(k < m);
                assert(parts.take(n as int)[k] == parts.take(m as int)[k]);
            }
        }
    } else {
        assert(!some_covers(parts.take(0), x, y));
    }
}

/// Whether a rectangle lies in the image, at or behind the corner of a tile.
pub open spec fn is_part(v: ImageView, part: InclusiveRectangle, place: InclusiveRectangle) -> bool {
    &&& place.left <= part.left <= part.right < v.width
    &&& place.top <= part.top <= part.bottom < v.height
}

/// A tile is laid on the image with its corner at the corner of `place`: a pixel in one of the visible
/// rectangles takes the pixel of the tile that lies over it, 64 pixels to the row, and any other pixel
/// stays.
pub proof fn law_tile_by_pixel(
    v: ImageView,
    tile: Seq<u8>,
    format: PixelFormat,
    extents: InclusiveRectangle,
    parts: Seq<InclusiveRectangle>,
    place: InclusiveRectangle,
    x: int,
    y: int,
)
    requires
        v.wf(),
        extents.right < v.width,
        extents.bottom < v.height,
        !v.covers(extents),
        forall|k: int| 0 <= k < parts.len() ==> is_part(v, #[trigger] parts[k], place),
        on_screen(v, x, y),
    ensures
        bytes_of(v.tiled(tile, format, extents, parts, place).0, x, y) == (if some_covers(parts, x, y) {
            tile_bytes(tile, format, v.format, ((y - place.top) * 64 + (x - place.left)) * 4)
        } else {
            bytes_of(v, x, y)
        }),
        v.tiled(tile, format, extents, parts, place).1 == extents,
{
    lemma_tile_parts(v, v.data, tile, format, parts, place, parts.len(), x, y);
    assert(parts.take(parts.len() as int) =~= parts);
    let after = v.tiled(tile, format, extents, parts, place).0;
    assert(after.data == v.tile_parts(v.data, tile, format, parts, place, parts.len()));
    if some_covers(parts, x, y) {
        assert(bytes_of(after, x, y) =~= tile_bytes(
            tile,
            format,
            v.format,
            ((y - place.top) * 64 + (x - place.left)) * 4,
        ));
    } else {
        assert(bytes_of(after, x, y) =~= bytes_of(v, x, y));
    }
}

/// A tile that reaches out of the image changes nothing.
pub proof fn law_tile_outside(
    v: ImageView,
    tile: Seq<u8>,
    format: PixelFormat,
    extents: InclusiveRectangle,
    parts: Seq<InclusiveRectangle>,
    place: InclusiveRectangle,
)
    requires
        extents.right >= v.width || extents.bottom >= v.height,
    ensures
        v.tiled(tile, format, extents, parts, place).0 == v,
{
}

/// Where on the pointer bitmap, told by column and row, the pixel in column `x` and row `y` of the image
/// lies, for an image whose pointer is placed.
pub open spec fn pointer_column(v: ImageView, x: int) -> int {
    v.src.left + (x - v.draw_x)
}

pub open spec fn pointer_row(v: ImageView, y: int) -> int {
    v.src.top + (y - v.draw_y)
}

/// Whether the part of the pointer that is on the screen lies over the pixel.
pub open spec fn under_pointer(v: ImageView, x: int, y: int) -> bool {
    &&& v.src.left <= pointer_column(v, x) <= v.src.right
    &&& v.src.top <= pointer_row(v, y) <= v.src.bottom
}

/// What the pixel `old` becomes under a pointer pixel. A transparent pixel leaves it, but for white, which
/// inverts it; an opaque pixel hides it; any other lets as much of it through as it is not opaque. The
/// fourth byte stays, but for the inverted pixel, which is opaque.
pub open spec fn seen_through(r: u8, g: u8, b: u8, a: u8, old: Seq<u8>) -> Seq<u8> {
    if a == 0 && r == 255 && g == 255 && b == 255 {
        seq![(255 - old[0]) as u8, (255 - old[1]) as u8, (255 - old[2]) as u8, 255]
    } else if a == 0 {
        old
    } else if a == 255 {
        seq![r, g, b, old[3]]
    } else {
        seq![
            (r + old[0] * (255 - a) / 256) as u8,
            (g + old[1] * (255 - a) / 256) as u8,
            (b + old[2] * (255 - a) / 256) as u8,
            old[3],
        ]
    }
}

/// Drawing the pointer changes the pixels under it, each by the pixel of the pointer bitmap that lies over
/// it, and no other.
#[verifier::spinoff_prover]
#[verifier::rlimit(60)]
pub proof fn law_pointer_by_pixel(v: ImageView, x: int, y: int)
    requires
        v.sized(),
        v.visible,
        v.pointer is Some,
        on_screen(v, x, y),
    ensures
        ({
            let p = v.pointer->Some_0;
            let at = (pointer_row(v, y) * p.width + pointer_column(v, x)) * 4;
            bytes_of(v.drawn().0, x, y) == (if under_pointer(v, x, y) {
                seen_through(p.bitmap[at], p.bitmap[at + 1], p.bitmap[at + 2], p.bitmap[at + 3], bytes_of(v, x, y))
            } else {
                bytes_of(v, x, y)
            })
        }),
{
    let p = v.pointer->Some_0;
    let pw = p.width as int;
    let first = v.src.top * pw + v.src.left;
    let over = composited(p.bitmap, first, pw);
    lemma_on_screen(v, x, y);
    lemma_painted_bytes(v, v.data, v.draw_x as int, v.draw_y as int, v.cols(), v.rows() as nat, over, x, y);
    let row = y - v.draw_y;
    let column = x - v.draw_x;
    let at = (pointer_row(v, y) * pw + pointer_column(v, x)) * 4;
    assert((first + row * pw + column) * 4 == at) by (nonlinear_arith)
        requires
            first == v.src.top * pw + v.src.left,
            at == ((v.src.top + row) * pw + (v.src.left + column)) * 4,
    ;
    let (r, g, b, a) = (p.bitmap[at], p.bitmap[at + 1], p.bitmap[at + 2], p.bitmap[at + 3]);
    let old_bytes = bytes_of(v, x, y);
    let after = v.drawn().0;
    if under_pointer(v, x, y) {
        let base = (y * v.width + x) * 4;
        assert forall|c: int| 0 <= c < 4 implies #[trigger] after.data[base + c] == seen_through(
            r,
            g,
            b,
            a,
            old_bytes,
        )[c] by {
            assert(after.data[base + c] == over(row, column, c, v.data[base + c]));
            assert(over(row, column, c, v.data[base + c]) == blended(r, g, b, a, c, v.data[base + c]));
            assert(old_bytes[c] == v.data[base + c]);
            if a == 255 {
                assert(v.data[base + c] * (255 - a) == 0) by (nonlinear_arith)
                    requires
                        a == 255,
                ;
            }
        }
        assert(after.data[base + 0] == bytes_of(after, x, y)[0]);
        assert(after.data[base + 1] == bytes_of(after, x, y)[1]);
        assert(after.data[base + 2] == bytes_of(after, x, y)[2]);
        assert(after.data[base + 3] == bytes_of(after, x, y)[3]);
        assert(bytes_of(after, x, y) =~= seen_through(r, g, b, a, old_bytes));
    } else {
        assert(bytes_of(after, x, y) =~= old_bytes);
    }
}

/// A pointer pixel without opacity leaves the pixel under it alone, unless it is white.
pub proof fn law_transparent_pixels_are_not_seen(v: ImageView, x: int, y: int)
    requires
        v.sized(),
        v.visible,
        v.pointer is Some,
        on_screen(v, x, y),
        under_pointer(v, x, y) ==> {
            let p = v.pointer->Some_0;
            let at = (pointer_row(v, y) * p.width + pointer_column(v, x)) * 4;
            p.bitmap[at + 3] == 0 && !(p.bitmap[at] == 255 && p.bitmap[at + 1] == 255 && p.bitmap[at + 2] == 255)
        },
    ensures
        bytes_of(v.drawn().0, x, y) == bytes_of(v, x, y),
{
    law_pointer_by_pixel(v, x, y);
}

/// A pointer that is transparent throughout, and nowhere white, leaves the image as it is.
#[verifier::spinoff_prover]
#[verifier::rlimit(60)]
pub proof fn law_transparent_pointer_is_not_seen(v: ImageView)
    requires
        v.sized(),
        v.visible,
        v.pointer is Some,
        forall|p: int|
            #![trigger v.pointer->Some_0.bitmap[4 * p + 3]]
            v.pointer->Some_0.bitmap[4 * p + 3] == 0 && v.pointer->Some_0.bitmap[4 * p] == 0,
    ensures
        v.drawn().0.data == v.data,
{
    if v.data.len() > 0 {
        let after = v.drawn().0;
        let w = v.width as int;
        let p = v.pointer->Some_0;
        let first = v.src.top * p.width + v.src.left;
        lemma_paint_rows_len(
            v.data,
            v.corner(),
            w,
            v.cols(),
            v.rows() as nat,
            composited(p.bitmap, first, p.width as int),
        );
        assert forall|i: int| 0 <= i < v.data.len() implies after.data[i] == v.data[i] by {
            let h = v.height as int;
            assert(w > 0) by (nonlinear_arith)
                requires
                    w * h * 4 > 0,
                    w >= 0,
            ;
            let q = i / 4;
            let (x, y, c) = (q % w, q / w, i % 4);
            vstd::arithmetic::div_mod::lemma_fundamental_div_mod(q, w);
            vstd::arithmetic::div_mod::lemma_mod_bound(q, w);
            assert(0 <= y < h && q == y * w + x) by (nonlinear_arith)
                requires
                    q == w * y + x,
                    0 <= x < w,
                    0 <= q < w * h,
                    w > 0,
            ;
            law_pointer_by_pixel(v, x, y);
            let n = pointer_row(v, y) * p.width + pointer_column(v, x);
            assert(p.bitmap[4 * n + 3] == 0);
            assert(bytes_of(after, x, y)[c] == bytes_of(v, x, y)[c]);
            assert(byte_of(after, x, y, c) == byte_of(v, x, y, c));
        }
        assert(after.data =~= v.data);
    }
}

} // verus!
