//! What primary orders do to each pixel of the image.

use vstd::prelude::*;

use crate::bitmap_cache::CacheView;
use crate::drawing_orders::{
    DeltaPoint, DeltaRect, DstBltOrder, LineToOrder, MultiDstBltView, MultiOpaqueRectView, MultiPatBltView,
    MultiScrBltView, OpaqueRectOrder, OrderDataView, PatBltView, PolylineView, ScrBltOrder,
};
use crate::geometry::InclusiveRectangle;
use crate::image::ImageView;
use crate::line::{lemma_column_and_row, lemma_rounded, lemma_rounded_is_near, Line};
use crate::order_rendering::{
    combined, copied_all, delta_areas, delta_rect, lined_all, operated_all, rect_at, rendered, rgba,
    source_of, vertex, RectOpView,
};
use crate::pixel_laws::{byte_of, bytes_of, lemma_on_screen, lemma_painted_bytes, on_screen};
use crate::raster::{copied, inverted, solid};
use crate::wire::{law_i16_is_read_back, law_u16_is_read_back, stands_at, word};

verus! {

/// A coordinate, or 0 for one left of the image or above it.
pub open spec fn from_edge(at: int) -> int {
    if at < 0 {
        0
    } else {
        at
    }
}

/// The part of a frame that is not left of the image or above it.
pub open spec fn cut_frame(x: i16, y: i16, width: i16, height: i16) -> InclusiveRectangle {
    InclusiveRectangle {
        left: from_edge(x as int) as u16,
        top: from_edge(y as int) as u16,
        right: (x + width - 1) as u16,
        bottom: (y + height - 1) as u16,
    }
}

/// Whether a frame has pixels that are neither left of the image nor above it, and none that are right of
/// it; the pointer is elsewhere.
pub open spec fn is_drawable(v: ImageView, x: i16, y: i16, width: i16, height: i16) -> bool {
    &&& 1 <= width
    &&& 1 <= height
    &&& 1 <= x + width <= v.width
    &&& 1 <= y + height
    &&& !v.covers(cut_frame(x, y, width, height))
}

/// Whether a pixel lies in a frame.
pub open spec fn in_frame(x: i16, y: i16, width: i16, height: i16, px: int, py: int) -> bool {
    x <= px < x + width && y <= py < y + height
}

/// Red, green and blue turned into their complement.
pub open spec fn complement(old: Seq<u8>) -> Seq<u8> {
    seq![(255 - old[0]) as u8, (255 - old[1]) as u8, (255 - old[2]) as u8, old[3]]
}

/// The opaque pixel of a colour with red in its third byte, green in its second and blue in its first.
pub open spec fn opaque_pixel(color: u32) -> Seq<u8> {
    seq![(color / 65536 % 256) as u8, (color / 256 % 256) as u8, (color % 256) as u8, 255]
}

/// The frame of an order, whatever of it is left of the image or above it.
pub proof fn law_frame(x: i16, y: i16, width: i16, height: i16)
    requires
        1 <= width,
        1 <= height,
        1 <= x + width,
        1 <= y + height,
    ensures
        rect_at(x, y, width, height) == cut_frame(x, y, width, height),
{
}

/// A frame that lies left of the image or above it, or is empty, is cut to the edge.
pub proof fn law_frame_is_cut(x: i16, y: i16, width: i16, height: i16)
    ensures
        rect_at(x, y, width, height).left == from_edge(x as int),
        rect_at(x, y, width, height).top == from_edge(y as int),
        rect_at(x, y, width, height).right == from_edge(x + width - 1),
        rect_at(x, y, width, height).bottom == from_edge(y + height - 1),
{
}

proof fn lemma_fill(
    v: ImageView,
    x: i16,
    y: i16,
    width: i16,
    height: i16,
    color: Seq<u8>,
    px: int,
    py: int,
)
    requires
        v.wf(),
        is_drawable(v, x, y, width, height),
        color.len() == 4,
        on_screen(v, px, py),
    ensures
        bytes_of(v.filled(rect_at(x, y, width, height), color).0, px, py) == (if in_frame(
            x,
            y,
            width,
            height,
            px,
            py,
        ) {
            color
        } else {
            bytes_of(v, px, py)
        }),
{
    let r = rect_at(x, y, width, height);
    lemma_on_screen(v, px, py);
    lemma_painted_bytes(
        v,
        v.data,
        r.left as int,
        r.top as int,
        r.columns(),
        r.rows() as nat,
        solid(color),
        px,
        py,
    );
    let after = v.filled(r, color).0;
    if in_frame(x, y, width, height, px, py) {
        assert(bytes_of(after, px, py) =~= color);
    } else {
        assert(bytes_of(after, px, py) =~= bytes_of(v, px, py));
    }
}

proof fn lemma_invert(v: ImageView, x: i16, y: i16, width: i16, height: i16, px: int, py: int)
    requires
        v.wf(),
        is_drawable(v, x, y, width, height),
        on_screen(v, px, py),
    ensures
        bytes_of(v.flipped(rect_at(x, y, width, height)).0, px, py) == (if in_frame(x, y, width, height, px, py) {
            complement(bytes_of(v, px, py))
        } else {
            bytes_of(v, px, py)
        }),
{
    let r = rect_at(x, y, width, height);
    lemma_on_screen(v, px, py);
    lemma_painted_bytes(
        v,
        v.data,
        r.left as int,
        r.top as int,
        r.columns(),
        r.rows() as nat,
        inverted(),
        px,
        py,
    );
    let after = v.flipped(r).0;
    if in_frame(x, y, width, height, px, py) {
        assert(bytes_of(after, px, py) =~= complement(bytes_of(v, px, py)));
    } else {
        assert(bytes_of(after, px, py) =~= bytes_of(v, px, py));
    }
}

/// A DstBlt order makes its frame black, white or its own complement, by its raster operation; any other
/// operation draws nothing. No pixel beside the frame changes.
pub proof fn law_dstblt_by_pixel(v: ImageView, caches: CacheView, o: DstBltOrder, px: int, py: int)
    requires
        v.wf(),
        is_drawable(v, o.x, o.y, o.width, o.height),
        on_screen(v, px, py),
    ensures
        ({
            let (after, area) = rendered(v, caches, OrderDataView::DstBlt(o));
            &&& area == Some(cut_frame(o.x, o.y, o.width, o.height))
            &&& bytes_of(after, px, py) == (if !in_frame(o.x, o.y, o.width, o.height, px, py) {
                bytes_of(v, px, py)
            } else if o.rop == 0x00 {
                seq![0u8, 0, 0, 255]
            } else if o.rop == 0x55 {
                complement(bytes_of(v, px, py))
            } else if o.rop == 0xFF {
                seq![255u8, 255, 255, 255]
            } else {
                bytes_of(v, px, py)
            })
        }),
{
    lemma_invert(v, o.x, o.y, o.width, o.height, px, py);
    lemma_fill(v, o.x, o.y, o.width, o.height, seq![0u8, 0, 0, 255], px, py);
    lemma_fill(v, o.x, o.y, o.width, o.height, seq![255u8, 255, 255, 255], px, py);
}

/// A PatBlt order makes its frame black, white or its own complement, or fills it with the foreground
/// colour of a solid brush.
pub proof fn law_patblt_by_pixel(v: ImageView, caches: CacheView, o: PatBltView, px: int, py: int)
    requires
        v.wf(),
        is_drawable(v, o.x, o.y, o.width, o.height),
        on_screen(v, px, py),
    ensures
        ({
            let (after, area) = rendered(v, caches, OrderDataView::PatBlt(o));
            &&& area == Some(cut_frame(o.x, o.y, o.width, o.height))
            &&& bytes_of(after, px, py) == (if !in_frame(o.x, o.y, o.width, o.height, px, py) {
                bytes_of(v, px, py)
            } else if o.rop == 0x00 {
                seq![0u8, 0, 0, 255]
            } else if o.rop == 0x55 {
                complement(bytes_of(v, px, py))
            } else if o.rop == 0xFF {
                seq![255u8, 255, 255, 255]
            } else if o.brush.style == 0 {
                opaque_pixel(o.fore_color)
            } else {
                bytes_of(v, px, py)
            })
        }),
{
    assert(rgba(o.fore_color) =~= opaque_pixel(o.fore_color));
    lemma_invert(v, o.x, o.y, o.width, o.height, px, py);
    lemma_fill(v, o.x, o.y, o.width, o.height, seq![0u8, 0, 0, 255], px, py);
    lemma_fill(v, o.x, o.y, o.width, o.height, seq![255u8, 255, 255, 255], px, py);
    lemma_fill(v, o.x, o.y, o.width, o.height, opaque_pixel(o.fore_color), px, py);
}

/// An OpaqueRect order fills its frame with its colour.
pub proof fn law_opaque_rect_by_pixel(v: ImageView, caches: CacheView, o: OpaqueRectOrder, px: int, py: int)
    requires
        v.wf(),
        is_drawable(v, o.x, o.y, o.width, o.height),
        on_screen(v, px, py),
    ensures
        ({
            let (after, area) = rendered(v, caches, OrderDataView::OpaqueRect(o));
            &&& area == Some(cut_frame(o.x, o.y, o.width, o.height))
            &&& bytes_of(after, px, py) == (if in_frame(o.x, o.y, o.width, o.height, px, py) {
                opaque_pixel(o.color)
            } else {
                bytes_of(v, px, py)
            })
        }),
{
    assert(rgba(o.color) =~= opaque_pixel(o.color));
    lemma_fill(v, o.x, o.y, o.width, o.height, opaque_pixel(o.color), px, py);
}

/// Where a pixel of the frame of a copy is copied from, in one direction.
pub open spec fn copy_source(source: i16, frame: i16, at: int) -> int {
    from_edge(source as int) + at - from_edge(frame as int)
}

/// A ScrBlt order gives each pixel of its frame what was at its source before, where the source is in the
/// image; no other pixel changes.
pub proof fn law_scrblt_by_pixel(v: ImageView, caches: CacheView, o: ScrBltOrder, px: int, py: int)
    requires
        v.wf(),
        1 <= o.width,
        1 <= o.height,
        1 <= o.x + o.width,
        1 <= o.y + o.height,
        !v.covers(cut_frame(o.x, o.y, o.width, o.height)),
        on_screen(v, px, py),
    ensures
        ({
            let (after, area) = rendered(v, caches, OrderDataView::ScrBlt(o));
            let from_x = copy_source(o.src_x, o.x, px);
            let from_y = copy_source(o.src_y, o.y, py);
            &&& area == Some(cut_frame(o.x, o.y, o.width, o.height))
            &&& bytes_of(after, px, py) == (if in_frame(o.x, o.y, o.width, o.height, px, py) && on_screen(
                v,
                from_x,
                from_y,
            ) {
                bytes_of(v, from_x, from_y)
            } else {
                bytes_of(v, px, py)
            })
        }),
{
    let r = rect_at(o.x, o.y, o.width, o.height);
    law_frame(o.x, o.y, o.width, o.height);
    lemma_copy(v, o.src_x, o.src_y, r, px, py);
}

/// Copying a rectangle of the image gives each of its pixels what was at its source before, where the
/// source is in the image, also where source and destination overlap; no other pixel changes.
pub proof fn law_copy_by_source(v: ImageView, src_x: i16, src_y: i16, r: InclusiveRectangle, px: int, py: int)
    requires
        v.wf(),
        r.left <= r.right,
        r.top <= r.bottom,
        r.right - r.left < 0xFFFF,
        r.bottom - r.top < 0xFFFF,
        !v.covers(r),
        on_screen(v, px, py),
    ensures
        ({
            let (after, area) = v.copied_from(src_x, src_y, r);
            let from_x = from_edge(src_x as int) + px - r.left;
            let from_y = from_edge(src_y as int) + py - r.top;
            &&& area == r
            &&& bytes_of(after, px, py) == (if r.left <= px <= r.right && r.top <= py <= r.bottom && on_screen(
                v,
                from_x,
                from_y,
            ) {
                bytes_of(v, from_x, from_y)
            } else {
                bytes_of(v, px, py)
            })
        }),
{
    lemma_copy(v, src_x, src_y, r, px, py);
}

#[verifier::spinoff_prover]
#[verifier::rlimit(60)]
proof fn lemma_copy(v: ImageView, src_x: i16, src_y: i16, r: InclusiveRectangle, px: int, py: int)
    requires
        v.wf(),
        r.left <= r.right,
        r.top <= r.bottom,
        r.right - r.left < 0xFFFF,
        r.bottom - r.top < 0xFFFF,
        !v.covers(r),
        on_screen(v, px, py),
    ensures
        ({
            let (after, area) = v.copied_from(src_x, src_y, r);
            let from_x = from_edge(src_x as int) + px - r.left;
            let from_y = from_edge(src_y as int) + py - r.top;
            &&& area == r
            &&& bytes_of(after, px, py) == (if r.left <= px <= r.right && r.top <= py <= r.bottom && on_screen(
                v,
                from_x,
                from_y,
            ) {
                bytes_of(v, from_x, from_y)
            } else {
                bytes_of(v, px, py)
            })
        }),
{
    let w = v.width as int;
    let sx = from_edge(src_x as int);
    let sy = from_edge(src_y as int);
    let count = ImageView::copy_size(r.columns(), sx, r.left as int, w);
    let rows = ImageView::copy_size(r.rows(), sy, r.top as int, v.height as int);
    let after = v.copied_from(src_x, src_y, r).0;
    let (qx, qy) = (sx + px - r.left, sy + py - r.top);
    let inside = r.left <= px <= r.right && r.top <= py <= r.bottom && on_screen(v, qx, qy);
    assert(r.columns() == r.right - r.left + 1 && r.rows() == r.bottom - r.top + 1);
    if count == 0 || rows == 0 {
        assert(!inside);
        assert(bytes_of(after, px, py) =~= bytes_of(v, px, py));
    } else {
        let brush = copied(v.data, sy * w + sx, w);
        lemma_on_screen(v, px, py);
        lemma_painted_bytes(v, v.data, r.left as int, r.top as int, count, rows as nat, brush, px, py);
        if inside {
            lemma_on_screen(v, qx, qy);
            let row = py - r.top;
            let column = px - r.left;
            assert(sy * w + sx + row * w + column == qy * w + qx) by (nonlinear_arith)
                requires
                    qy == sy + row,
                    qx == sx + column,
            ;
            let base = (py * w + px) * 4;
            assert forall|c: int| 0 <= c < 4 implies #[trigger] after.data[base + c] == byte_of(v, qx, qy, c) by {
                assert((sy * w + sx + row * w + column) * 4 + c == (qy * w + qx) * 4 + c);
            }
            assert(after.data[base + 0] == byte_of(v, qx, qy, 0));
            assert(after.data[base + 1] == byte_of(v, qx, qy, 1));
            assert(after.data[base + 2] == byte_of(v, qx, qy, 2));
            assert(after.data[base + 3] == byte_of(v, qx, qy, 3));
            assert(bytes_of(after, px, py) =~= bytes_of(v, qx, qy));
        } else {
            assert(!(r.left <= px < r.left + count && r.top <= py < r.top + rows));
            assert(bytes_of(after, px, py) =~= bytes_of(v, px, py));
        }
    }
}

/// How far `to` lies from `from`.
pub open spec fn span(from: int, to: int) -> int {
    if from < to {
        to - from
    } else {
        from - to
    }
}

/// How far `at` lies from `from` in the direction of `to`.
pub open spec fn along(from: int, to: int, at: int) -> int {
    if from < to {
        at - from
    } else {
        from - at
    }
}

/// Whether a pixel belongs to the line between two pixels: it lies between them in the longer direction,
/// and in the other it is the pixel nearest to the ideal line, the farther one from the start of two that
/// are equally near.
pub open spec fn on_line(x0: int, y0: int, x1: int, y1: int, x: int, y: int) -> bool {
    let (w, h) = (span(x0, x1), span(y0, y1));
    let (i, j) = (along(x0, x1, x), along(y0, y1, y));
    if w == 0 && h == 0 {
        i == 0 && j == 0
    } else if w >= h {
        0 <= i <= w && -w < 2 * (w * j - h * i) <= w
    } else {
        0 <= j <= h && -h < 2 * (h * i - w * j) <= h
    }
}

/// The pixels of a line are those that lie nearest to it.
pub proof fn law_line_by_pixel(line: Line, x: int, y: int)
    ensures
        line.contains(x, y) <==> on_line(line.x0, line.y0, line.x1, line.y1, x, y),
{
    let (w, h) = (span(line.x0, line.x1), span(line.y0, line.y1));
    let (i, j) = (along(line.x0, line.x1, x), along(line.y0, line.y1, y));
    assert(line.dx() == w && line.dy() == h);
    if w == 0 && h == 0 {
    } else if w >= h {
        lemma_rounded_is_near(h * i, w);
        if -w < 2 * (w * j - h * i) <= w {
            lemma_rounded(h * i, w, j);
        }
    } else {
        lemma_rounded_is_near(w * j, h);
        if -h < 2 * (h * i - w * j) <= h {
            lemma_rounded(w * j, h, i);
        }
    }
}

/// The frame around a line, cut off at the edges of the image.
pub open spec fn cut_box(v: ImageView, x0: i16, y0: i16, x1: i16, y1: i16) -> InclusiveRectangle {
    let (l, r) = if x0 <= x1 {
        (x0, x1)
    } else {
        (x1, x0)
    };
    let (t, b) = if y0 <= y1 {
        (y0, y1)
    } else {
        (y1, y0)
    };
    InclusiveRectangle {
        left: from_edge(l as int) as u16,
        top: from_edge(t as int) as u16,
        right: from_edge(
            if r < v.width {
                r as int
            } else {
                v.width - 1
            },
        ) as u16,
        bottom: from_edge(
            if b < v.height {
                b as int
            } else {
                v.height - 1
            },
        ) as u16,
    }
}

/// A line changes its pixels, which take its colour, and no other.
pub proof fn law_lined_by_pixel(
    v: ImageView,
    x0: i16,
    y0: i16,
    x1: i16,
    y1: i16,
    color: Seq<u8>,
    px: int,
    py: int,
)
    requires
        v.wf(),
        color.len() == 4,
        v.width <= 0x8000,
        v.height <= 0x8000,
        !v.covers(cut_box(v, x0, y0, x1, y1)),
        on_screen(v, px, py),
    ensures
        bytes_of(v.lined(x0, y0, x1, y1, color).0, px, py) == (if on_line(
            x0 as int,
            y0 as int,
            x1 as int,
            y1 as int,
            px,
            py,
        ) {
            color
        } else {
            bytes_of(v, px, py)
        }),
        v.lined(x0, y0, x1, y1, color).1 == cut_box(v, x0, y0, x1, y1),
{
    let line = Line { x0: x0 as int, y0: y0 as int, x1: x1 as int, y1: y1 as int };
    let w = v.width as int;
    assert(v.line_area(x0, y0, x1, y1) == cut_box(v, x0, y0, x1, y1));
    law_line_by_pixel(line, px, py);
    lemma_on_screen(v, px, py);
    lemma_column_and_row(w, px, py);
    let after = v.lined(x0, y0, x1, y1, color).0;
    let at = py * w + px;
    let base = at * 4;
    assert forall|c: int| 0 <= c < 4 implies #[trigger] after.data[base + c] == (if line.contains(px, py) {
        color[c]
    } else {
        v.data[base + c]
    }) by {
        assert((base + c) / 4 == at && (base + c) % 4 == c);
    }
    assert(after.data[base + 0] == byte_of(after, px, py, 0));
    assert(after.data[base + 1] == byte_of(after, px, py, 1));
    assert(after.data[base + 2] == byte_of(after, px, py, 2));
    assert(after.data[base + 3] == byte_of(after, px, py, 3));
    if line.contains(px, py) {
        assert(bytes_of(after, px, py) =~= color);
    } else {
        assert(bytes_of(after, px, py) =~= bytes_of(v, px, py));
    }
}

/// A LineTo order draws the line between its ends in the colour of its pen.
pub proof fn law_line_to_by_pixel(v: ImageView, caches: CacheView, o: LineToOrder, px: int, py: int)
    requires
        v.wf(),
        v.width <= 0x8000,
        v.height <= 0x8000,
        !v.covers(cut_box(v, o.start_x, o.start_y, o.end_x, o.end_y)),
        on_screen(v, px, py),
    ensures
        ({
            let (after, area) = rendered(v, caches, OrderDataView::LineTo(o));
            &&& area == Some(cut_box(v, o.start_x, o.start_y, o.end_x, o.end_y))
            &&& bytes_of(after, px, py) == (if on_line(
                o.start_x as int,
                o.start_y as int,
                o.end_x as int,
                o.end_y as int,
                px,
                py,
            ) {
                opaque_pixel(o.pen_color)
            } else {
                bytes_of(v, px, py)
            })
        }),
{
    assert(rgba(o.pen_color) =~= opaque_pixel(o.pen_color));
    law_lined_by_pixel(v, o.start_x, o.start_y, o.end_x, o.end_y, rgba(o.pen_color), px, py);
}

proof fn lemma_operated_prefix(v: ImageView, list: Seq<DeltaRect>, d: DeltaRect, op: RectOpView, n: nat)
    requires
        n <= list.len(),
    ensures
        operated_all(v, list.push(d), op, n) == operated_all(v, list, op, n),
    decreases n,
{
    if n > 0 {
        lemma_operated_prefix(v, list, d, op, (n - 1) as nat);
        assert(list.push(d)[n - 1] == list[n - 1]);
    }
}

/// The smallest rectangle around an area, if there is one, and a rectangle.
pub open spec fn around(area: Option<InclusiveRectangle>, r: InclusiveRectangle) -> InclusiveRectangle {
    match area {
        None => r,
        Some(a) => InclusiveRectangle {
            left: if a.left < r.left {
                a.left
            } else {
                r.left
            },
            top: if a.top < r.top {
                a.top
            } else {
                r.top
            },
            right: if a.right > r.right {
                a.right
            } else {
                r.right
            },
            bottom: if a.bottom > r.bottom {
                a.bottom
            } else {
                r.bottom
            },
        },
    }
}

/// One rectangle more makes the combined rectangle as large as it takes to hold it.
pub proof fn law_combined_step(rects: Seq<InclusiveRectangle>, r: InclusiveRectangle)
    ensures
        combined(Seq::empty()) is None,
        combined(rects.push(r)) == Some(around(combined(rects), r)),
{
    assert(rects.push(r).drop_last() =~= rects);
}

proof fn lemma_areas_step(list: Seq<DeltaRect>, d: DeltaRect)
    ensures
        combined(delta_areas(list.push(d))) == Some(
            around(combined(delta_areas(list)), rect_at(d.left, d.top, d.width, d.height)),
        ),
        combined(delta_areas(Seq::empty())) is None,
{
    assert(delta_areas(list.push(d)) =~= delta_areas(list).push(delta_rect(d)));
    law_combined_step(delta_areas(list), delta_rect(d));
    assert(delta_areas(Seq::empty()) =~= Seq::empty());
}

/// A MultiOpaqueRect order draws its rectangles one after the other, each as an OpaqueRect order of the
/// same colour would, and the area it reports is around those of all of them.
pub proof fn law_multi_opaque_rect_step(v: ImageView, caches: CacheView, o: MultiOpaqueRectView, d: DeltaRect)
    ensures
        ({
            let (before, area) = rendered(v, caches, OrderDataView::MultiOpaqueRect(o));
            let one = OpaqueRectOrder { x: d.left, y: d.top, width: d.width, height: d.height, color: o.color };
            let (after, own) = rendered(before, caches, OrderDataView::OpaqueRect(one));
            let more = MultiOpaqueRectView { rectangles: o.rectangles.push(d), ..o };
            let none = MultiOpaqueRectView { rectangles: Seq::empty(), ..o };
            &&& rendered(v, caches, OrderDataView::MultiOpaqueRect(more)) == (after, Some(around(area, own->Some_0)))
            &&& rendered(v, caches, OrderDataView::MultiOpaqueRect(none)) == (v, None::<InclusiveRectangle>)
        }),
{
    let op = RectOpView::Fill(rgba(o.color));
    lemma_operated_prefix(v, o.rectangles, d, op, o.rectangles.len());
    lemma_areas_step(o.rectangles, d);
}

/// A MultiDstBlt order draws its rectangles one after the other, each as a DstBlt order with the same
/// raster operation would.
pub proof fn law_multi_dstblt_step(v: ImageView, caches: CacheView, o: MultiDstBltView, d: DeltaRect)
    ensures
        ({
            let (before, area) = rendered(v, caches, OrderDataView::MultiDstBlt(o));
            let one = DstBltOrder { x: d.left, y: d.top, width: d.width, height: d.height, rop: o.rop };
            let (after, own) = rendered(before, caches, OrderDataView::DstBlt(one));
            let more = MultiDstBltView { rectangles: o.rectangles.push(d), ..o };
            let none = MultiDstBltView { rectangles: Seq::empty(), ..o };
            &&& rendered(v, caches, OrderDataView::MultiDstBlt(more)) == (after, Some(around(area, own->Some_0)))
            &&& rendered(v, caches, OrderDataView::MultiDstBlt(none)) == (v, None::<InclusiveRectangle>)
        }),
{
    let op = crate::order_rendering::dst_op(o.rop);
    lemma_operated_prefix(v, o.rectangles, d, op, o.rectangles.len());
    lemma_areas_step(o.rectangles, d);
}

/// A MultiPatBlt order draws its rectangles one after the other, each as a PatBlt order with the same
/// brush and raster operation would.
pub proof fn law_multi_patblt_step(v: ImageView, caches: CacheView, o: MultiPatBltView, d: DeltaRect)
    ensures
        ({
            let (before, area) = rendered(v, caches, OrderDataView::MultiPatBlt(o));
            let one = PatBltView {
                x: d.left,
                y: d.top,
                width: d.width,
                height: d.height,
                rop: o.rop,
                back_color: o.back_color,
                fore_color: o.fore_color,
                brush: o.brush,
            };
            let (after, own) = rendered(before, caches, OrderDataView::PatBlt(one));
            let more = MultiPatBltView { rectangles: o.rectangles.push(d), ..o };
            let none = MultiPatBltView { rectangles: Seq::empty(), ..o };
            &&& rendered(v, caches, OrderDataView::MultiPatBlt(more)) == (after, Some(around(area, own->Some_0)))
            &&& rendered(v, caches, OrderDataView::MultiPatBlt(none)) == (v, None::<InclusiveRectangle>)
        }),
{
    let op = crate::order_rendering::pat_op(o.rop, o.brush.style, o.fore_color);
    lemma_operated_prefix(v, o.rectangles, d, op, o.rectangles.len());
    lemma_areas_step(o.rectangles, d);
}

proof fn lemma_copied_prefix(v: ImageView, o: MultiScrBltView, d: DeltaRect, n: nat)
    requires
        n <= o.rectangles.len(),
    ensures
        copied_all(v, MultiScrBltView { rectangles: o.rectangles.push(d), ..o }, n) == copied_all(v, o, n),
    decreases n,
{
    if n > 0 {
        lemma_copied_prefix(v, o, d, (n - 1) as nat);
        let more = MultiScrBltView { rectangles: o.rectangles.push(d), ..o };
        assert(more.rectangles[n - 1] == o.rectangles[n - 1]);
        assert(more.rectangles[0] == o.rectangles[0]);
        assert(source_of(more, n - 1) == source_of(o, n - 1));
    }
}

proof fn lemma_moved_source(start: i16, at: i16, first: i16, r: i16)
    requires
        (start + at - first - r) % 65536 == 0,
    ensures
        start.wrapping_add(at.wrapping_sub(first)) == r,
{
}

/// A MultiScrBlt order copies its rectangles one after the other, each as a ScrBlt order would. The first
/// is copied from the source of the order, and each other one from as far beside it as the rectangle lies
/// beside the first, around the ends of the range of coordinates.
#[verifier::spinoff_prover]
#[verifier::rlimit(60)]
pub proof fn law_multi_scrblt_step(v: ImageView, caches: CacheView, o: MultiScrBltView, d: DeltaRect, sx: i16, sy: i16)
    requires
        o.rectangles.len() == 0 ==> sx == o.src_x && sy == o.src_y,
        o.rectangles.len() > 0 ==> (o.src_x + d.left - o.rectangles[0].left - sx) % 65536 == 0,
        o.rectangles.len() > 0 ==> (o.src_y + d.top - o.rectangles[0].top - sy) % 65536 == 0,
    ensures
        ({
            let (before, area) = rendered(v, caches, OrderDataView::MultiScrBlt(o));
            let one = ScrBltOrder {
                x: d.left,
                y: d.top,
                width: d.width,
                height: d.height,
                rop: o.rop,
                src_x: sx,
                src_y: sy,
            };
            let (after, own) = rendered(before, caches, OrderDataView::ScrBlt(one));
            let more = MultiScrBltView { rectangles: o.rectangles.push(d), ..o };
            let none = MultiScrBltView { rectangles: Seq::empty(), ..o };
            &&& rendered(v, caches, OrderDataView::MultiScrBlt(more)) == (after, Some(around(area, own->Some_0)))
            &&& rendered(v, caches, OrderDataView::MultiScrBlt(none)) == (v, None::<InclusiveRectangle>)
        }),
{
    lemma_copied_prefix(v, o, d, o.rectangles.len());
    lemma_areas_step(o.rectangles, d);
    let more = MultiScrBltView { rectangles: o.rectangles.push(d), ..o };
    let n = o.rectangles.len() as int;
    assert(more.rectangles[n] == d);
    assert(n > 0 ==> more.rectangles[0] == o.rectangles[0]);
    if n > 0 {
        lemma_moved_source(o.src_x, d.left, o.rectangles[0].left, sx);
        lemma_moved_source(o.src_y, d.top, o.rectangles[0].top, sy);
    }
    assert(source_of(more, n) == (sx, sy));
}

/// The sum of the first `n` moves of a polyline.
pub open spec fn moved_x(points: Seq<DeltaPoint>, n: nat) -> int
    decreases n,
{
    if n == 0 {
        0
    } else {
        moved_x(points, (n - 1) as nat) + points[n - 1].x
    }
}

pub open spec fn moved_y(points: Seq<DeltaPoint>, n: nat) -> int
    decreases n,
{
    if n == 0 {
        0
    } else {
        moved_y(points, (n - 1) as nat) + points[n - 1].y
    }
}

/// Each corner of a polyline lies where its moves lead from its start, around the ends of the range of
/// coordinates.
pub proof fn law_vertex(poly: PolylineView, n: nat)
    requires
        n <= poly.points.len(),
    ensures
        (poly.x + moved_x(poly.points, n) - vertex(poly, n).0) % 65536 == 0,
        (poly.y + moved_y(poly.points, n) - vertex(poly, n).1) % 65536 == 0,
    decreases n,
{
    if n > 0 {
        law_vertex(poly, (n - 1) as nat);
    }
}

proof fn lemma_lined_prefix(v: ImageView, o: PolylineView, p: DeltaPoint, n: nat)
    requires
        n <= o.points.len(),
    ensures
        lined_all(v, PolylineView { points: o.points.push(p), ..o }, n) == lined_all(v, o, n),
        vertex(PolylineView { points: o.points.push(p), ..o }, n) == vertex(o, n),
    decreases n,
{
    if n > 0 {
        lemma_lined_prefix(v, o, p, (n - 1) as nat);
        assert(o.points.push(p)[n - 1] == o.points[n - 1]);
    }
}

proof fn lemma_same_residue(a: int, b: i16, c: i16)
    requires
        (a - b) % 65536 == 0,
        (a - c) % 65536 == 0,
    ensures
        b == c,
{
}

proof fn lemma_step(a: i16, d: i16, b: i16)
    requires
        (a + d - b) % 65536 == 0,
    ensures
        a.wrapping_add(d) == b,
{
}

/// A Polyline order draws its lines one after the other, each as a LineTo order in the same colour would:
/// from where the moves so far lead to where the next move leads, around the ends of the range of
/// coordinates.
#[verifier::spinoff_prover]
#[verifier::rlimit(60)]
pub proof fn law_polyline_step(v: ImageView, caches: CacheView, o: PolylineView, p: DeltaPoint, line: LineToOrder)
    requires
        (o.x + moved_x(o.points, o.points.len()) - line.start_x) % 65536 == 0,
        (o.y + moved_y(o.points, o.points.len()) - line.start_y) % 65536 == 0,
        (line.start_x + p.x - line.end_x) % 65536 == 0,
        (line.start_y + p.y - line.end_y) % 65536 == 0,
        line.pen_color == o.pen_color,
    ensures
        ({
            let (before, area) = rendered(v, caches, OrderDataView::Polyline(o));
            let (after, own) = rendered(before, caches, OrderDataView::LineTo(line));
            let more = PolylineView { points: o.points.push(p), ..o };
            let none = PolylineView { points: Seq::empty(), ..o };
            &&& rendered(v, caches, OrderDataView::Polyline(more)) == (after, Some(around(area, own->Some_0)))
            &&& rendered(v, caches, OrderDataView::Polyline(none)) == (v, None::<InclusiveRectangle>)
        }),
{
    let n = o.points.len();
    let more = PolylineView { points: o.points.push(p), ..o };
    lemma_lined_prefix(v, o, p, n);
    law_vertex(o, n);
    let (x0, y0) = vertex(o, n);
    lemma_same_residue(o.x + moved_x(o.points, n), x0, line.start_x);
    lemma_same_residue(o.y + moved_y(o.points, n), y0, line.start_y);
    lemma_step(x0, p.x, line.end_x);
    lemma_step(y0, p.y, line.end_y);
    assert(more.points[n as int] == p);
    assert(vertex(more, n + 1) == (line.end_x, line.end_y));
    let (before, areas) = lined_all(v, o, n);
    let (after, area) = before.lined(line.start_x, line.start_y, line.end_x, line.end_y, rgba(o.pen_color));
    assert(lined_all(v, more, n + 1) == (after, areas.push(area)));
    law_combined_step(areas, area);
    assert(rendered(v, caches, OrderDataView::Polyline(o)) == (before, combined(areas)));
    assert(rendered(v, caches, OrderDataView::Polyline(more)) == (after, combined(areas.push(area))));
    assert(rendered(before, caches, OrderDataView::LineTo(line)) == (after, Some(area)));
    let none = PolylineView { points: Seq::empty(), ..o };
    assert(rendered(v, caches, OrderDataView::Polyline(none)) == (v, None::<InclusiveRectangle>));
}

/// A cached bitmap is drawn as a light blue rectangle: for a plain copy of an entry that holds a bitmap.
/// Any other such order draws nothing.
#[verifier::spinoff_prover]
#[verifier::rlimit(60)]
pub proof fn law_cached_bitmap_drawn(
    v: ImageView,
    caches: CacheView,
    data: Seq<u8>,
    x: i16,
    y: i16,
    width: i16,
    height: i16,
    index: u16,
)
    requires
        data.len() >= 18,
        stands_at(data, 2, word(x as int)),
        stands_at(data, 4, word(y as int)),
        stands_at(data, 6, word(width as int)),
        stands_at(data, 8, word(height as int)),
        stands_at(data, 15, word(index as int)),
    ensures
        ({
            let cached = data[0] < caches.len() && index < caches[data[0] as int].len()
                && caches[data[0] as int][index as int] is Some;
            let blue = OpaqueRectOrder { x, y, width, height, color: 0x8080FF };
            rendered(v, caches, OrderDataView::Other(data)) == (if cached && data[10] == 0xCC {
                rendered(v, caches, OrderDataView::OpaqueRect(blue))
            } else {
                (v, None::<InclusiveRectangle>)
            })
        }),
{
    law_i16_is_read_back(x, data, 2);
    law_i16_is_read_back(y, data, 4);
    law_i16_is_read_back(width, data, 6);
    law_i16_is_read_back(height, data, 8);
    law_u16_is_read_back(index, data, 15);
    assert(rgba(0x8080FF) =~= seq![128u8, 128u8, 255u8, 255u8]);
}

/// An order that is too short to name a cached bitmap draws nothing.
pub proof fn law_short_order_draws_nothing(v: ImageView, caches: CacheView, data: Seq<u8>)
    requires
        data.len() < 18,
    ensures
        rendered(v, caches, OrderDataView::Other(data)) == (v, None::<InclusiveRectangle>),
{
}

} // verus!
