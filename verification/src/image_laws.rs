//! What holds of the image across operations.

use vstd::arithmetic::div_mod::{lemma_fundamental_div_mod, lemma_mod_bound};
use vstd::arithmetic::mul::lemma_mul_is_commutative;
use vstd::prelude::*;

use crate::geometry::InclusiveRectangle;
use crate::image::{
    lemma_bitmapped_shape, lemma_copied_shape, lemma_filled_shape, lemma_lined_shape, lemma_moved_shape,
    lemma_pointer_shape, lemma_replaced_shape, lemma_tiled_shape, with_room, ImageView,
};
use crate::pixel_format::PixelFormat;
use crate::pointer::PointerView;
use crate::raster::{
    byte_index, composited, copied, decoded, inverted, law_paint_rows_by_pixel, lemma_paint_rows_len,
    paint_rows, solid, Brush, Encoding,
};

verus! {

/// The pixel that a byte belongs to lies in the image.
proof fn lemma_pixel_of(v: ImageView, at: int)
    requires
        v.sized(),
        0 <= at < v.data.len(),
    ensures
        v.width > 0,
        0 <= at / 4 % (v.width as int) < v.width,
        0 <= at / 4 / (v.width as int) < v.height,
        at == byte_index(v.width as int, at / 4 % (v.width as int), at / 4 / (v.width as int), at % 4),
{
    let w = v.width as int;
    let h = v.height as int;
    assert(w > 0) by (nonlinear_arith)
        requires
            w * h * 4 > 0,
            w >= 0,
    ;
    let p = at / 4;
    lemma_fundamental_div_mod(p, w);
    lemma_mod_bound(p, w);
    lemma_mul_is_commutative(w, p / w);
    let row = p / w;
    assert(0 <= row < h) by (nonlinear_arith)
        requires
            p == w * row + p % w,
            0 <= p % w < w,
            0 <= p < w * h,
            w > 0,
    ;
}

/// Where byte `at` of the pixels is: below the pointer or beside it.
pub open spec fn is_below(v: ImageView, at: int) -> bool {
    let x = at / 4 % (v.width as int);
    let y = at / 4 / (v.width as int);
    v.draw_x <= x < v.draw_x + v.cols() && v.draw_y <= y < v.draw_y + v.rows()
}

/// Drawing the pointer changes nothing beside it. Putting back what it covers brings back the pixels
/// from before it was drawn, whatever has happened to the image meanwhile, and changes nothing beside it.
proof fn lemma_erased_by_pixel(v: ImageView, now: Seq<u8>, at: int)
    requires
        v.sized(),
        v.visible,
        v.pointer is Some,
        now.len() == v.data.len(),
        0 <= at < v.data.len(),
    ensures
        !is_below(v, at) ==> v.drawn().0.data[at] == v.data[at],
        v.drawn().0.data.len() == v.data.len(),
        (ImageView { data: now, ..v.drawn().0 }).erased().0.data.len() == v.data.len(),
        (ImageView { data: now, ..v.drawn().0 }).erased().0.data[at] == (if is_below(v, at) {
            v.data[at]
        } else {
            now[at]
        }),
        (ImageView { data: now, ..v.drawn().0 }).erased().1 == v.drawn().1,
{
    let p = v.pointer->Some_0;
    let w = v.width as int;
    let cols = v.cols();
    let rows = v.rows();
    let room = with_room(v.saved, cols * rows * 4);
    let reading = copied(v.data, v.corner(), w);
    let over = composited(p.bitmap, v.src.top * p.width + v.src.left, p.width as int);
    let d = v.drawn().0;
    let back = copied(d.saved, 0, cols);
    lemma_paint_rows_len(room, 0, cols, cols, rows as nat, reading);
    lemma_paint_rows_len(v.data, v.corner(), w, cols, rows as nat, over);
    lemma_paint_rows_len(now, v.corner(), w, cols, rows as nat, back);
    assert(cols * rows * 4 > 0) by (nonlinear_arith)
        requires
            cols > 0,
            rows > 0,
    ;
    lemma_pixel_of(v, at);
    let x = at / 4 % w;
    let y = at / 4 / w;
    let c = at % 4;
    law_paint_rows_by_pixel(now, v.draw_x as int, v.draw_y as int, w, cols, rows as nat, back, x, y, c);
    law_paint_rows_by_pixel(v.data, v.draw_x as int, v.draw_y as int, w, cols, rows as nat, over, x, y, c);
    if is_below(v, at) {
        let column = x - v.draw_x;
        let row = y - v.draw_y;
        assert(0 <= row * cols && row * cols + cols <= cols * rows) by (nonlinear_arith)
            requires
                0 <= row,
                row + 1 <= rows,
                0 < cols,
        ;
        assert(0 * cols == 0);
        law_paint_rows_by_pixel(room, 0, 0, cols, cols, rows as nat, reading, column, row, c);
        assert((v.corner() + row * w + column) * 4 + c == at) by (nonlinear_arith)
            requires
                at == (y * w + x) * 4 + c,
                v.corner() == v.draw_y * w + v.draw_x,
                row == y - v.draw_y,
                column == x - v.draw_x,
        ;
    }
}

/// Drawing the pointer and putting back what it covers leaves the pixels as they were.
pub proof fn law_erase_undoes_draw(v: ImageView)
    requires
        v.sized(),
        v.visible,
        v.pointer is Some,
    ensures
        v.drawn().0.erased().0.data == v.data,
        v.drawn().0.erased().1 == v.drawn().1,
{
    if v.data.len() > 0 {
        let d = v.drawn().0;
        assert(d == (ImageView { data: d.data, ..d }));
        lemma_paint_rows_len(
            v.data,
            v.corner(),
            v.width as int,
            v.cols(),
            v.rows() as nat,
            composited(
                v.pointer->Some_0.bitmap,
                v.src.top * v.pointer->Some_0.width + v.src.left,
                v.pointer->Some_0.width as int,
            ),
        );
        lemma_erased_by_pixel(v, d.data, 0);
        assert forall|at: int| 0 <= at < v.data.len() implies d.erased().0.data[at] == v.data[at] by {
            lemma_erased_by_pixel(v, d.data, at);
        }
        assert(d.erased().0.data =~= v.data);
    }
}

/// Showing the pointer and hiding it again leaves the pixels as they were. (A pointer off the screen
/// is left out if something was kept aside for an earlier place: hiding puts that back.)
pub proof fn law_hide_undoes_show(v: ImageView)
    requires
        v.wf(),
        !v.shown,
        v.visible || v.pointer is None || v.saved.len() == 0,
    ensures
        v.pointer_shown().0.pointer_hidden().0.data == v.data,
        !v.pointer_shown().0.pointer_hidden().0.shown,
{
    let s = ImageView { shown: true, ..v };
    if v.visible && v.pointer is Some {
        law_erase_undoes_draw(s);
        let d = s.drawn().0;
        let hidden = ImageView { shown: false, ..d };
        assert(hidden.erased().0.data == d.erased().0.data);
    }
}

/// An update below the pointer is not lost: hiding the pointer afterwards shows what the update
/// would have made of the image without the pointer.
pub proof fn law_update_below_pointer(v: ImageView, area: InclusiveRectangle, change: spec_fn(Seq<u8>) -> Seq<u8>)
    requires
        v.wf(),
        !v.shown,
        v.visible,
        v.pointer is Some,
        v.pointer_shown().0.covers(area),
        forall|d: Seq<u8>| (#[trigger] change(d)).len() == d.len(),
    ensures
        v.pointer_shown().0.changed(area, change).0.pointer_hidden().0.data == change(v.data),
{
    let s = ImageView { shown: true, ..v };
    law_erase_undoes_draw(s);
    let d = s.drawn().0;
    let bare = d.erased().0;
    let w = ImageView { data: change(bare.data), ..bare };
    if v.data.len() > 0 {
        lemma_paint_rows_len(
            with_room(v.saved, v.cols() * v.rows() * 4),
            0,
            v.cols(),
            v.cols(),
            v.rows() as nat,
            copied(v.data, v.corner(), v.width as int),
        );
        assert(v.cols() * v.rows() * 4 > 0 && v.cols() * v.rows() * 4 % 4 == 0) by (nonlinear_arith)
            requires
                v.cols() > 0,
                v.rows() > 0,
        ;
        law_erase_undoes_draw(w);
        let again = w.drawn().0;
        let hidden = ImageView { shown: false, ..again };
        assert(hidden.erased().0.data == again.erased().0.data);
    }
}

/// Whether byte `at` of the pixels belongs to an area.
pub open spec fn is_in(v: ImageView, area: InclusiveRectangle, at: int) -> bool {
    area.contains(at / 4 % (v.width as int), at / 4 / (v.width as int))
}

/// Whether a change touches the pixels of an area alone, and goes by nothing but those pixels.
pub open spec fn is_local(v: ImageView, area: InclusiveRectangle, change: spec_fn(Seq<u8>) -> Seq<u8>) -> bool {
    forall|a: Seq<u8>, b: Seq<u8>|
        #![trigger change(a), change(b)]
        {
            &&& a.len() == b.len() == v.data.len()
            &&& forall|k: int| 0 <= k < a.len() && is_in(v, area, k) ==> a[k] == b[k]
        } ==> {
            &&& change(a).len() == a.len()
            &&& forall|k: int|
                0 <= k < a.len() ==> #[trigger] change(a)[k] == (if is_in(v, area, k) {
                    change(b)[k]
                } else {
                    a[k]
                })
        }
}

/// An update beside the pointer is not lost either, and does not disturb what the pointer covers: hiding
/// the pointer afterwards shows what the update would have made of the image without the pointer.
pub proof fn law_update_beside_pointer(
    v: ImageView,
    area: InclusiveRectangle,
    change: spec_fn(Seq<u8>) -> Seq<u8>,
)
    requires
        v.wf(),
        !v.shown,
        v.visible,
        v.pointer is Some,
        !v.pointer_shown().0.covers(area),
        is_local(v, area, change),
    ensures
        v.pointer_shown().0.changed(area, change).0.pointer_hidden().0.data == change(v.data),
{
    let s = ImageView { shown: true, ..v };
    let d = s.drawn().0;
    assert(change(v.data).len() == v.data.len());
    if v.data.len() > 0 {
        lemma_erased_by_pixel(s, v.data, 0);
        let now = change(d.data);
        assert forall|k: int| 0 <= k < d.data.len() && is_in(v, area, k) implies d.data[k] == v.data[k] by {
            lemma_erased_by_pixel(s, v.data, k);
            lemma_beside(s, area, k);
        }
        assert(now.len() == v.data.len());
        assert(change(d.data) == change(d.data) && change(v.data) == change(v.data));
        let after = ImageView { data: now, ..d };
        let hidden = ImageView { shown: false, ..after };
        assert(hidden.erased().0.data == after.erased().0.data);
        assert forall|at: int| 0 <= at < v.data.len() implies after.erased().0.data[at] == change(v.data)[at] by {
            lemma_erased_by_pixel(s, now, at);
            if is_in(v, area, at) {
                lemma_beside(s, area, at);
            }
            assert(now[at] == (if is_in(v, area, at) {
                change(v.data)[at]
            } else {
                d.data[at]
            }));
        }
        lemma_erased_by_pixel(s, now, 0);
        assert(after.erased().0.data =~= change(v.data));
    } else {
        assert(change(v.data) =~= v.data);
    }
}

/// A pixel of an area that the pointer does not touch is not below the pointer.
proof fn lemma_beside(v: ImageView, area: InclusiveRectangle, at: int)
    requires
        v.wf(),
        v.visible,
        v.shown,
        v.pointer is Some,
        !v.covers(area),
        is_in(v, area, at),
    ensures
        !is_below(v, at),
{
}

/// A change of the pixels leaves size and format of the image and the choice of the pointer alone.
pub proof fn law_change_keeps_the_rest(v: ImageView, area: InclusiveRectangle, change: spec_fn(Seq<u8>) -> Seq<u8>)
    ensures
        ({
            let after = v.changed(area, change).0;
            &&& after.width == v.width
            &&& after.height == v.height
            &&& after.format == v.format
            &&& after.pointer == v.pointer
            &&& after.shown == v.shown
            &&& after.visible == v.visible
            &&& after.x == v.x
            &&& after.y == v.y
        }),
{
}

/// An operation on the image.
pub enum ImageOp<'a> {
    Fill { rect: InclusiveRectangle, color: Seq<u8> },
    Invert { rect: InclusiveRectangle },
    Copy { src_x: i16, src_y: i16, rect: InclusiveRectangle },
    Line { x0: i16, y0: i16, x1: i16, y1: i16, color: Seq<u8> },
    /// A bitmap; with `inside` only for a rectangle that lies in the image
    Bitmap {
        bytes: Seq<u8>,
        encoding: Encoding<'a>,
        rect: InclusiveRectangle,
        bottom_up: bool,
        inside: bool,
    },
    Tile {
        tile: Seq<u8>,
        format: PixelFormat,
        extents: InclusiveRectangle,
        parts: Seq<InclusiveRectangle>,
        place: InclusiveRectangle,
    },
    ShowPointer,
    HidePointer,
    MovePointer { x: u16, y: u16 },
    ReplacePointer { pointer: PointerView },
}

impl<'a> ImageOp<'a> {
    /// What the operation makes of an image.
    pub open spec fn applied(self, v: ImageView) -> ImageView {
        match self {
            ImageOp::Fill { rect, color } => v.filled(rect, color).0,
            ImageOp::Invert { rect } => v.flipped(rect).0,
            ImageOp::Copy { src_x, src_y, rect } => v.copied_from(src_x, src_y, rect).0,
            ImageOp::Line { x0, y0, x1, y1, color } => v.lined(x0, y0, x1, y1, color).0,
            ImageOp::Bitmap { bytes, encoding, rect, bottom_up, inside } => if inside {
                v.bitmapped_inside(bytes, encoding, rect, bottom_up).0
            } else {
                v.bitmapped(bytes, encoding, rect, bottom_up).0
            },
            ImageOp::Tile { tile, format, extents, parts, place } => v.tiled(
                tile,
                format,
                extents,
                parts,
                place,
            ).0,
            ImageOp::ShowPointer => v.pointer_shown().0,
            ImageOp::HidePointer => v.pointer_hidden().0,
            ImageOp::MovePointer { x, y } => v.pointer_moved(x, y).0,
            ImageOp::ReplacePointer { pointer } => v.pointer_replaced(pointer).0,
        }
    }
}

/// An image after some operations.
pub open spec fn after_all(v: ImageView, ops: Seq<ImageOp<'_>>) -> ImageView
    decreases ops.len(),
{
    if ops.len() == 0 {
        v
    } else {
        ops.last().applied(after_all(v, ops.drop_last()))
    }
}

proof fn lemma_op_keeps_shape(v: ImageView, op: ImageOp<'_>)
    ensures
        op.applied(v).same_shape(v),
{
    match op {
        ImageOp::Fill { rect, color } => lemma_filled_shape(v, rect, color),
        ImageOp::Invert { rect } => lemma_filled_shape(v, rect, Seq::empty()),
        ImageOp::Copy { src_x, src_y, rect } => lemma_copied_shape(v, src_x, src_y, rect),
        ImageOp::Line { x0, y0, x1, y1, color } => lemma_lined_shape(v, x0, y0, x1, y1, color),
        ImageOp::Bitmap { bytes, encoding, rect, bottom_up, inside } => {
            lemma_bitmapped_shape(v, bytes, encoding, rect, bottom_up);
        },
        ImageOp::Tile { tile, format, extents, parts, place } => {
            lemma_tiled_shape(v, tile, format, extents, parts, place);
        },
        ImageOp::ShowPointer => lemma_pointer_shape(v),
        ImageOp::HidePointer => lemma_pointer_shape(v),
        ImageOp::MovePointer { x, y } => lemma_moved_shape(v, x, y),
        ImageOp::ReplacePointer { pointer } => lemma_replaced_shape(v, pointer),
    }
}

/// Whatever operations an image goes through, it keeps its width, height, format and number of bytes,
/// which is that of its rows of four bytes per pixel.
pub proof fn law_operations_keep_the_shape(v: ImageView, ops: Seq<ImageOp<'_>>)
    requires
        v.wf(),
    ensures
        after_all(v, ops).same_shape(v),
        after_all(v, ops).data.len() == (v.width * 4) * v.height,
    decreases ops.len(),
{
    if ops.len() > 0 {
        law_operations_keep_the_shape(v, ops.drop_last());
        lemma_op_keeps_shape(after_all(v, ops.drop_last()), ops.last());
    }
    let (w, h) = (v.width as int, v.height as int);
    assert(w * h * 4 == (w * 4) * h) by (nonlinear_arith);
}

/// How often a pixel is painted when an area is painted.
pub open spec fn hits(first: int, stride: int, count: int, rows: nat, pixel: int) -> nat
    decreases rows,
{
    if rows == 0 {
        0
    } else {
        let start = first + (rows - 1) * stride;
        hits(first, stride, count, (rows - 1) as nat, pixel) + (if start <= pixel < start + count {
            1nat
        } else {
            0nat
        })
    }
}

/// Painting with the inverting brush inverts red, green and blue of the pixels that are painted an odd
/// number of times.
pub proof fn law_invert_by_parity(
    data: Seq<u8>,
    first: int,
    stride: int,
    count: int,
    rows: nat,
    at: int,
)
    requires
        0 <= at < data.len(),
    ensures
        paint_rows(data, first, stride, count, rows, inverted())[at] == (if at % 4 < 3 && hits(
            first,
            stride,
            count,
            rows,
            at / 4,
        ) % 2 == 1 {
            (255 - data[at]) as u8
        } else {
            data[at]
        }),
    decreases rows,
{
    lemma_paint_rows_len(data, first, stride, count, rows, inverted());
    if rows > 0 {
        lemma_paint_rows_len(data, first, stride, count, (rows - 1) as nat, inverted());
        law_invert_by_parity(data, first, stride, count, (rows - 1) as nat, at);
    }
}

/// Inverting the same area twice leaves the pixels as they were.
pub proof fn law_invert_twice(v: ImageView, rect: InclusiveRectangle)
    requires
        v.wf(),
        !v.covers(rect),
    ensures
        v.flipped(rect).0.flipped(rect).0 == v,
{
    let first = rect.top * v.width + rect.left;
    let (w, n, m) = (v.width as int, rect.columns(), rect.rows() as nat);
    let once = paint_rows(v.data, first, w, n, m, inverted());
    let twice = paint_rows(once, first, w, n, m, inverted());
    lemma_paint_rows_len(v.data, first, w, n, m, inverted());
    lemma_paint_rows_len(once, first, w, n, m, inverted());
    assert forall|at: int| 0 <= at < v.data.len() implies twice[at] == v.data[at] by {
        law_invert_by_parity(v.data, first, w, n, m, at);
        law_invert_by_parity(once, first, w, n, m, at);
    }
    assert(twice =~= v.data);
    assert(v.flipped(rect).0 == (ImageView { data: once, ..v }));
    assert(v.flipped(rect).0.flipped(rect).0 =~= v);
}

/// The pixel at column `x` and row `y`.
pub open spec fn pixel(v: ImageView, x: int, y: int) -> Seq<u8> {
    Seq::new(4, |c: int| v.data[byte_index(v.width as int, x, y, c)])
}

proof fn lemma_pixel_range(v: ImageView, x: int, y: int)
    requires
        v.wf(),
        0 <= x < v.width,
        0 <= y < v.height,
    ensures
        0 <= byte_index(v.width as int, x, y, 0),
        byte_index(v.width as int, x, y, 4) <= v.data.len(),
{
    let w = v.width as int;
    let h = v.height as int;
    assert(0 <= y * w && y * w + w <= w * h) by (nonlinear_arith)
        requires
            0 <= y,
            y + 1 <= h,
            0 <= w,
    ;
}

/// Filling a rectangle of the image sets the pixels of the rectangle and no other.
pub proof fn law_fill_by_pixel(v: ImageView, rect: InclusiveRectangle, color: Seq<u8>, x: int, y: int)
    requires
        v.wf(),
        v.fits(rect),
        rect.left <= rect.right,
        rect.top <= rect.bottom,
        color.len() == 4,
        !v.covers(rect),
        0 <= x < v.width,
        0 <= y < v.height,
    ensures
        pixel(v.filled(rect, color).0, x, y) == (if rect.contains(x, y) {
            color
        } else {
            pixel(v, x, y)
        }),
{
    let w = v.width as int;
    let after = v.filled(rect, color).0;
    lemma_pixel_range(v, x, y);
    lemma_paint_rows_len(
        v.data,
        rect.top * w + rect.left,
        w,
        rect.columns(),
        rect.rows() as nat,
        solid(color),
    );
    assert forall|c: int| 0 <= c < 4 implies #[trigger] after.data[byte_index(w, x, y, c)] == (if rect.contains(x, y) {
        color[c]
    } else {
        v.data[byte_index(w, x, y, c)]
    }) by {
        law_paint_rows_by_pixel(
            v.data,
            rect.left as int,
            rect.top as int,
            w,
            rect.columns(),
            rect.rows() as nat,
            solid(color),
            x,
            y,
            c,
        );
    }
    if rect.contains(x, y) {
        assert(pixel(after, x, y) =~= color);
    } else {
        assert(pixel(after, x, y) =~= pixel(v, x, y));
    }
}

/// Copying a rectangle within the image gives its pixels what was at the source before, also where
/// source and destination overlap, and changes no other pixel. Where source or destination reach beyond
/// the right or the bottom edge of the image, that many columns and rows less are copied. A source that
/// begins left of the image or above it is read from the edge on.
pub proof fn law_copy_by_pixel(v: ImageView, src_x: i16, src_y: i16, rect: InclusiveRectangle, x: int, y: int)
    requires
        v.wf(),
        !v.covers(rect),
        0 <= x < v.width,
        0 <= y < v.height,
    ensures
        ({
            let from_x = if src_x < 0 {
                0
            } else {
                src_x as int
            };
            let from_y = if src_y < 0 {
                0
            } else {
                src_y as int
            };
            let count = ImageView::copy_size(rect.columns(), from_x, rect.left as int, v.width as int);
            let rows = ImageView::copy_size(rect.rows(), from_y, rect.top as int, v.height as int);
            pixel(v.copied_from(src_x, src_y, rect).0, x, y) == (if rect.left <= x < rect.left + count
                && rect.top <= y < rect.top + rows {
                pixel(v, from_x + x - rect.left, from_y + y - rect.top)
            } else {
                pixel(v, x, y)
            })
        }),
{
    let w = v.width as int;
    let from_x = if src_x < 0 {
        0
    } else {
        src_x as int
    };
    let from_y = if src_y < 0 {
        0
    } else {
        src_y as int
    };
    let count = ImageView::copy_size(rect.columns(), from_x, rect.left as int, w);
    let rows = ImageView::copy_size(rect.rows(), from_y, rect.top as int, v.height as int);
    let after = v.copied_from(src_x, src_y, rect).0;
    if count > 0 && rows > 0 {
        let brush = copied(v.data, from_y * w + from_x, w);
        let inside = rect.left <= x < rect.left + count && rect.top <= y < rect.top + rows;
        let at_x = from_x + x - rect.left;
        let at_y = from_y + y - rect.top;
        lemma_pixel_range(v, x, y);
        lemma_paint_rows_len(v.data, rect.top * w + rect.left, w, count, rows as nat, brush);
        assert forall|c: int| 0 <= c < 4 implies #[trigger] after.data[byte_index(w, x, y, c)] == (if inside {
            v.data[byte_index(w, at_x, at_y, c)]
        } else {
            v.data[byte_index(w, x, y, c)]
        }) by {
            law_paint_rows_by_pixel(
                v.data,
                rect.left as int,
                rect.top as int,
                w,
                count,
                rows as nat,
                brush,
                x,
                y,
                c,
            );
            if inside {
                assert((from_y * w + from_x + (y - rect.top) * w + (x - rect.left)) * 4 + c == byte_index(
                    w,
                    at_x,
                    at_y,
                    c,
                )) by (nonlinear_arith)
                    requires
                        at_x == from_x + x - rect.left,
                        at_y == from_y + y - rect.top,
                ;
            }
        }
        if inside {
            lemma_pixel_range(v, at_x, at_y);
            assert(pixel(after, x, y) =~= pixel(v, at_x, at_y));
        } else {
            assert(pixel(after, x, y) =~= pixel(v, x, y));
        }
    }
}

/// A rectangle that lies in the image, copied from a place in the image, takes all its pixels from there.
pub proof fn law_copy_inside(v: ImageView, src_x: i16, src_y: i16, rect: InclusiveRectangle, x: int, y: int)
    requires
        v.wf(),
        v.fits(rect),
        rect.left <= rect.right,
        rect.top <= rect.bottom,
        0 <= src_x && src_x + rect.columns() <= v.width,
        0 <= src_y && src_y + rect.rows() <= v.height,
        !v.covers(rect),
        0 <= x < v.width,
        0 <= y < v.height,
    ensures
        pixel(v.copied_from(src_x, src_y, rect).0, x, y) == (if rect.contains(x, y) {
            pixel(v, src_x + x - rect.left, src_y + y - rect.top)
        } else {
            pixel(v, x, y)
        }),
{
    law_copy_by_pixel(v, src_x, src_y, rect, x, y);
}

/// A bitmap of the size of its rectangle gives each pixel of the rectangle the colour of the pixel of the
/// bitmap that belongs there, where the rows of a bottom-up bitmap count from the bottom, and changes no
/// other pixel. Bytes that are already in the order of the image are taken over one by one.
pub proof fn law_bitmap_by_pixel(
    v: ImageView,
    bytes: Seq<u8>,
    encoding: Encoding<'_>,
    rect: InclusiveRectangle,
    bottom_up: bool,
    x: int,
    y: int,
)
    requires
        v.wf(),
        v.fits(rect),
        rect.left <= rect.right,
        rect.top <= rect.bottom,
        ImageView::row_count(rect, bytes.len(), encoding.size()) == rect.rows(),
        !v.covers(rect),
        0 <= x < v.width,
        0 <= y < v.height,
    ensures
        pixel(v.bitmapped_inside(bytes, encoding, rect, bottom_up).0, x, y) == (if rect.contains(x, y) {
            let row = if bottom_up {
                rect.bottom - y
            } else {
                y - rect.top
            };
            let at = (row * rect.columns() + x - rect.left) * encoding.size();
            if encoding is Raw32 {
                seq![bytes[at], bytes[at + 1], bytes[at + 2], bytes[at + 3]]
            } else {
                Seq::new(4, |c: int| v.format.offsets().byte(encoding.color(bytes, at), c))
            }
        } else {
            pixel(v, x, y)
        }),
{
    let w = v.width as int;
    let rows = rect.rows();
    let after = v.bitmapped_inside(bytes, encoding, rect, bottom_up).0;
    let brush = decoded(bytes, encoding, rect.columns(), rows, bottom_up, v.format);
    lemma_pixel_range(v, x, y);
    lemma_paint_rows_len(v.data, rect.top * w + rect.left, w, rect.columns(), rows as nat, brush);
    let row = if bottom_up {
        rect.bottom - y
    } else {
        y - rect.top
    };
    let at = (row * rect.columns() + x - rect.left) * encoding.size();
    let expected = if encoding is Raw32 {
        seq![bytes[at], bytes[at + 1], bytes[at + 2], bytes[at + 3]]
    } else {
        Seq::new(4, |c: int| v.format.offsets().byte(encoding.color(bytes, at), c))
    };
    assert forall|c: int| 0 <= c < 4 implies #[trigger] after.data[byte_index(w, x, y, c)] == (if rect.contains(x, y) {
        expected[c]
    } else {
        v.data[byte_index(w, x, y, c)]
    }) by {
        law_paint_rows_by_pixel(
            v.data,
            rect.left as int,
            rect.top as int,
            w,
            rect.columns(),
            rows as nat,
            brush,
            x,
            y,
            c,
        );
    }
    if rect.contains(x, y) {
        assert(pixel(after, x, y) =~= expected);
    } else {
        assert(pixel(after, x, y) =~= pixel(v, x, y));
    }
}

/// Filling and inverting a rectangle of the image are local to the rectangle.
pub proof fn law_fill_and_invert_are_local(v: ImageView, rect: InclusiveRectangle, color: Seq<u8>)
    requires
        v.wf(),
        v.fits(rect),
        rect.left <= rect.right,
        rect.top <= rect.bottom,
    ensures
        is_local(v, rect, |d: Seq<u8>| painted_rect(v, d, rect, solid(color))),
        is_local(v, rect, |d: Seq<u8>| painted_rect(v, d, rect, inverted())),
        v.filled(rect, color) == v.changed(rect, |d: Seq<u8>| painted_rect(v, d, rect, solid(color))),
        v.flipped(rect) == v.changed(rect, |d: Seq<u8>| painted_rect(v, d, rect, inverted())),
{
    assert forall|a: Seq<u8>, k: int|
        #![trigger painted_rect(v, a, rect, solid(color)), is_in(v, rect, k)]
        a.len() == v.data.len() && 0 <= k < a.len() implies painted_rect(v, a, rect, solid(color))[k] == (if is_in(
        v,
        rect,
        k,
    ) {
        color[k % 4]
    } else {
        a[k]
    }) by {
        lemma_painted_rect(v, a, rect, solid(color), k);
    }
    assert forall|a: Seq<u8>, k: int|
        #![trigger painted_rect(v, a, rect, inverted()), is_in(v, rect, k)]
        a.len() == v.data.len() && 0 <= k < a.len() implies painted_rect(v, a, rect, inverted())[k] == (if is_in(
        v,
        rect,
        k,
    ) {
        inverted()(0, 0, k % 4, a[k])
    } else {
        a[k]
    }) by {
        lemma_painted_rect(v, a, rect, inverted(), k);
    }
    assert forall|a: Seq<u8>|
        a.len() == v.data.len() implies #[trigger] painted_rect(v, a, rect, solid(color)).len() == a.len() by {
        lemma_paint_rows_len(
            a,
            rect.top * v.width + rect.left,
            v.width as int,
            rect.columns(),
            rect.rows() as nat,
            solid(color),
        );
    }
    assert forall|a: Seq<u8>|
        a.len() == v.data.len() implies #[trigger] painted_rect(v, a, rect, inverted()).len() == a.len() by {
        lemma_paint_rows_len(
            a,
            rect.top * v.width + rect.left,
            v.width as int,
            rect.columns(),
            rect.rows() as nat,
            inverted(),
        );
    }
}

/// Pixels of the size of an image with a rectangle painted.
pub open spec fn painted_rect(v: ImageView, data: Seq<u8>, rect: InclusiveRectangle, brush: Brush) -> Seq<u8> {
    paint_rows(
        data,
        rect.top * v.width + rect.left,
        v.width as int,
        rect.columns(),
        rect.rows() as nat,
        brush,
    )
}

proof fn lemma_painted_rect(v: ImageView, data: Seq<u8>, rect: InclusiveRectangle, brush: Brush, at: int)
    requires
        v.wf(),
        v.fits(rect),
        rect.left <= rect.right,
        rect.top <= rect.bottom,
        data.len() == v.data.len(),
        0 <= at < data.len(),
    ensures
        painted_rect(v, data, rect, brush)[at] == (if is_in(v, rect, at) {
            let x = at / 4 % (v.width as int);
            let y = at / 4 / (v.width as int);
            brush(y - rect.top, x - rect.left, at % 4, data[at])
        } else {
            data[at]
        }),
{
    lemma_pixel_of(v, at);
    law_paint_rows_by_pixel(
        data,
        rect.left as int,
        rect.top as int,
        v.width as int,
        rect.columns(),
        rect.rows() as nat,
        brush,
        at / 4 % (v.width as int),
        at / 4 / (v.width as int),
        at % 4,
    );
}

} // verus!
