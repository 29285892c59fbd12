//! Decoding of drawing orders.

use vstd::prelude::*;

use crate::cursor::{u16_at, ReadCursor};
use crate::drawing_orders::{
    AlternateSecondaryOrder, AlternateSecondaryOrderType, BoundingRectangle, BrushData, BrushView,
    ControlFlags, DeltaPoint, DeltaRect, DrawingOrder, DrawingOrderState, DstBltOrder, LineToOrder,
    MultiDstBltOrder, MultiDstBltView, MultiOpaqueRectOrder, MultiOpaqueRectView, MultiPatBltOrder,
    MultiPatBltView, MultiScrBltOrder, MultiScrBltView, OpaqueRectOrder, OrderDataView, OrderStateView,
    OrderView, PatBltOrder, PatBltView, PolylineOrder, PolylineView, PrimaryOrder, PrimaryOrderData,
    PrimaryOrderType, PrimaryOrderView, ScrBltOrder, SecondaryOrder, SecondaryOrderType,
};
use crate::error::{DecodeError, DecodeResult};
use crate::order_fields::{
    read_blue_field, read_color_field, read_delta, read_extra_field, read_green_field, read_i16_field,
    read_i8_field, read_move_field, read_red_field, read_u16_field, read_u8_field, lemma_missing_stops,
    Fields,
};

verus! {

/// The four width flags of rectangle `i`: the low half of its byte for an even `i`.
pub open spec fn rect_flags(zero_bits: Seq<u8>, i: int) -> u8 {
    if i % 2 == 0 {
        zero_bits[i / 2] & 0x0F
    } else {
        zero_bits[i / 2] >> 4
    }
}

/// The first `n` rectangles of a coded list. Left and top add up from rectangle to rectangle.
pub open spec fn rects_from(zero_bits: Seq<u8>, start: Fields, n: nat) -> (Seq<DeltaRect>, Fields)
    decreases n,
{
    if n == 0 {
        (Seq::empty(), start)
    } else {
        let (done, f0) = rects_from(zero_bits, start, (n - 1) as nat);
        let wide = rect_flags(zero_bits, n - 1);
        let f1 = f0.after_delta(wide & 0x01 != 0);
        let f2 = f1.after_delta(wide & 0x02 != 0);
        let f3 = f2.after_delta(wide & 0x04 != 0);
        let f4 = f3.after_delta(wide & 0x08 != 0);
        let (left, top) = corner(done);
        let rect = DeltaRect {
            left: left.wrapping_add(f0.delta(wide & 0x01 != 0)),
            top: top.wrapping_add(f1.delta(wide & 0x02 != 0)),
            width: f2.delta(wide & 0x04 != 0),
            height: f3.delta(wide & 0x08 != 0),
        };
        (
            if f4.missing is None {
                done.push(rect)
            } else {
                done
            },
            f4,
        )
    }
}

/// The corner that the next rectangle of a list is relative to.
pub open spec fn corner(done: Seq<DeltaRect>) -> (i16, i16) {
    if done.len() == 0 {
        (0, 0)
    } else {
        (done.last().left, done.last().top)
    }
}

/// A list of `count` rectangles: the width flags, then the coordinates.
pub open spec fn delta_rects(start: Fields, count: nat) -> (Seq<DeltaRect>, Fields) {
    let size = (count + 1) / 2;
    let f = start.after(true, size);
    if f.missing is None {
        rects_from(start.rest.take(size as int), f, count)
    } else {
        (Seq::empty(), f)
    }
}

/// An optional list of rectangles, led by its length. A list that does not fit changes nothing.
pub open spec fn rect_list(start: Fields, present: bool, old: Seq<DeltaRect>) -> (Seq<DeltaRect>, Fields) {
    let f = start.after(present, 1);
    if start.reads(present, 1) {
        let (rects, end) = delta_rects(f, start.rest[0] as nat);
        (
            if end.missing is None {
                rects
            } else {
                old
            },
            end,
        )
    } else {
        (old, f)
    }
}

/// The two width flags of point `i`.
pub open spec fn point_flags(zero_bits: Seq<u8>, i: int) -> u8 {
    (zero_bits[i / 4] >> ((i % 4 * 2) as usize)) & 0x03
}

/// The first `n` points of a coded list.
pub open spec fn points_from(zero_bits: Seq<u8>, start: Fields, n: nat) -> (Seq<DeltaPoint>, Fields)
    decreases n,
{
    if n == 0 {
        (Seq::empty(), start)
    } else {
        let (done, f0) = points_from(zero_bits, start, (n - 1) as nat);
        let wide = point_flags(zero_bits, n - 1);
        let f1 = f0.after_delta(wide & 0x01 != 0);
        let f2 = f1.after_delta(wide & 0x02 != 0);
        let point = DeltaPoint { x: f0.delta(wide & 0x01 != 0), y: f1.delta(wide & 0x02 != 0) };
        (
            if f2.missing is None {
                done.push(point)
            } else {
                done
            },
            f2,
        )
    }
}

/// A list of `count` points: the width flags, then the coordinates.
pub open spec fn delta_points(start: Fields, count: nat) -> (Seq<DeltaPoint>, Fields) {
    let size = (count + 3) / 4;
    let f = start.after(true, size);
    if f.missing is None {
        points_from(start.rest.take(size as int), f, count)
    } else {
        (Seq::empty(), f)
    }
}

/// An optional list of points, led by its length. A list that does not fit changes nothing.
pub open spec fn point_list(start: Fields, present: bool, old: Seq<DeltaPoint>) -> (Seq<DeltaPoint>, Fields) {
    let f = start.after(present, 1);
    if start.reads(present, 1) {
        let (points, end) = delta_points(f, start.rest[0] as nat);
        (
            if end.missing is None {
                points
            } else {
                old
            },
            end,
        )
    } else {
        (old, f)
    }
}

/// Once a coordinate did not fit, no further rectangle is read.
proof fn lemma_rects_stop(zero_bits: Seq<u8>, start: Fields, k: nat, n: nat)
    requires
        k <= n,
        rects_from(zero_bits, start, k).1.missing is Some,
    ensures
        rects_from(zero_bits, start, n) == rects_from(zero_bits, start, k),
    decreases n - k,
{
    lemma_missing_stops();
    if k < n {
        lemma_rects_stop(zero_bits, start, k, (n - 1) as nat);
    }
}

/// Once a coordinate did not fit, no further point is read.
proof fn lemma_points_stop(zero_bits: Seq<u8>, start: Fields, k: nat, n: nat)
    requires
        k <= n,
        points_from(zero_bits, start, k).1.missing is Some,
    ensures
        points_from(zero_bits, start, n) == points_from(zero_bits, start, k),
    decreases n - k,
{
    lemma_missing_stops();
    if k < n {
        lemma_points_stop(zero_bits, start, k, (n - 1) as nat);
    }
}

/// Reads one rectangle with the width flags `wide`, relative to `left` and `top`.
fn decode_delta_rect(cursor: &mut ReadCursor<'_>, wide: u8, left: i16, top: i16) -> (r: DecodeResult<DeltaRect>)
    ensures
        ({
            let f0 = Fields::start(old(cursor)@);
            let f1 = f0.after_delta(wide & 0x01 != 0);
            let f2 = f1.after_delta(wide & 0x02 != 0);
            let f3 = f2.after_delta(wide & 0x04 != 0);
            let f4 = f3.after_delta(wide & 0x08 != 0);
            &&& final(cursor)@ == f4.rest
            &&& match r {
                Ok(rect) => {
                    &&& f4.missing is None
                    &&& rect.left == left.wrapping_add(f0.delta(wide & 0x01 != 0))
                    &&& rect.top == top.wrapping_add(f1.delta(wide & 0x02 != 0))
                    &&& rect.width == f2.delta(wide & 0x04 != 0)
                    &&& rect.height == f3.delta(wide & 0x08 != 0)
                },
                Err(e) => f4.missing is Some && f4.result() == Err::<(), DecodeError>(e),
            }
        }),
{
    proof {
        lemma_missing_stops();
    }
    let left: i16 = left.wrapping_add(read_delta(cursor, wide & 0x01 != 0)?);
    let top: i16 = top.wrapping_add(read_delta(cursor, wide & 0x02 != 0)?);
    let width: i16 = read_delta(cursor, wide & 0x04 != 0)?;
    let height: i16 = read_delta(cursor, wide & 0x08 != 0)?;
    Ok(DeltaRect { left, top, width, height })
}

/// Decode delta-encoded rectangles for Multi* orders.
///
/// Four bits per rectangle say which of its coordinates take two bytes instead of one.
pub fn decode_delta_rects(cursor: &mut ReadCursor<'_>, count: usize) -> (r: DecodeResult<Vec<DeltaRect>>)
    requires
        count <= 256,
    ensures
        final(cursor)@ == delta_rects(Fields::start(old(cursor)@), count as nat).1.rest,
        match r {
            Ok(rects) => {
                &&& delta_rects(Fields::start(old(cursor)@), count as nat).1.missing is None
                &&& rects@ == delta_rects(Fields::start(old(cursor)@), count as nat).0
            },
            Err(e) => {
                &&& delta_rects(Fields::start(old(cursor)@), count as nat).1.missing is Some
                &&& delta_rects(Fields::start(old(cursor)@), count as nat).1.result() == Err::<(), DecodeError>(e)
            },
        },
{
    proof {
        lemma_missing_stops();
        reveal(Fields::after);
    }
    let size: usize = (count + 1) / 2;
    cursor.ensure_size(size)?;
    let zero_bits: &[u8] = cursor.read_slice(size);
    let ghost start = Fields::start(cursor@);
    assert(start == Fields::start(old(cursor)@).after(true, size as nat));
    let mut rects: Vec<DeltaRect> = Vec::with_capacity(count);
    let mut left: i16 = 0;
    let mut top: i16 = 0;
    let mut i: usize = 0;
    while i < count
        invariant
            i <= count <= 256,
            zero_bits@.len() == (count + 1) / 2,
            rects_from(zero_bits@, start, i as nat) == (rects@, Fields::start(cursor@)),
            (left, top) == corner(rects@),
            delta_rects(Fields::start(old(cursor)@), count as nat) == rects_from(zero_bits@, start, count as nat),
        decreases count - i,
    {
        let zero_byte: u8 = zero_bits[i / 2];
        let wide: u8 = if i % 2 == 0 {
            zero_byte & 0x0F
        } else {
            zero_byte >> 4
        };
        let ghost before = cursor@;
        match decode_delta_rect(cursor, wide, left, top) {
            Ok(rect) => {
                left = rect.left;
                top = rect.top;
                rects.push(rect);
            },
            Err(e) => {
                proof {
                    lemma_rects_stop(zero_bits@, start, (i + 1) as nat, count as nat);
                }
                return Err(e);
            },
        }
        i = i + 1;
    }
    Ok(rects)
}

/// Decode delta-encoded points for Polyline.
///
/// Two bits per point say which of its coordinates take two bytes instead of one.
pub fn decode_delta_points(cursor: &mut ReadCursor<'_>, count: usize) -> (r: DecodeResult<Vec<DeltaPoint>>)
    requires
        count <= 256,
    ensures
        final(cursor)@ == delta_points(Fields::start(old(cursor)@), count as nat).1.rest,
        match r {
            Ok(points) => {
                &&& delta_points(Fields::start(old(cursor)@), count as nat).1.missing is None
                &&& points@ == delta_points(Fields::start(old(cursor)@), count as nat).0
            },
            Err(e) => {
                &&& delta_points(Fields::start(old(cursor)@), count as nat).1.missing is Some
                &&& delta_points(Fields::start(old(cursor)@), count as nat).1.result() == Err::<(), DecodeError>(e)
            },
        },
{
    proof {
        lemma_missing_stops();
        reveal(Fields::after);
    }
    let size: usize = (count + 3) / 4;
    cursor.ensure_size(size)?;
    let zero_bits: &[u8] = cursor.read_slice(size);
    let ghost start = Fields::start(cursor@);
    assert(start == Fields::start(old(cursor)@).after(true, size as nat));
    let mut points: Vec<DeltaPoint> = Vec::with_capacity(count);
    let mut i: usize = 0;
    while i < count
        invariant
            i <= count <= 256,
            zero_bits@.len() == (count + 3) / 4,
            points_from(zero_bits@, start, i as nat) == (points@, Fields::start(cursor@)),
            delta_points(Fields::start(old(cursor)@), count as nat) == points_from(
                zero_bits@,
                start,
                count as nat,
            ),
        decreases count - i,
    {
        let shift: usize = i % 4 * 2;
        let wide: u8 = (zero_bits[i / 4] >> shift) & 0x03;
        let x: i16 = match read_delta(cursor, wide & 0x01 != 0) {
            Ok(x) => x,
            Err(e) => {
                proof {
                    lemma_missing_stops();
                    lemma_points_stop(zero_bits@, start, (i + 1) as nat, count as nat);
                }
                return Err(e);
            },
        };
        let y: i16 = match read_delta(cursor, wide & 0x02 != 0) {
            Ok(y) => y,
            Err(e) => {
                proof {
                    lemma_missing_stops();
                    lemma_points_stop(zero_bits@, start, (i + 1) as nat, count as nat);
                }
                return Err(e);
            },
        };
        points.push(DeltaPoint { x, y });
        i = i + 1;
    }
    Ok(points)
}

/// Reads an optional list of rectangles, led by its length.
fn read_rect_list_field(cursor: &mut ReadCursor<'_>, present: bool, list: &mut Vec<DeltaRect>) -> (r: DecodeResult<()>)
    ensures
        final(list)@ == rect_list(Fields::start(old(cursor)@), present, old(list)@).0,
        final(cursor)@ == rect_list(Fields::start(old(cursor)@), present, old(list)@).1.rest,
        r == rect_list(Fields::start(old(cursor)@), present, old(list)@).1.result(),
{
    proof {
        reveal(Fields::after);
    }
    if present {
        cursor.ensure_size(1)?;
        let count: usize = cursor.read_u8() as usize;
        *list = decode_delta_rects(cursor, count)?;
    }
    Ok(())
}

/// Reads an optional list of points, led by its length.
fn read_point_list_field(cursor: &mut ReadCursor<'_>, present: bool, list: &mut Vec<DeltaPoint>) -> (r: DecodeResult<()>)
    ensures
        final(list)@ == point_list(Fields::start(old(cursor)@), present, old(list)@).0,
        final(cursor)@ == point_list(Fields::start(old(cursor)@), present, old(list)@).1.rest,
        r == point_list(Fields::start(old(cursor)@), present, old(list)@).1.result(),
{
    proof {
        reveal(Fields::after);
    }
    if present {
        cursor.ensure_size(1)?;
        let count: usize = cursor.read_u8() as usize;
        *list = decode_delta_points(cursor, count)?;
    }
    Ok(())
}

/// Position and size, the first four fields of most orders.
pub struct Frame {
    pub x: i16,
    pub y: i16,
    pub width: i16,
    pub height: i16,
}

pub open spec fn frame_fields(f0: Fields, flags: u32, old: Frame) -> (Frame, Fields) {
    let f1 = f0.after(flags & 0x01 != 0, 2);
    let f2 = f1.after(flags & 0x02 != 0, 2);
    let f3 = f2.after(flags & 0x04 != 0, 2);
    let f4 = f3.after(flags & 0x08 != 0, 2);
    (
        Frame {
            x: f0.i16_or(flags & 0x01 != 0, old.x),
            y: f1.i16_or(flags & 0x02 != 0, old.y),
            width: f2.i16_or(flags & 0x04 != 0, old.width),
            height: f3.i16_or(flags & 0x08 != 0, old.height),
        },
        f4,
    )
}

/// Reads the present ones of position and size.
fn read_frame(
    cursor: &mut ReadCursor<'_>,
    flags: u32,
    x: &mut i16,
    y: &mut i16,
    width: &mut i16,
    height: &mut i16,
) -> (r: DecodeResult<()>)
    ensures
        ({
            let before = Frame { x: *old(x), y: *old(y), width: *old(width), height: *old(height) };
            let (frame, end) = frame_fields(Fields::start(old(cursor)@), flags, before);
            &&& *final(x) == frame.x
            &&& *final(y) == frame.y
            &&& *final(width) == frame.width
            &&& *final(height) == frame.height
            &&& final(cursor)@ == end.rest
            &&& r == end.result()
        }),
{
    proof {
        lemma_missing_stops();
    }
    read_i16_field(cursor, flags & 0x01 != 0, x)?;
    read_i16_field(cursor, flags & 0x02 != 0, y)?;
    read_i16_field(cursor, flags & 0x04 != 0, width)?;
    read_i16_field(cursor, flags & 0x08 != 0, height)?;
    Ok(())
}

/// The fields of a brush.
pub open spec fn brush_fields(f0: Fields, flags: u32, old: BrushView) -> (BrushView, Fields) {
    let f1 = f0.after(flags & 0x0080 != 0, 1);
    let f2 = f1.after(flags & 0x0100 != 0, 1);
    let f3 = f2.after(flags & 0x0200 != 0, 1);
    let f4 = f3.after(flags & 0x0400 != 0, 1);
    let f5 = f4.after(flags & 0x0800 != 0, 7);
    (
        BrushView {
            org_x: f0.i8_or(flags & 0x0080 != 0, old.org_x),
            org_y: f1.i8_or(flags & 0x0100 != 0, old.org_y),
            style: f2.u8_or(flags & 0x0200 != 0, old.style),
            hatch: f3.u8_or(flags & 0x0400 != 0, old.hatch),
            extra: f4.bytes_or(flags & 0x0800 != 0, 7, old.extra),
        },
        f5,
    )
}

/// Reads the present fields of a brush.
fn read_brush(cursor: &mut ReadCursor<'_>, flags: u32, brush: &mut BrushData) -> (r: DecodeResult<()>)
    ensures
        final(brush)@ == brush_fields(Fields::start(old(cursor)@), flags, old(brush)@).0,
        final(cursor)@ == brush_fields(Fields::start(old(cursor)@), flags, old(brush)@).1.rest,
        r == brush_fields(Fields::start(old(cursor)@), flags, old(brush)@).1.result(),
{
    proof {
        lemma_missing_stops();
    }
    read_i8_field(cursor, flags & 0x0080 != 0, &mut brush.org_x)?;
    read_i8_field(cursor, flags & 0x0100 != 0, &mut brush.org_y)?;
    read_u8_field(cursor, flags & 0x0200 != 0, &mut brush.style)?;
    read_u8_field(cursor, flags & 0x0400 != 0, &mut brush.hatch)?;
    read_extra_field(cursor, flags & 0x0800 != 0, &mut brush.extra)?;
    Ok(())
}

/// The fields of a DstBlt order.
pub open spec fn dstblt_fields(bytes: Seq<u8>, flags: u32, old: DstBltOrder) -> (DstBltOrder, Fields) {
    let before = Frame { x: old.x, y: old.y, width: old.width, height: old.height };
    let (frame, f4) = frame_fields(Fields::start(bytes), flags, before);
    let f5 = f4.after(flags & 0x10 != 0, 1);
    (
        DstBltOrder {
            x: frame.x,
            y: frame.y,
            width: frame.width,
            height: frame.height,
            rop: f4.u8_or(flags & 0x10 != 0, old.rop),
        },
        f5,
    )
}

/// Reads the present fields of a DstBlt order into `order`.
pub fn decode_dstblt_order(cursor: &mut ReadCursor<'_>, order: &mut DstBltOrder, flags: u32) -> (r: DecodeResult<()>)
    ensures
        *final(order) == dstblt_fields(old(cursor)@, flags, *old(order)).0,
        final(cursor)@ == dstblt_fields(old(cursor)@, flags, *old(order)).1.rest,
        r == dstblt_fields(old(cursor)@, flags, *old(order)).1.result(),
{
    proof {
        lemma_missing_stops();
    }
    read_frame(cursor, flags, &mut order.x, &mut order.y, &mut order.width, &mut order.height)?;
    read_u8_field(cursor, flags & 0x10 != 0, &mut order.rop)?;
    Ok(())
}

/// The fields of a PatBlt order.
pub open spec fn patblt_fields(bytes: Seq<u8>, flags: u32, old: PatBltView) -> (PatBltView, Fields) {
    let before = Frame { x: old.x, y: old.y, width: old.width, height: old.height };
    let (frame, f4) = frame_fields(Fields::start(bytes), flags, before);
    let f5 = f4.after(flags & 0x0010 != 0, 1);
    let f6 = f5.after(flags & 0x0020 != 0, 3);
    let f7 = f6.after(flags & 0x0040 != 0, 3);
    let (brush, f8) = brush_fields(f7, flags, old.brush);
    (
        PatBltView {
            x: frame.x,
            y: frame.y,
            width: frame.width,
            height: frame.height,
            rop: f4.u8_or(flags & 0x0010 != 0, old.rop),
            back_color: f5.color_or(flags & 0x0020 != 0, old.back_color),
            fore_color: f6.color_or(flags & 0x0040 != 0, old.fore_color),
            brush,
        },
        f8,
    )
}

/// Reads the present fields of a PatBlt order into `order`.
pub fn decode_patblt_order(cursor: &mut ReadCursor<'_>, order: &mut PatBltOrder, flags: u32) -> (r: DecodeResult<()>)
    ensures
        final(order)@ == patblt_fields(old(cursor)@, flags, old(order)@).0,
        final(cursor)@ == patblt_fields(old(cursor)@, flags, old(order)@).1.rest,
        r == patblt_fields(old(cursor)@, flags, old(order)@).1.result(),
{
    proof {
        lemma_missing_stops();
    }
    read_frame(cursor, flags, &mut order.x, &mut order.y, &mut order.width, &mut order.height)?;
    read_u8_field(cursor, flags & 0x0010 != 0, &mut order.rop)?;
    read_color_field(cursor, flags & 0x0020 != 0, &mut order.back_color)?;
    read_color_field(cursor, flags & 0x0040 != 0, &mut order.fore_color)?;
    read_brush(cursor, flags, &mut order.brush)?;
    Ok(())
}

/// The fields of a ScrBlt order.
pub open spec fn scrblt_fields(bytes: Seq<u8>, flags: u32, old: ScrBltOrder) -> (ScrBltOrder, Fields) {
    let before = Frame { x: old.x, y: old.y, width: old.width, height: old.height };
    let (frame, f4) = frame_fields(Fields::start(bytes), flags, before);
    let f5 = f4.after(flags & 0x10 != 0, 1);
    let f6 = f5.after(flags & 0x20 != 0, 2);
    let f7 = f6.after(flags & 0x40 != 0, 2);
    (
        ScrBltOrder {
            x: frame.x,
            y: frame.y,
            width: frame.width,
            height: frame.height,
            rop: f4.u8_or(flags & 0x10 != 0, old.rop),
            src_x: f5.i16_or(flags & 0x20 != 0, old.src_x),
            src_y: f6.i16_or(flags & 0x40 != 0, old.src_y),
        },
        f7,
    )
}

/// Reads the present fields of a ScrBlt order into `order`.
pub fn decode_scrblt_order(cursor: &mut ReadCursor<'_>, order: &mut ScrBltOrder, flags: u32) -> (r: DecodeResult<()>)
    ensures
        *final(order) == scrblt_fields(old(cursor)@, flags, *old(order)).0,
        final(cursor)@ == scrblt_fields(old(cursor)@, flags, *old(order)).1.rest,
        r == scrblt_fields(old(cursor)@, flags, *old(order)).1.result(),
{
    proof {
        lemma_missing_stops();
    }
    read_frame(cursor, flags, &mut order.x, &mut order.y, &mut order.width, &mut order.height)?;
    read_u8_field(cursor, flags & 0x10 != 0, &mut order.rop)?;
    read_i16_field(cursor, flags & 0x20 != 0, &mut order.src_x)?;
    read_i16_field(cursor, flags & 0x40 != 0, &mut order.src_y)?;
    Ok(())
}

/// The fields of a OpaqueRect order.
pub open spec fn opaque_rect_fields(bytes: Seq<u8>, flags: u32, old: OpaqueRectOrder) -> (OpaqueRectOrder, Fields) {
    let before = Frame { x: old.x, y: old.y, width: old.width, height: old.height };
    let (frame, f4) = frame_fields(Fields::start(bytes), flags, before);
    let f5 = f4.after(flags & 0x10 != 0, 1);
    let f6 = f5.after(flags & 0x20 != 0, 1);
    let f7 = f6.after(flags & 0x40 != 0, 1);
    let red = f4.red_or(flags & 0x10 != 0, old.color);
    let green = f5.green_or(flags & 0x20 != 0, red);
    let blue = f6.blue_or(flags & 0x40 != 0, green);
    (
        OpaqueRectOrder {
            x: frame.x,
            y: frame.y,
            width: frame.width,
            height: frame.height,
            color: blue,
        },
        f7,
    )
}

/// Reads the present fields of a OpaqueRect order into `order`.
pub fn decode_opaque_rect_order(cursor: &mut ReadCursor<'_>, order: &mut OpaqueRectOrder, flags: u32) -> (r: DecodeResult<
    (),
>)
    ensures
        *final(order) == opaque_rect_fields(old(cursor)@, flags, *old(order)).0,
        final(cursor)@ == opaque_rect_fields(old(cursor)@, flags, *old(order)).1.rest,
        r == opaque_rect_fields(old(cursor)@, flags, *old(order)).1.result(),
{
    proof {
        lemma_missing_stops();
    }
    read_frame(cursor, flags, &mut order.x, &mut order.y, &mut order.width, &mut order.height)?;
    read_red_field(cursor, flags & 0x10 != 0, &mut order.color)?;
    read_green_field(cursor, flags & 0x20 != 0, &mut order.color)?;
    read_blue_field(cursor, flags & 0x40 != 0, &mut order.color)?;
    Ok(())
}

/// The fields of a LineTo order.
pub open spec fn line_to_fields(bytes: Seq<u8>, flags: u32, old: LineToOrder) -> (LineToOrder, Fields) {
    let f0 = Fields::start(bytes);
    let f1 = f0.after(flags & 0x0001 != 0, 2);
    let f2 = f1.after(flags & 0x0002 != 0, 2);
    let f3 = f2.after(flags & 0x0004 != 0, 2);
    let f4 = f3.after(flags & 0x0008 != 0, 2);
    let f5 = f4.after(flags & 0x0010 != 0, 2);
    let f6 = f5.after(flags & 0x0020 != 0, 3);
    let f7 = f6.after(flags & 0x0040 != 0, 1);
    let f8 = f7.after(flags & 0x0080 != 0, 1);
    let f9 = f8.after(flags & 0x0100 != 0, 1);
    let f10 = f9.after(flags & 0x0200 != 0, 3);
    (
        LineToOrder {
            back_mode: f0.u16_or(flags & 0x0001 != 0, old.back_mode),
            start_x: f1.i16_or(flags & 0x0002 != 0, old.start_x),
            start_y: f2.i16_or(flags & 0x0004 != 0, old.start_y),
            end_x: f3.i16_or(flags & 0x0008 != 0, old.end_x),
            end_y: f4.i16_or(flags & 0x0010 != 0, old.end_y),
            back_color: f5.color_or(flags & 0x0020 != 0, old.back_color),
            rop2: f6.u8_or(flags & 0x0040 != 0, old.rop2),
            pen_style: f7.u8_or(flags & 0x0080 != 0, old.pen_style),
            pen_width: f8.u8_or(flags & 0x0100 != 0, old.pen_width),
            pen_color: f9.color_or(flags & 0x0200 != 0, old.pen_color),
        },
        f10,
    )
}

/// Reads the present fields of a LineTo order into `order`.
pub fn decode_line_to_order(cursor: &mut ReadCursor<'_>, order: &mut LineToOrder, flags: u32) -> (r: DecodeResult<()>)
    ensures
        *final(order) == line_to_fields(old(cursor)@, flags, *old(order)).0,
        final(cursor)@ == line_to_fields(old(cursor)@, flags, *old(order)).1.rest,
        r == line_to_fields(old(cursor)@, flags, *old(order)).1.result(),
{
    proof {
        lemma_missing_stops();
    }
    read_u16_field(cursor, flags & 0x0001 != 0, &mut order.back_mode)?;
    read_i16_field(cursor, flags & 0x0002 != 0, &mut order.start_x)?;
    read_i16_field(cursor, flags & 0x0004 != 0, &mut order.start_y)?;
    read_i16_field(cursor, flags & 0x0008 != 0, &mut order.end_x)?;
    read_i16_field(cursor, flags & 0x0010 != 0, &mut order.end_y)?;
    read_color_field(cursor, flags & 0x0020 != 0, &mut order.back_color)?;
    read_u8_field(cursor, flags & 0x0040 != 0, &mut order.rop2)?;
    read_u8_field(cursor, flags & 0x0080 != 0, &mut order.pen_style)?;
    read_u8_field(cursor, flags & 0x0100 != 0, &mut order.pen_width)?;
    read_color_field(cursor, flags & 0x0200 != 0, &mut order.pen_color)?;
    Ok(())
}

/// The fields of a MultiOpaqueRect order.
pub open spec fn multi_opaque_rect_fields(bytes: Seq<u8>, flags: u32, old: MultiOpaqueRectView) -> (
    MultiOpaqueRectView,
    Fields,
) {
    let before = Frame { x: old.x, y: old.y, width: old.width, height: old.height };
    let (frame, f4) = frame_fields(Fields::start(bytes), flags, before);
    let f5 = f4.after(flags & 0x0010 != 0, 1);
    let f6 = f5.after(flags & 0x0020 != 0, 1);
    let f7 = f6.after(flags & 0x0040 != 0, 1);
    let red = f4.red_or(flags & 0x0010 != 0, old.color);
    let green = f5.green_or(flags & 0x0020 != 0, red);
    let blue = f6.blue_or(flags & 0x0040 != 0, green);
    let (rectangles, end) = rect_list(f7, flags & 0x0180 != 0, old.rectangles);
    (
        MultiOpaqueRectView {
            x: frame.x,
            y: frame.y,
            width: frame.width,
            height: frame.height,
            color: blue,
            rectangles,
        },
        end,
    )
}

/// Reads the present fields of a MultiOpaqueRect order into `order`.
pub fn decode_multi_opaque_rect_order(cursor: &mut ReadCursor<'_>, order: &mut MultiOpaqueRectOrder, flags: u32) -> (r: DecodeResult<
    (),
>)
    ensures
        final(order)@ == multi_opaque_rect_fields(old(cursor)@, flags, old(order)@).0,
        final(cursor)@ == multi_opaque_rect_fields(old(cursor)@, flags, old(order)@).1.rest,
        r == multi_opaque_rect_fields(old(cursor)@, flags, old(order)@).1.result(),
{
    proof {
        lemma_missing_stops();
    }
    read_frame(cursor, flags, &mut order.x, &mut order.y, &mut order.width, &mut order.height)?;
    read_red_field(cursor, flags & 0x0010 != 0, &mut order.color)?;
    read_green_field(cursor, flags & 0x0020 != 0, &mut order.color)?;
    read_blue_field(cursor, flags & 0x0040 != 0, &mut order.color)?;
    read_rect_list_field(cursor, flags & 0x0180 != 0, &mut order.rectangles)?;
    Ok(())
}

/// The fields of a MultiDstBlt order.
pub open spec fn multi_dstblt_fields(bytes: Seq<u8>, flags: u32, old: MultiDstBltView) -> (MultiDstBltView, Fields) {
    let before = Frame { x: old.x, y: old.y, width: old.width, height: old.height };
    let (frame, f4) = frame_fields(Fields::start(bytes), flags, before);
    let f5 = f4.after(flags & 0x10 != 0, 1);
    let (rectangles, end) = rect_list(f5, flags & 0x60 != 0, old.rectangles);
    (
        MultiDstBltView {
            x: frame.x,
            y: frame.y,
            width: frame.width,
            height: frame.height,
            rop: f4.u8_or(flags & 0x10 != 0, old.rop),
            rectangles,
        },
        end,
    )
}

/// Reads the present fields of a MultiDstBlt order into `order`.
pub fn decode_multi_dstblt_order(cursor: &mut ReadCursor<'_>, order: &mut MultiDstBltOrder, flags: u32) -> (r: DecodeResult<
    (),
>)
    ensures
        final(order)@ == multi_dstblt_fields(old(cursor)@, flags, old(order)@).0,
        final(cursor)@ == multi_dstblt_fields(old(cursor)@, flags, old(order)@).1.rest,
        r == multi_dstblt_fields(old(cursor)@, flags, old(order)@).1.result(),
{
    proof {
        lemma_missing_stops();
    }
    read_frame(cursor, flags, &mut order.x, &mut order.y, &mut order.width, &mut order.height)?;
    read_u8_field(cursor, flags & 0x10 != 0, &mut order.rop)?;
    read_rect_list_field(cursor, flags & 0x60 != 0, &mut order.rectangles)?;
    Ok(())
}

/// The fields of a MultiPatBlt order.
pub open spec fn multi_patblt_fields(bytes: Seq<u8>, flags: u32, old: MultiPatBltView) -> (MultiPatBltView, Fields) {
    let before = Frame { x: old.x, y: old.y, width: old.width, height: old.height };
    let (frame, f4) = frame_fields(Fields::start(bytes), flags, before);
    let f5 = f4.after(flags & 0x0010 != 0, 1);
    let f6 = f5.after(flags & 0x0020 != 0, 3);
    let f7 = f6.after(flags & 0x0040 != 0, 3);
    let (brush, f8) = brush_fields(f7, flags, old.brush);
    let (rectangles, end) = rect_list(f8, flags & 0x3000 != 0, old.rectangles);
    (
        MultiPatBltView {
            x: frame.x,
            y: frame.y,
            width: frame.width,
            height: frame.height,
            rop: f4.u8_or(flags & 0x0010 != 0, old.rop),
            back_color: f5.color_or(flags & 0x0020 != 0, old.back_color),
            fore_color: f6.color_or(flags & 0x0040 != 0, old.fore_color),
            brush,
            rectangles,
        },
        end,
    )
}

/// Reads the present fields of a MultiPatBlt order into `order`.
pub fn decode_multi_patblt_order(cursor: &mut ReadCursor<'_>, order: &mut MultiPatBltOrder, flags: u32) -> (r: DecodeResult<
    (),
>)
    ensures
        final(order)@ == multi_patblt_fields(old(cursor)@, flags, old(order)@).0,
        final(cursor)@ == multi_patblt_fields(old(cursor)@, flags, old(order)@).1.rest,
        r == multi_patblt_fields(old(cursor)@, flags, old(order)@).1.result(),
{
    proof {
        lemma_missing_stops();
    }
    read_frame(cursor, flags, &mut order.x, &mut order.y, &mut order.width, &mut order.height)?;
    read_u8_field(cursor, flags & 0x0010 != 0, &mut order.rop)?;
    read_color_field(cursor, flags & 0x0020 != 0, &mut order.back_color)?;
    read_color_field(cursor, flags & 0x0040 != 0, &mut order.fore_color)?;
    read_brush(cursor, flags, &mut order.brush)?;
    read_rect_list_field(cursor, flags & 0x3000 != 0, &mut order.rectangles)?;
    Ok(())
}

/// The fields of a MultiScrBlt order.
pub open spec fn multi_scrblt_fields(bytes: Seq<u8>, flags: u32, old: MultiScrBltView) -> (MultiScrBltView, Fields) {
    let before = Frame { x: old.x, y: old.y, width: old.width, height: old.height };
    let (frame, f4) = frame_fields(Fields::start(bytes), flags, before);
    let f5 = f4.after(flags & 0x0010 != 0, 1);
    let f6 = f5.after(flags & 0x0020 != 0, 2);
    let f7 = f6.after(flags & 0x0040 != 0, 2);
    let (rectangles, end) = rect_list(f7, flags & 0x0180 != 0, old.rectangles);
    (
        MultiScrBltView {
            x: frame.x,
            y: frame.y,
            width: frame.width,
            height: frame.height,
            rop: f4.u8_or(flags & 0x0010 != 0, old.rop),
            src_x: f5.i16_or(flags & 0x0020 != 0, old.src_x),
            src_y: f6.i16_or(flags & 0x0040 != 0, old.src_y),
            rectangles,
        },
        end,
    )
}

/// Reads the present fields of a MultiScrBlt order into `order`.
pub fn decode_multi_scrblt_order(cursor: &mut ReadCursor<'_>, order: &mut MultiScrBltOrder, flags: u32) -> (r: DecodeResult<
    (),
>)
    ensures
        final(order)@ == multi_scrblt_fields(old(cursor)@, flags, old(order)@).0,
        final(cursor)@ == multi_scrblt_fields(old(cursor)@, flags, old(order)@).1.rest,
        r == multi_scrblt_fields(old(cursor)@, flags, old(order)@).1.result(),
{
    proof {
        lemma_missing_stops();
    }
    read_frame(cursor, flags, &mut order.x, &mut order.y, &mut order.width, &mut order.height)?;
    read_u8_field(cursor, flags & 0x0010 != 0, &mut order.rop)?;
    read_i16_field(cursor, flags & 0x0020 != 0, &mut order.src_x)?;
    read_i16_field(cursor, flags & 0x0040 != 0, &mut order.src_y)?;
    read_rect_list_field(cursor, flags & 0x0180 != 0, &mut order.rectangles)?;
    Ok(())
}

/// The fields of a Polyline order.
pub open spec fn polyline_fields(bytes: Seq<u8>, flags: u32, old: PolylineView) -> (PolylineView, Fields) {
    let f0 = Fields::start(bytes);
    let f1 = f0.after(flags & 0x01 != 0, 2);
    let f2 = f1.after(flags & 0x02 != 0, 2);
    let f3 = f2.after(flags & 0x04 != 0, 1);
    let f4 = f3.after(flags & 0x08 != 0, 2);
    let f5 = f4.after(flags & 0x10 != 0, 3);
    let (points, end) = point_list(f5, flags & 0x60 != 0, old.points);
    (
        PolylineView {
            x: f0.i16_or(flags & 0x01 != 0, old.x),
            y: f1.i16_or(flags & 0x02 != 0, old.y),
            rop2: f2.u8_or(flags & 0x04 != 0, old.rop2),
            brush_cache_entry: f3.u16_or(flags & 0x08 != 0, old.brush_cache_entry),
            pen_color: f4.color_or(flags & 0x10 != 0, old.pen_color),
            points,
        },
        end,
    )
}

/// Reads the present fields of a Polyline order into `order`.
pub fn decode_polyline_order(cursor: &mut ReadCursor<'_>, order: &mut PolylineOrder, flags: u32) -> (r: DecodeResult<()>)
    ensures
        final(order)@ == polyline_fields(old(cursor)@, flags, old(order)@).0,
        final(cursor)@ == polyline_fields(old(cursor)@, flags, old(order)@).1.rest,
        r == polyline_fields(old(cursor)@, flags, old(order)@).1.result(),
{
    proof {
        lemma_missing_stops();
    }
    read_i16_field(cursor, flags & 0x01 != 0, &mut order.x)?;
    read_i16_field(cursor, flags & 0x02 != 0, &mut order.y)?;
    read_u8_field(cursor, flags & 0x04 != 0, &mut order.rop2)?;
    read_u16_field(cursor, flags & 0x08 != 0, &mut order.brush_cache_entry)?;
    read_color_field(cursor, flags & 0x10 != 0, &mut order.pen_color)?;
    read_point_list_field(cursor, flags & 0x60 != 0, &mut order.points)?;
    Ok(())
}

/// The bounding rectangle of an order: a byte of flags, then the coordinates that change.
pub open spec fn bounds_fields(bytes: Seq<u8>, deltas: bool, old: BoundingRectangle) -> (BoundingRectangle, Fields) {
    let f0 = Fields::start(bytes).after(true, 1);
    let flags = bytes[0];
    if f0.missing is Some {
        (old, f0)
    } else if deltas {
        let f1 = f0.after(flags & 0x01 != 0, 1);
        let f2 = f1.after(flags & 0x02 != 0, 1);
        let f3 = f2.after(flags & 0x04 != 0, 1);
        let f4 = f3.after(flags & 0x08 != 0, 1);
        (
            BoundingRectangle {
                left: f0.moved_or(flags & 0x01 != 0, old.left),
                top: f1.moved_or(flags & 0x02 != 0, old.top),
                right: f2.moved_or(flags & 0x04 != 0, old.right),
                bottom: f3.moved_or(flags & 0x08 != 0, old.bottom),
            },
            f4,
        )
    } else {
        let f1 = f0.after(flags & 0x01 != 0, 2);
        let f2 = f1.after(flags & 0x02 != 0, 2);
        let f3 = f2.after(flags & 0x04 != 0, 2);
        let f4 = f3.after(flags & 0x08 != 0, 2);
        (
            BoundingRectangle {
                left: f0.i16_or(flags & 0x01 != 0, old.left),
                top: f1.i16_or(flags & 0x02 != 0, old.top),
                right: f2.i16_or(flags & 0x04 != 0, old.right),
                bottom: f3.i16_or(flags & 0x08 != 0, old.bottom),
            },
            f4,
        )
    }
}

/// Reads the bounding rectangle of an order, which changes some coordinates of the previous one.
pub fn decode_bounds(
    cursor: &mut ReadCursor<'_>,
    prev_bounds: &BoundingRectangle,
    control_flags: ControlFlags,
) -> (r: DecodeResult<BoundingRectangle>)
    ensures
        ({
            let deltas = control_flags.has(ControlFlags::ZERO_BOUNDS_DELTAS);
            let (bounds, end) = bounds_fields(old(cursor)@, deltas, *prev_bounds);
            &&& final(cursor)@ == end.rest
            &&& match r {
                Ok(b) => end.missing is None && b == bounds,
                Err(e) => end.missing is Some && end.result() == Err::<(), DecodeError>(e),
            }
        }),
{
    proof {
        lemma_missing_stops();
        reveal(Fields::after);
    }
    let mut bounds: BoundingRectangle = *prev_bounds;
    cursor.ensure_size(1)?;
    let flags: u8 = cursor.read_u8();
    if control_flags.contains(ControlFlags::ZERO_BOUNDS_DELTAS) {
        read_move_field(cursor, flags & 0x01 != 0, &mut bounds.left)?;
        read_move_field(cursor, flags & 0x02 != 0, &mut bounds.top)?;
        read_move_field(cursor, flags & 0x04 != 0, &mut bounds.right)?;
        read_move_field(cursor, flags & 0x08 != 0, &mut bounds.bottom)?;
    } else {
        read_i16_field(cursor, flags & 0x01 != 0, &mut bounds.left)?;
        read_i16_field(cursor, flags & 0x02 != 0, &mut bounds.top)?;
        read_i16_field(cursor, flags & 0x04 != 0, &mut bounds.right)?;
        read_i16_field(cursor, flags & 0x08 != 0, &mut bounds.bottom)?;
    }
    Ok(bounds)
}

/// What reading one order gives.
#[verifier::ext_equal]
pub struct DecodedOrder {
    /// The order, or why there is none.
    pub result: DecodeResult<OrderView>,
    /// The values that the next order starts from.
    pub state: OrderStateView,
    /// The bytes behind what was read.
    pub rest: Seq<u8>,
}

pub open spec fn failed(error: DecodeError, state: OrderStateView, rest: Seq<u8>) -> DecodedOrder {
    DecodedOrder { result: Err(error), state, rest }
}

pub open spec fn too_short(available: Seq<u8>, expected: nat, state: OrderStateView) -> DecodedOrder {
    failed(
        DecodeError::NotEnoughBytes { received: available.len() as usize, expected: expected as usize },
        state,
        available,
    )
}

/// Number of field flag bytes for each primary order type.
pub open spec fn flag_bytes(order_type: PrimaryOrderType) -> nat {
    match order_type {
        PrimaryOrderType::DstBlt | PrimaryOrderType::ScrBlt | PrimaryOrderType::OpaqueRect
        | PrimaryOrderType::MultiDstBlt | PrimaryOrderType::Polyline => 1,
        PrimaryOrderType::PatBlt | PrimaryOrderType::LineTo | PrimaryOrderType::MemBlt
        | PrimaryOrderType::MultiPatBlt | PrimaryOrderType::MultiScrBlt
        | PrimaryOrderType::MultiOpaqueRect => 2,
        _ => 3,
    }
}

/// The little-endian value of the first `count` bytes.
pub open spec fn flags_value(bytes: Seq<u8>, count: nat) -> u32
    recommends
        1 <= count <= 3,
{
    if count == 1 {
        bytes[0] as u32
    } else if count == 2 {
        (bytes[0] + 0x100 * bytes[1]) as u32
    } else {
        (bytes[0] + 0x100 * bytes[1] + 0x1_0000 * bytes[2]) as u32
    }
}

/// The fields of a primary order of the given type, which replace those of the previous one. Of the
/// types that are not drawn no field is read.
pub open spec fn order_body(
    bytes: Seq<u8>,
    order_type: PrimaryOrderType,
    flags: u32,
    state: OrderStateView,
) -> (OrderDataView, OrderStateView, Fields) {
    match order_type {
        PrimaryOrderType::DstBlt => {
            let (order, end) = dstblt_fields(bytes, flags, state.dstblt);
            (OrderDataView::DstBlt(order), (OrderStateView { dstblt: order, ..state }), end)
        },
        PrimaryOrderType::PatBlt => {
            let (order, end) = patblt_fields(bytes, flags, state.patblt);
            (OrderDataView::PatBlt(order), (OrderStateView { patblt: order, ..state }), end)
        },
        PrimaryOrderType::ScrBlt => {
            let (order, end) = scrblt_fields(bytes, flags, state.scrblt);
            (OrderDataView::ScrBlt(order), (OrderStateView { scrblt: order, ..state }), end)
        },
        PrimaryOrderType::OpaqueRect => {
            let (order, end) = opaque_rect_fields(bytes, flags, state.opaque_rect);
            (OrderDataView::OpaqueRect(order), (OrderStateView { opaque_rect: order, ..state }), end)
        },
        PrimaryOrderType::LineTo => {
            let (order, end) = line_to_fields(bytes, flags, state.line_to);
            (OrderDataView::LineTo(order), (OrderStateView { line_to: order, ..state }), end)
        },
        PrimaryOrderType::MultiOpaqueRect => {
            let (order, end) = multi_opaque_rect_fields(bytes, flags, state.multi_opaque_rect);
            (OrderDataView::MultiOpaqueRect(order), (OrderStateView { multi_opaque_rect: order, ..state }), end)
        },
        PrimaryOrderType::MultiDstBlt => {
            let (order, end) = multi_dstblt_fields(bytes, flags, state.multi_dstblt);
            (OrderDataView::MultiDstBlt(order), (OrderStateView { multi_dstblt: order, ..state }), end)
        },
        PrimaryOrderType::MultiPatBlt => {
            let (order, end) = multi_patblt_fields(bytes, flags, state.multi_patblt);
            (OrderDataView::MultiPatBlt(order), (OrderStateView { multi_patblt: order, ..state }), end)
        },
        PrimaryOrderType::MultiScrBlt => {
            let (order, end) = multi_scrblt_fields(bytes, flags, state.multi_scrblt);
            (OrderDataView::MultiScrBlt(order), (OrderStateView { multi_scrblt: order, ..state }), end)
        },
        PrimaryOrderType::Polyline => {
            let (order, end) = polyline_fields(bytes, flags, state.polyline);
            (OrderDataView::Polyline(order), (OrderStateView { polyline: order, ..state }), end)
        },
        _ => (OrderDataView::Other(Seq::empty()), state, Fields::start(bytes)),
    }
}

/// A primary order behind its type: field flags, bounds, fields.
pub open spec fn typed_order(
    bytes: Seq<u8>,
    order_type: PrimaryOrderType,
    control: ControlFlags,
    state: OrderStateView,
) -> DecodedOrder {
    let count = flag_bytes(order_type);
    if bytes.len() < count {
        too_short(bytes, count, state)
    } else {
        let flags = flags_value(bytes, count);
        let body = bytes.skip(count as int);
        if control.has(ControlFlags::BOUNDS) {
            let deltas = control.has(ControlFlags::ZERO_BOUNDS_DELTAS);
            let (bounds, end) = bounds_fields(body, deltas, state.bounds);
            match end.missing {
                Some(size) => too_short(end.rest, size, state),
                None => bounded_order(
                    end.rest,
                    order_type,
                    flags,
                    Some(bounds),
                    (OrderStateView { bounds, ..state }),
                ),
            }
        } else {
            bounded_order(body, order_type, flags, None, state)
        }
    }
}

/// A primary order behind its bounds.
#[verifier::opaque]
pub open spec fn bounded_order(
    bytes: Seq<u8>,
    order_type: PrimaryOrderType,
    flags: u32,
    bounds: Option<BoundingRectangle>,
    state: OrderStateView,
) -> DecodedOrder {
    let (data, new_state, end) = order_body(bytes, order_type, flags, state);
    match end.missing {
        Some(size) => too_short(end.rest, size, new_state),
        None => DecodedOrder {
            result: Ok(OrderView::Primary(PrimaryOrderView { order_type, bounds, data })),
            state: new_state,
            rest: end.rest,
        },
    }
}

/// The type that stands for `value` on the wire, if any.
pub open spec fn primary_type(value: u8) -> Option<PrimaryOrderType> {
    if exists|t: PrimaryOrderType| #[trigger] t.code() == value {
        Some(choose|t: PrimaryOrderType| #[trigger] t.code() == value)
    } else {
        None
    }
}

/// A primary order behind its control flags. Without a type of its own it has that of the previous
/// order.
pub open spec fn primary_order(bytes: Seq<u8>, control: ControlFlags, state: OrderStateView) -> DecodedOrder {
    if control.has(ControlFlags::TYPE_CHANGE) {
        if bytes.len() < 1 {
            too_short(bytes, 1, state)
        } else {
            match primary_type(bytes[0]) {
                Some(t) => typed_order(
                    bytes.skip(1),
                    t,
                    control,
                    (OrderStateView { primary_order_type: Some(t), ..state }),
                ),
                None => failed(
                    DecodeError::InvalidField { field: "orderType", reason: "unknown primary order type" },
                    state,
                    bytes.skip(1),
                ),
            }
        }
    } else {
        match state.primary_order_type {
            Some(t) => typed_order(bytes, t, control, state),
            None => failed(
                DecodeError::InvalidField { field: "orderType", reason: "no previous order type" },
                state,
                bytes,
            ),
        }
    }
}

/// A secondary order behind its control flags: length, extra flags, type, data. The length counts
/// ten bytes more than the data.
pub open spec fn secondary_order(bytes: Seq<u8>, state: OrderStateView) -> DecodedOrder {
    if bytes.len() < 5 {
        too_short(bytes, 5, state)
    } else {
        let length = u16_at(bytes, 0);
        let size: nat = if length < 10 {
            0
        } else {
            (length - 10) as nat
        };
        let rest = bytes.skip(5);
        if exists|t: SecondaryOrderType| #[trigger] t.code() == bytes[4] {
            let order_type = choose|t: SecondaryOrderType| #[trigger] t.code() == bytes[4];
            if rest.len() < size {
                too_short(rest, size, state)
            } else {
                DecodedOrder {
                    result: Ok(OrderView::Secondary(order_type, rest.take(size as int))),
                    state,
                    rest: rest.skip(size as int),
                }
            }
        } else {
            failed(
                DecodeError::InvalidField { field: "orderType", reason: "unknown secondary order type" },
                state,
                rest,
            )
        }
    }
}

/// An alternate secondary order behind its control flags: type in the low half of a byte, length of
/// the data, data.
pub open spec fn alternate_order(bytes: Seq<u8>, state: OrderStateView) -> DecodedOrder {
    if bytes.len() < 3 {
        too_short(bytes, 3, state)
    } else {
        let code = bytes[0] & 0x0F;
        let size = u16_at(bytes, 1) as nat;
        let rest = bytes.skip(3);
        if exists|t: AlternateSecondaryOrderType| #[trigger] t.code() == code {
            let order_type = choose|t: AlternateSecondaryOrderType| #[trigger] t.code() == code;
            if rest.len() < size {
                too_short(rest, size, state)
            } else {
                DecodedOrder {
                    result: Ok(OrderView::AlternateSecondary(order_type, rest.take(size as int))),
                    state,
                    rest: rest.skip(size as int),
                }
            }
        } else {
            failed(
                DecodeError::InvalidField {
                    field: "orderType",
                    reason: "unknown alternate secondary order type",
                },
                state,
                rest,
            )
        }
    }
}

/// The order at the front of `bytes`.
#[verifier::opaque]
pub open spec fn order_at(bytes: Seq<u8>, state: OrderStateView) -> DecodedOrder {
    let control = ControlFlags::truncated(bytes[0]);
    if bytes.len() < 1 {
        too_short(bytes, 1, state)
    } else if control.has(ControlFlags::SECONDARY) {
        secondary_order(bytes.skip(1), state)
    } else if control.has(ControlFlags::STANDARD) {
        primary_order(bytes.skip(1), control, state)
    } else {
        alternate_order(bytes.skip(1), state)
    }
}

/// Whether `r` is what `decoded` says, with what it left in the state and the cursor.
pub open spec fn decodes_to(
    r: DecodeResult<DrawingOrder<'_>>,
    state: OrderStateView,
    rest: Seq<u8>,
    decoded: DecodedOrder,
) -> bool {
    &&& state == decoded.state
    &&& rest == decoded.rest
    &&& match r {
        Ok(order) => decoded.result == Ok::<OrderView, DecodeError>(order@),
        Err(e) => decoded.result == Err::<OrderView, DecodeError>(e),
    }
}

/// Number of field flag bytes for each primary order type.
pub fn field_flag_bytes(order_type: PrimaryOrderType) -> (r: usize)
    ensures
        r == flag_bytes(order_type),
        1 <= r <= 3,
{
    match order_type {
        PrimaryOrderType::DstBlt => 1,
        PrimaryOrderType::PatBlt => 2,
        PrimaryOrderType::ScrBlt => 1,
        PrimaryOrderType::OpaqueRect => 1,
        PrimaryOrderType::LineTo => 2,
        PrimaryOrderType::MemBlt => 2,
        PrimaryOrderType::Mem3Blt => 3,
        PrimaryOrderType::MultiDstBlt => 1,
        PrimaryOrderType::MultiPatBlt => 2,
        PrimaryOrderType::MultiScrBlt => 2,
        PrimaryOrderType::MultiOpaqueRect => 2,
        PrimaryOrderType::Polyline => 1,
        _ => 3,
    }
}

/// Reads the fields of a primary order into the state and gives back a copy of them.
fn decode_order_body(
    cursor: &mut ReadCursor<'_>,
    state: &mut DrawingOrderState,
    order_type: PrimaryOrderType,
    flags: u32,
) -> (r: DecodeResult<PrimaryOrderData>)
    ensures
        ({
            let (data, new_state, end) = order_body(old(cursor)@, order_type, flags, old(state)@);
            &&& final(state)@ == new_state
            &&& final(cursor)@ == end.rest
            &&& match r {
                Ok(d) => end.missing is None && d@ == data,
                Err(e) => end.missing is Some && end.result() == Err::<(), DecodeError>(e),
            }
        }),
{
    match order_type {
        PrimaryOrderType::DstBlt => {
            decode_dstblt_order(cursor, &mut state.dstblt, flags)?;
            Ok(PrimaryOrderData::DstBlt(state.dstblt))
        },
        PrimaryOrderType::PatBlt => {
            decode_patblt_order(cursor, &mut state.patblt, flags)?;
            Ok(PrimaryOrderData::PatBlt(state.patblt))
        },
        PrimaryOrderType::ScrBlt => {
            decode_scrblt_order(cursor, &mut state.scrblt, flags)?;
            Ok(PrimaryOrderData::ScrBlt(state.scrblt))
        },
        PrimaryOrderType::OpaqueRect => {
            decode_opaque_rect_order(cursor, &mut state.opaque_rect, flags)?;
            Ok(PrimaryOrderData::OpaqueRect(state.opaque_rect))
        },
        PrimaryOrderType::LineTo => {
            decode_line_to_order(cursor, &mut state.line_to, flags)?;
            Ok(PrimaryOrderData::LineTo(state.line_to))
        },
        PrimaryOrderType::MultiOpaqueRect => {
            decode_multi_opaque_rect_order(cursor, &mut state.multi_opaque_rect, flags)?;
            Ok(PrimaryOrderData::MultiOpaqueRect(state.multi_opaque_rect.clone()))
        },
        PrimaryOrderType::MultiDstBlt => {
            decode_multi_dstblt_order(cursor, &mut state.multi_dstblt, flags)?;
            Ok(PrimaryOrderData::MultiDstBlt(state.multi_dstblt.clone()))
        },
        PrimaryOrderType::MultiPatBlt => {
            decode_multi_patblt_order(cursor, &mut state.multi_patblt, flags)?;
            Ok(PrimaryOrderData::MultiPatBlt(state.multi_patblt.clone()))
        },
        PrimaryOrderType::MultiScrBlt => {
            decode_multi_scrblt_order(cursor, &mut state.multi_scrblt, flags)?;
            Ok(PrimaryOrderData::MultiScrBlt(state.multi_scrblt.clone()))
        },
        PrimaryOrderType::Polyline => {
            decode_polyline_order(cursor, &mut state.polyline, flags)?;
            Ok(PrimaryOrderData::Polyline(state.polyline.clone()))
        },
        _ => Ok(PrimaryOrderData::Other(Vec::new())),
    }
}

/// Reads the `count` bytes of field flags.
fn read_flags(cursor: &mut ReadCursor<'_>, count: usize) -> (r: u32)
    requires
        1 <= count <= 3,
        count <= old(cursor)@.len(),
    ensures
        r == flags_value(old(cursor)@, count as nat),
        final(cursor)@ == old(cursor)@.skip(count as int),
{
    let bytes: &[u8] = cursor.read_slice(count);
    let mut flags: u32 = bytes[0] as u32;
    if count >= 2 {
        flags = flags + 0x100 * (bytes[1] as u32);
    }
    if count >= 3 {
        flags = flags + 0x1_0000 * (bytes[2] as u32);
    }
    flags
}

/// Reads a primary order behind its control flags.
pub fn decode_primary_order<'a>(
    cursor: &mut ReadCursor<'a>,
    state: &mut DrawingOrderState,
    control_flags: ControlFlags,
) -> (r: DecodeResult<DrawingOrder<'a>>)
    ensures
        decodes_to(
            r,
            final(state)@,
            final(cursor)@,
            primary_order(old(cursor)@, control_flags, old(state)@),
        ),
{
    proof {
        reveal(bounded_order);
    }
    let order_type: PrimaryOrderType = if control_flags.contains(ControlFlags::TYPE_CHANGE) {
        cursor.ensure_size(1)?;
        let type_byte: u8 = cursor.read_u8();
        match PrimaryOrderType::from_u8(type_byte) {
            Some(t) => {
                assert(primary_type(type_byte) == Some(t));
                state.primary_order_type = Some(t);
                t
            },
            None => {
                return Err(
                    DecodeError::InvalidField { field: "orderType", reason: "unknown primary order type" },
                );
            },
        }
    } else {
        match state.primary_order_type {
            Some(t) => t,
            None => {
                return Err(DecodeError::InvalidField { field: "orderType", reason: "no previous order type" });
            },
        }
    };

    let count: usize = field_flag_bytes(order_type);
    cursor.ensure_size(count)?;
    let flags: u32 = read_flags(cursor, count);

    let bounds: Option<BoundingRectangle> = if control_flags.contains(ControlFlags::BOUNDS) {
        let b: BoundingRectangle = decode_bounds(cursor, &state.bounds, control_flags)?;
        state.bounds = b;
        Some(b)
    } else {
        None
    };

    let data: PrimaryOrderData = decode_order_body(cursor, state, order_type, flags)?;
    Ok(DrawingOrder::Primary(PrimaryOrder { order_type, bounds, data }))
}

/// Reads a secondary order behind its control flags.
pub fn decode_secondary_order<'a>(cursor: &mut ReadCursor<'a>) -> (r: DecodeResult<DrawingOrder<'a>>)
    ensures
        forall|state: OrderStateView|
            decodes_to(r, state, final(cursor)@, #[trigger] secondary_order(old(cursor)@, state)),
{
    cursor.ensure_size(5)?;
    let order_length: u16 = cursor.read_u16();
    let _extra_flags: u16 = cursor.read_u16();
    let type_byte: u8 = cursor.read_u8();
    assert(cursor@ == old(cursor)@.skip(5));

    let order_type: SecondaryOrderType = match SecondaryOrderType::from_u8(type_byte) {
        Some(t) => t,
        None => {
            return Err(DecodeError::InvalidField { field: "orderType", reason: "unknown secondary order type" });
        },
    };
    assert(order_type.code() == old(cursor)@[4]);

    let data_len: usize = if order_length < 10 {
        0
    } else {
        (order_length - 10) as usize
    };
    cursor.ensure_size(data_len)?;
    let data: &'a [u8] = cursor.read_slice(data_len);
    Ok(DrawingOrder::Secondary(SecondaryOrder { order_type, data }))
}

/// Reads an alternate secondary order behind its control flags.
pub fn decode_alternate_secondary_order<'a>(cursor: &mut ReadCursor<'a>) -> (r: DecodeResult<DrawingOrder<'a>>)
    ensures
        forall|state: OrderStateView|
            decodes_to(r, state, final(cursor)@, #[trigger] alternate_order(old(cursor)@, state)),
{
    cursor.ensure_size(3)?;
    let type_byte: u8 = cursor.read_u8();
    let order_length: u16 = cursor.read_u16();
    assert(cursor@ == old(cursor)@.skip(3));

    let order_type: AlternateSecondaryOrderType = match AlternateSecondaryOrderType::from_u8(type_byte & 0x0F) {
        Some(t) => t,
        None => {
            return Err(
                DecodeError::InvalidField {
                    field: "orderType",
                    reason: "unknown alternate secondary order type",
                },
            );
        },
    };
    assert(order_type.code() == old(cursor)@[0] & 0x0F);

    let data_len: usize = order_length as usize;
    cursor.ensure_size(data_len)?;
    let data: &'a [u8] = cursor.read_slice(data_len);
    Ok(DrawingOrder::AlternateSecondary(AlternateSecondaryOrder { order_type, data }))
}

/// Decode a single drawing order from the stream
pub fn decode_order<'a>(cursor: &mut ReadCursor<'a>, state: &mut DrawingOrderState) -> (r: DecodeResult<DrawingOrder<'a>>)
    ensures
        decodes_to(r, final(state)@, final(cursor)@, order_at(old(cursor)@, old(state)@)),
{
    proof {
        reveal(order_at);
    }
    cursor.ensure_size(1)?;
    let control_flags: ControlFlags = ControlFlags::from_bits_truncate(cursor.read_u8());
    if control_flags.contains(ControlFlags::SECONDARY) {
        decode_secondary_order(cursor)
    } else if control_flags.contains(ControlFlags::STANDARD) {
        decode_primary_order(cursor, state, control_flags)
    } else {
        decode_alternate_secondary_order(cursor)
    }
}

} // verus!
