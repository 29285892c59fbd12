//! Orders are read alike whatever follows them.

use vstd::prelude::*;

use crate::cursor::u16_at;
use crate::drawing_orders::{
    BoundingRectangle, BrushView, ControlFlags, DeltaPoint, DeltaRect, DstBltOrder, LineToOrder,
    MultiDstBltView, MultiOpaqueRectView, MultiPatBltView, MultiScrBltView, OpaqueRectOrder, OrderStateView,
    PatBltView, PolylineView, PrimaryOrderType, ScrBltOrder,
};
use crate::order_decoding::{
    alternate_order, bounded_order, bounds_fields, brush_fields, delta_points, delta_rects, dstblt_fields,
    flag_bytes, flags_value, frame_fields, line_to_fields, multi_dstblt_fields, multi_opaque_rect_fields,
    multi_patblt_fields, multi_scrblt_fields, opaque_rect_fields, order_at, order_body, patblt_fields,
    point_list, points_from, polyline_fields, primary_order, primary_type, rect_list, rects_from,
    scrblt_fields, secondary_order, typed_order, DecodedOrder, Frame,
};
use crate::order_fields::Fields;
use crate::order_processing::{inflated_bytes, orders_start, read_ahead, Canvas, OrdersRun};
use crate::palette::PaletteEntry;

verus! {

/// The same fields with more bytes behind them.
#[verifier::opaque]
spec fn followed(f: Fields, tail: Seq<u8>) -> Fields {
    Fields { rest: f.rest + tail, missing: f.missing }
}

/// Fields that fit are read alike whatever follows them.
proof fn lemma_followed(tail: Seq<u8>)
    ensures
        forall|f: Fields| (#[trigger] followed(f, tail)).missing == f.missing,
        forall|f: Fields, p: bool, n: nat| (#[trigger] f.after(p, n)).missing is None ==> f.missing is None,
        forall|f: Fields, p: bool, n: nat|
            f.after(p, n).missing is None ==> #[trigger] followed(f, tail).after(p, n) == followed(
                f.after(p, n),
                tail,
            ),
        forall|f: Fields, p: bool, v: u8|
            f.after(p, 1).missing is None ==> #[trigger] followed(f, tail).u8_or(p, v) == f.u8_or(p, v),
        forall|f: Fields, p: bool, v: i8|
            f.after(p, 1).missing is None ==> #[trigger] followed(f, tail).i8_or(p, v) == f.i8_or(p, v),
        forall|f: Fields, p: bool, v: u16|
            f.after(p, 2).missing is None ==> #[trigger] followed(f, tail).u16_or(p, v) == f.u16_or(p, v),
        forall|f: Fields, p: bool, v: i16|
            f.after(p, 2).missing is None ==> #[trigger] followed(f, tail).i16_or(p, v) == f.i16_or(p, v),
        forall|f: Fields, p: bool, v: i16|
            f.after(p, 1).missing is None ==> #[trigger] followed(f, tail).moved_or(p, v) == f.moved_or(p, v),
        forall|f: Fields, p: bool, v: u32|
            f.after(p, 3).missing is None ==> #[trigger] followed(f, tail).color_or(p, v) == f.color_or(p, v),
        forall|f: Fields, p: bool, v: u32|
            f.after(p, 1).missing is None ==> #[trigger] followed(f, tail).red_or(p, v) == f.red_or(p, v),
        forall|f: Fields, p: bool, v: u32|
            f.after(p, 1).missing is None ==> #[trigger] followed(f, tail).green_or(p, v) == f.green_or(p, v),
        forall|f: Fields, p: bool, v: u32|
            f.after(p, 1).missing is None ==> #[trigger] followed(f, tail).blue_or(p, v) == f.blue_or(p, v),
        forall|f: Fields, p: bool, n: nat, v: Seq<u8>|
            f.after(p, n).missing is None ==> #[trigger] followed(f, tail).bytes_or(p, n, v) == f.bytes_or(
                p,
                n,
                v,
            ),
        forall|f: Fields, wide: bool|
            f.after_delta(wide).missing is None ==> #[trigger] followed(f, tail).delta(wide) == f.delta(wide),
{
    reveal(followed);
    reveal(Fields::after);
    reveal(Fields::u8_or);
    reveal(Fields::i8_or);
    reveal(Fields::u16_or);
    reveal(Fields::i16_or);
    reveal(Fields::moved_or);
    reveal(Fields::color_or);
    reveal(Fields::red_or);
    reveal(Fields::green_or);
    reveal(Fields::blue_or);
    reveal(Fields::bytes_or);
    assert forall|f: Fields, p: bool, n: nat| f.after(p, n).missing is None implies #[trigger] followed(
        f,
        tail,
    ).after(p, n) == followed(f.after(p, n), tail) by {
        if p {
            assert((f.rest + tail).skip(n as int) =~= f.rest.skip(n as int) + tail);
        }
    }
    assert forall|f: Fields, p: bool, n: nat, v: Seq<u8>|
        f.after(p, n).missing is None implies #[trigger] followed(f, tail).bytes_or(p, n, v) == f.bytes_or(
        p,
        n,
        v,
    ) by {
        if p {
            assert((f.rest + tail).take(n as int) =~= f.rest.take(n as int));
        }
    }
}

proof fn lemma_start_followed(bytes: Seq<u8>, tail: Seq<u8>)
    ensures
        Fields::start(bytes + tail) == followed(Fields::start(bytes), tail),
{
    reveal(followed);
}

proof fn lemma_frame_followed(f: Fields, flags: u32, old: Frame, tail: Seq<u8>)
    requires
        frame_fields(f, flags, old).1.missing is None,
    ensures
        f.missing is None,
        frame_fields(followed(f, tail), flags, old) == (
            frame_fields(f, flags, old).0,
            followed(frame_fields(f, flags, old).1, tail),
        ),
{
    lemma_followed(tail);
}

proof fn lemma_brush_followed(f: Fields, flags: u32, old: BrushView, tail: Seq<u8>)
    requires
        brush_fields(f, flags, old).1.missing is None,
    ensures
        f.missing is None,
        brush_fields(followed(f, tail), flags, old) == (
            brush_fields(f, flags, old).0,
            followed(brush_fields(f, flags, old).1, tail),
        ),
{
    lemma_followed(tail);
}

proof fn lemma_rects_followed(zero_bits: Seq<u8>, start: Fields, n: nat, tail: Seq<u8>)
    requires
        rects_from(zero_bits, start, n).1.missing is None,
    ensures
        start.missing is None,
        rects_from(zero_bits, followed(start, tail), n) == (
            rects_from(zero_bits, start, n).0,
            followed(rects_from(zero_bits, start, n).1, tail),
        ),
    decreases n,
{
    lemma_followed(tail);
    if n > 0 {
        lemma_rects_followed(zero_bits, start, (n - 1) as nat, tail);
    }
}

proof fn lemma_rect_list_followed(f: Fields, present: bool, old: Seq<DeltaRect>, tail: Seq<u8>)
    requires
        rect_list(f, present, old).1.missing is None,
    ensures
        f.missing is None,
        rect_list(followed(f, tail), present, old) == (
            rect_list(f, present, old).0,
            followed(rect_list(f, present, old).1, tail),
        ),
{
    lemma_followed(tail);
    reveal(followed);
    reveal(Fields::after);
    if f.reads(present, 1) {
        let first = f.after(present, 1);
        let count = f.rest[0] as nat;
        let size = (count + 1) / 2;
        let second = first.after(true, size);
        assert((first.rest + tail).take(size as int) =~= first.rest.take(size as int));
        assert(followed(first, tail).after(true, size) == followed(second, tail));
        lemma_rects_followed(first.rest.take(size as int), second, count, tail);
        assert(delta_rects(followed(first, tail), count) == (
            delta_rects(first, count).0,
            followed(delta_rects(first, count).1, tail),
        ));
    }
}

proof fn lemma_points_followed(zero_bits: Seq<u8>, start: Fields, n: nat, tail: Seq<u8>)
    requires
        points_from(zero_bits, start, n).1.missing is None,
    ensures
        start.missing is None,
        points_from(zero_bits, followed(start, tail), n) == (
            points_from(zero_bits, start, n).0,
            followed(points_from(zero_bits, start, n).1, tail),
        ),
    decreases n,
{
    lemma_followed(tail);
    if n > 0 {
        lemma_points_followed(zero_bits, start, (n - 1) as nat, tail);
    }
}

proof fn lemma_point_list_followed(f: Fields, present: bool, old: Seq<DeltaPoint>, tail: Seq<u8>)
    requires
        point_list(f, present, old).1.missing is None,
    ensures
        f.missing is None,
        point_list(followed(f, tail), present, old) == (
            point_list(f, present, old).0,
            followed(point_list(f, present, old).1, tail),
        ),
{
    lemma_followed(tail);
    reveal(followed);
    reveal(Fields::after);
    if f.reads(present, 1) {
        let first = f.after(present, 1);
        let count = f.rest[0] as nat;
        let size = (count + 3) / 4;
        let second = first.after(true, size);
        assert((first.rest + tail).take(size as int) =~= first.rest.take(size as int));
        assert(followed(first, tail).after(true, size) == followed(second, tail));
        lemma_points_followed(first.rest.take(size as int), second, count, tail);
        assert(delta_points(followed(first, tail), count) == (
            delta_points(first, count).0,
            followed(delta_points(first, count).1, tail),
        ));
    }
}

proof fn lemma_dstblt_followed(bytes: Seq<u8>, flags: u32, old: DstBltOrder, tail: Seq<u8>)
    requires
        dstblt_fields(bytes, flags, old).1.missing is None,
    ensures
        dstblt_fields(bytes + tail, flags, old) == (
            dstblt_fields(bytes, flags, old).0,
            followed(dstblt_fields(bytes, flags, old).1, tail),
        ),
{
    lemma_followed(tail);
    lemma_start_followed(bytes, tail);
    let before = Frame { x: old.x, y: old.y, width: old.width, height: old.height };
    lemma_frame_followed(Fields::start(bytes), flags, before, tail);
}

proof fn lemma_patblt_followed(bytes: Seq<u8>, flags: u32, old: PatBltView, tail: Seq<u8>)
    requires
        patblt_fields(bytes, flags, old).1.missing is None,
    ensures
        patblt_fields(bytes + tail, flags, old) == (
            patblt_fields(bytes, flags, old).0,
            followed(patblt_fields(bytes, flags, old).1, tail),
        ),
{
    lemma_followed(tail);
    lemma_start_followed(bytes, tail);
    let before = Frame { x: old.x, y: old.y, width: old.width, height: old.height };
    let (frame, f4) = frame_fields(Fields::start(bytes), flags, before);
    let f5 = f4.after(flags & 0x0010 != 0, 1);
    let f6 = f5.after(flags & 0x0020 != 0, 3);
    let f7 = f6.after(flags & 0x0040 != 0, 3);
    lemma_brush_followed(f7, flags, old.brush, tail);
    lemma_frame_followed(Fields::start(bytes), flags, before, tail);
}

proof fn lemma_scrblt_followed(bytes: Seq<u8>, flags: u32, old: ScrBltOrder, tail: Seq<u8>)
    requires
        scrblt_fields(bytes, flags, old).1.missing is None,
    ensures
        scrblt_fields(bytes + tail, flags, old) == (
            scrblt_fields(bytes, flags, old).0,
            followed(scrblt_fields(bytes, flags, old).1, tail),
        ),
{
    lemma_followed(tail);
    lemma_start_followed(bytes, tail);
    let before = Frame { x: old.x, y: old.y, width: old.width, height: old.height };
    lemma_frame_followed(Fields::start(bytes), flags, before, tail);
}

proof fn lemma_opaque_rect_followed(bytes: Seq<u8>, flags: u32, old: OpaqueRectOrder, tail: Seq<u8>)
    requires
        opaque_rect_fields(bytes, flags, old).1.missing is None,
    ensures
        opaque_rect_fields(bytes + tail, flags, old) == (
            opaque_rect_fields(bytes, flags, old).0,
            followed(opaque_rect_fields(bytes, flags, old).1, tail),
        ),
{
    lemma_followed(tail);
    lemma_start_followed(bytes, tail);
    let before = Frame { x: old.x, y: old.y, width: old.width, height: old.height };
    lemma_frame_followed(Fields::start(bytes), flags, before, tail);
}

proof fn lemma_line_to_followed(bytes: Seq<u8>, flags: u32, old: LineToOrder, tail: Seq<u8>)
    requires
        line_to_fields(bytes, flags, old).1.missing is None,
    ensures
        line_to_fields(bytes + tail, flags, old) == (
            line_to_fields(bytes, flags, old).0,
            followed(line_to_fields(bytes, flags, old).1, tail),
        ),
{
    lemma_followed(tail);
    lemma_start_followed(bytes, tail);
}

proof fn lemma_multi_opaque_rect_followed(bytes: Seq<u8>, flags: u32, old: MultiOpaqueRectView, tail: Seq<u8>)
    requires
        multi_opaque_rect_fields(bytes, flags, old).1.missing is None,
    ensures
        multi_opaque_rect_fields(bytes + tail, flags, old) == (
            multi_opaque_rect_fields(bytes, flags, old).0,
            followed(multi_opaque_rect_fields(bytes, flags, old).1, tail),
        ),
{
    lemma_followed(tail);
    lemma_start_followed(bytes, tail);
    let before = Frame { x: old.x, y: old.y, width: old.width, height: old.height };
    let (frame, f4) = frame_fields(Fields::start(bytes), flags, before);
    let f5 = f4.after(flags & 0x0010 != 0, 1);
    let f6 = f5.after(flags & 0x0020 != 0, 1);
    let f7 = f6.after(flags & 0x0040 != 0, 1);
    lemma_rect_list_followed(f7, flags & 0x0180 != 0, old.rectangles, tail);
    lemma_frame_followed(Fields::start(bytes), flags, before, tail);
}

proof fn lemma_multi_dstblt_followed(bytes: Seq<u8>, flags: u32, old: MultiDstBltView, tail: Seq<u8>)
    requires
        multi_dstblt_fields(bytes, flags, old).1.missing is None,
    ensures
        multi_dstblt_fields(bytes + tail, flags, old) == (
            multi_dstblt_fields(bytes, flags, old).0,
            followed(multi_dstblt_fields(bytes, flags, old).1, tail),
        ),
{
    lemma_followed(tail);
    lemma_start_followed(bytes, tail);
    let before = Frame { x: old.x, y: old.y, width: old.width, height: old.height };
    let (frame, f4) = frame_fields(Fields::start(bytes), flags, before);
    let f5 = f4.after(flags & 0x10 != 0, 1);
    lemma_rect_list_followed(f5, flags & 0x60 != 0, old.rectangles, tail);
    lemma_frame_followed(Fields::start(bytes), flags, before, tail);
}

proof fn lemma_multi_patblt_followed(bytes: Seq<u8>, flags: u32, old: MultiPatBltView, tail: Seq<u8>)
    requires
        multi_patblt_fields(bytes, flags, old).1.missing is None,
    ensures
        multi_patblt_fields(bytes + tail, flags, old) == (
            multi_patblt_fields(bytes, flags, old).0,
            followed(multi_patblt_fields(bytes, flags, old).1, tail),
        ),
{
    lemma_followed(tail);
    lemma_start_followed(bytes, tail);
    let before = Frame { x: old.x, y: old.y, width: old.width, height: old.height };
    let (frame, f4) = frame_fields(Fields::start(bytes), flags, before);
    let f5 = f4.after(flags & 0x0010 != 0, 1);
    let f6 = f5.after(flags & 0x0020 != 0, 3);
    let f7 = f6.after(flags & 0x0040 != 0, 3);
    let (brush, f8) = brush_fields(f7, flags, old.brush);
    lemma_rect_list_followed(f8, flags & 0x3000 != 0, old.rectangles, tail);
    lemma_brush_followed(f7, flags, old.brush, tail);
    lemma_frame_followed(Fields::start(bytes), flags, before, tail);
}

proof fn lemma_multi_scrblt_followed(bytes: Seq<u8>, flags: u32, old: MultiScrBltView, tail: Seq<u8>)
    requires
        multi_scrblt_fields(bytes, flags, old).1.missing is None,
    ensures
        multi_scrblt_fields(bytes + tail, flags, old) == (
            multi_scrblt_fields(bytes, flags, old).0,
            followed(multi_scrblt_fields(bytes, flags, old).1, tail),
        ),
{
    lemma_followed(tail);
    lemma_start_followed(bytes, tail);
    let before = Frame { x: old.x, y: old.y, width: old.width, height: old.height };
    let (frame, f4) = frame_fields(Fields::start(bytes), flags, before);
    let f5 = f4.after(flags & 0x0010 != 0, 1);
    let f6 = f5.after(flags & 0x0020 != 0, 2);
    let f7 = f6.after(flags & 0x0040 != 0, 2);
    lemma_rect_list_followed(f7, flags & 0x0180 != 0, old.rectangles, tail);
    lemma_frame_followed(Fields::start(bytes), flags, before, tail);
}

proof fn lemma_polyline_followed(bytes: Seq<u8>, flags: u32, old: PolylineView, tail: Seq<u8>)
    requires
        polyline_fields(bytes, flags, old).1.missing is None,
    ensures
        polyline_fields(bytes + tail, flags, old) == (
            polyline_fields(bytes, flags, old).0,
            followed(polyline_fields(bytes, flags, old).1, tail),
        ),
{
    lemma_followed(tail);
    lemma_start_followed(bytes, tail);
    let f0 = Fields::start(bytes);
    let f1 = f0.after(flags & 0x01 != 0, 2);
    let f2 = f1.after(flags & 0x02 != 0, 2);
    let f3 = f2.after(flags & 0x04 != 0, 1);
    let f4 = f3.after(flags & 0x08 != 0, 2);
    let f5 = f4.after(flags & 0x10 != 0, 3);
    lemma_point_list_followed(f5, flags & 0x60 != 0, old.points, tail);
}

proof fn lemma_bounds_followed(bytes: Seq<u8>, deltas: bool, old: BoundingRectangle, tail: Seq<u8>)
    requires
        bounds_fields(bytes, deltas, old).1.missing is None,
    ensures
        bounds_fields(bytes + tail, deltas, old) == (
            bounds_fields(bytes, deltas, old).0,
            followed(bounds_fields(bytes, deltas, old).1, tail),
        ),
{
    lemma_followed(tail);
    lemma_start_followed(bytes, tail);
    assert(bytes.len() >= 1) by {
        reveal(Fields::after);
    }
    assert((bytes + tail)[0] == bytes[0]);
}

proof fn lemma_body_followed(
    bytes: Seq<u8>,
    order_type: PrimaryOrderType,
    flags: u32,
    state: OrderStateView,
    tail: Seq<u8>,
)
    requires
        order_body(bytes, order_type, flags, state).2.missing is None,
    ensures
        ({
            let (data, after, end) = order_body(bytes, order_type, flags, state);
            order_body(bytes + tail, order_type, flags, state) == (data, after, followed(end, tail))
        }),
{
    match order_type {
        PrimaryOrderType::DstBlt => lemma_dstblt_followed(bytes, flags, state.dstblt, tail),
        PrimaryOrderType::PatBlt => lemma_patblt_followed(bytes, flags, state.patblt, tail),
        PrimaryOrderType::ScrBlt => lemma_scrblt_followed(bytes, flags, state.scrblt, tail),
        PrimaryOrderType::OpaqueRect => lemma_opaque_rect_followed(bytes, flags, state.opaque_rect, tail),
        PrimaryOrderType::LineTo => lemma_line_to_followed(bytes, flags, state.line_to, tail),
        PrimaryOrderType::MultiOpaqueRect => lemma_multi_opaque_rect_followed(bytes, flags, state.multi_opaque_rect, tail),
        PrimaryOrderType::MultiDstBlt => lemma_multi_dstblt_followed(bytes, flags, state.multi_dstblt, tail),
        PrimaryOrderType::MultiPatBlt => lemma_multi_patblt_followed(bytes, flags, state.multi_patblt, tail),
        PrimaryOrderType::MultiScrBlt => lemma_multi_scrblt_followed(bytes, flags, state.multi_scrblt, tail),
        PrimaryOrderType::Polyline => lemma_polyline_followed(bytes, flags, state.polyline, tail),
        _ => lemma_start_followed(bytes, tail),
    }
}

/// What `decoded` is with more bytes behind it.
pub open spec fn with_tail(decoded: DecodedOrder, tail: Seq<u8>) -> DecodedOrder {
    DecodedOrder { rest: decoded.rest + tail, ..decoded }
}

proof fn lemma_bounded_followed(
    bytes: Seq<u8>,
    order_type: PrimaryOrderType,
    flags: u32,
    bounds: Option<BoundingRectangle>,
    state: OrderStateView,
    tail: Seq<u8>,
)
    requires
        bounded_order(bytes, order_type, flags, bounds, state).result is Ok,
    ensures
        bounded_order(bytes + tail, order_type, flags, bounds, state) == with_tail(
            bounded_order(bytes, order_type, flags, bounds, state),
            tail,
        ),
{
    reveal(bounded_order);
    lemma_body_followed(bytes, order_type, flags, state, tail);
    reveal(followed);
}

proof fn lemma_typed_followed(
    bytes: Seq<u8>,
    order_type: PrimaryOrderType,
    control: ControlFlags,
    state: OrderStateView,
    tail: Seq<u8>,
)
    requires
        typed_order(bytes, order_type, control, state).result is Ok,
    ensures
        typed_order(bytes + tail, order_type, control, state) == with_tail(
            typed_order(bytes, order_type, control, state),
            tail,
        ),
{
    let count = flag_bytes(order_type);
    let flags = flags_value(bytes, count);
    let body = bytes.skip(count as int);
    assert((bytes + tail).skip(count as int) =~= body + tail);
    assert(flags_value(bytes + tail, count) == flags);
    if control.has(ControlFlags::BOUNDS) {
        let deltas = control.has(ControlFlags::ZERO_BOUNDS_DELTAS);
        let (bounds, end) = bounds_fields(body, deltas, state.bounds);
        let after = OrderStateView { bounds, ..state };
        lemma_bounds_followed(body, deltas, state.bounds, tail);
        assert(followed(end, tail) == (Fields { rest: end.rest + tail, missing: end.missing })) by {
            reveal(followed);
        }
        lemma_bounded_followed(end.rest, order_type, flags, Some(bounds), after, tail);
    } else {
        lemma_bounded_followed(body, order_type, flags, None, state, tail);
    }
}

proof fn lemma_primary_followed(bytes: Seq<u8>, control: ControlFlags, state: OrderStateView, tail: Seq<u8>)
    requires
        primary_order(bytes, control, state).result is Ok,
    ensures
        primary_order(bytes + tail, control, state) == with_tail(primary_order(bytes, control, state), tail),
{
    if control.has(ControlFlags::TYPE_CHANGE) {
        let t = primary_type(bytes[0])->Some_0;
        let after = OrderStateView { primary_order_type: Some(t), ..state };
        assert((bytes + tail)[0] == bytes[0]);
        assert((bytes + tail).skip(1) =~= bytes.skip(1) + tail);
        lemma_typed_followed(bytes.skip(1), t, control, after, tail);
    } else {
        lemma_typed_followed(bytes, state.primary_order_type->Some_0, control, state, tail);
    }
}

proof fn lemma_secondary_followed(bytes: Seq<u8>, state: OrderStateView, tail: Seq<u8>)
    requires
        secondary_order(bytes, state).result is Ok,
    ensures
        secondary_order(bytes + tail, state) == with_tail(secondary_order(bytes, state), tail),
{
    let length = u16_at(bytes, 0);
    let size: int = if length < 10 {
        0
    } else {
        length - 10
    };
    let rest = bytes.skip(5);
    assert(u16_at(bytes + tail, 0) == length);
    assert((bytes + tail)[4] == bytes[4]);
    assert((bytes + tail).skip(5) =~= rest + tail);
    assert((rest + tail).take(size) =~= rest.take(size));
    assert((rest + tail).skip(size) =~= rest.skip(size) + tail);
}

proof fn lemma_alternate_followed(bytes: Seq<u8>, state: OrderStateView, tail: Seq<u8>)
    requires
        alternate_order(bytes, state).result is Ok,
    ensures
        alternate_order(bytes + tail, state) == with_tail(alternate_order(bytes, state), tail),
{
    let size = u16_at(bytes, 1) as int;
    let rest = bytes.skip(3);
    assert(u16_at(bytes + tail, 1) == size);
    assert((bytes + tail)[0] == bytes[0]);
    assert((bytes + tail).skip(3) =~= rest + tail);
    assert((rest + tail).take(size) =~= rest.take(size));
    assert((rest + tail).skip(size) =~= rest.skip(size) + tail);
}

/// An order that can be read is read alike whatever follows it.
pub proof fn law_order_reads_alike(bytes: Seq<u8>, state: OrderStateView, tail: Seq<u8>)
    requires
        order_at(bytes, state).result is Ok,
    ensures
        order_at(bytes + tail, state) == with_tail(order_at(bytes, state), tail),
{
    reveal(order_at);
    let control = ControlFlags::truncated(bytes[0]);
    assert((bytes + tail)[0] == bytes[0]);
    assert((bytes + tail).skip(1) =~= bytes.skip(1) + tail);
    if control.has(ControlFlags::SECONDARY) {
        lemma_secondary_followed(bytes.skip(1), state, tail);
    } else if control.has(ControlFlags::STANDARD) {
        lemma_primary_followed(bytes.skip(1), control, state, tail);
    } else {
        lemma_alternate_followed(bytes.skip(1), state, tail);
    }
}

/// As long as orders can be read and processed, the run is where reading ahead is.
proof fn lemma_run_reads(start: OrdersRun, palette: Seq<PaletteEntry>, inflated: Seq<Option<Vec<u8>>>, k: nat)
    requires
        !start.ended,
        read_ahead(start.rest, start.state, k).2,
        start.after(palette, inflated, k).error is None,
    ensures
        ({
            let run = start.after(palette, inflated, k);
            let found = read_ahead(start.rest, start.state, k);
            !run.ended && run.state == found.0 && run.rest == found.1
        }),
    decreases k,
{
    if k > 0 {
        lemma_run_reads(start, palette, inflated, (k - 1) as nat);
    }
}

/// Orders that can be read and processed are processed alike whatever follows them.
proof fn lemma_run_alike(
    canvas: Canvas,
    state: OrderStateView,
    good: Seq<u8>,
    tail: Seq<u8>,
    palette: Seq<PaletteEntry>,
    inflated: Seq<Option<Vec<u8>>>,
    k: nat,
)
    requires
        read_ahead(good, state, k).2,
        orders_start(canvas, state, good).after(palette, inflated, k).error is None,
    ensures
        ({
            let run = orders_start(canvas, state, good).after(palette, inflated, k);
            orders_start(canvas, state, good + tail).after(palette, inflated, k) == (OrdersRun {
                rest: run.rest + tail,
                ..run
            })
        }),
    decreases k,
{
    if k > 0 {
        let m = (k - 1) as nat;
        let start = orders_start(canvas, state, good);
        let before = start.after(palette, inflated, m);
        lemma_run_alike(canvas, state, good, tail, palette, inflated, m);
        lemma_run_reads(start, palette, inflated, m);
        law_order_reads_alike(before.rest, before.state, tail);
    }
}

/// A bad order behind good ones ends the update without an error: what the good ones drew and cached
/// stays, and the bad order and everything behind it are dropped. Here `good` holds exactly `k` orders,
/// which can all be read and processed, and no order can be read at the front of `bad`.
pub proof fn law_bad_order_ends_the_update(
    canvas: Canvas,
    state: OrderStateView,
    good: Seq<u8>,
    bad: Seq<u8>,
    palette: Seq<PaletteEntry>,
    inflated: Seq<Option<Vec<u8>>>,
    k: nat,
    n: nat,
)
    requires
        k < n,
        read_ahead(good, state, k).2,
        read_ahead(good, state, k).1.len() == 0,
        orders_start(canvas, state, good).after(palette, inflated, k).error is None,
        bad.len() > 0,
        order_at(bad, read_ahead(good, state, k).0).result is Err,
    ensures
        ({
            let alone = orders_start(canvas, state, good).after(palette, inflated, k);
            let all = orders_start(canvas, state, good + bad).after(palette, inflated, n);
            &&& all.canvas == alone.canvas
            &&& all.result() == alone.result()
            &&& all.result() is Ok
        }),
    decreases n,
{
    if n == k + 1 {
        let alone = orders_start(canvas, state, good).after(palette, inflated, k);
        lemma_run_alike(canvas, state, good, bad, palette, inflated, k);
        lemma_run_reads(orders_start(canvas, state, good), palette, inflated, k);
        assert(alone.rest + bad =~= bad);
    } else {
        law_bad_order_ends_the_update(canvas, state, good, bad, palette, inflated, k, (n - 1) as nat);
        lemma_bad_order_ends(canvas, state, good, bad, palette, inflated, k, (n - 1) as nat);
    }
}

proof fn lemma_bad_order_ends(
    canvas: Canvas,
    state: OrderStateView,
    good: Seq<u8>,
    bad: Seq<u8>,
    palette: Seq<PaletteEntry>,
    inflated: Seq<Option<Vec<u8>>>,
    k: nat,
    n: nat,
)
    requires
        k < n,
        read_ahead(good, state, k).2,
        read_ahead(good, state, k).1.len() == 0,
        orders_start(canvas, state, good).after(palette, inflated, k).error is None,
        bad.len() > 0,
        order_at(bad, read_ahead(good, state, k).0).result is Err,
    ensures
        orders_start(canvas, state, good + bad).after(palette, inflated, n).ended,
    decreases n,
{
    if n == k + 1 {
        let alone = orders_start(canvas, state, good).after(palette, inflated, k);
        lemma_run_alike(canvas, state, good, bad, palette, inflated, k);
        lemma_run_reads(orders_start(canvas, state, good), palette, inflated, k);
        assert(alone.rest + bad =~= bad);
    } else {
        lemma_bad_order_ends(canvas, state, good, bad, palette, inflated, k, (n - 1) as nat);
    }
}

/// Orders that can all be read and processed can be read and processed one after the other.
proof fn lemma_earlier_orders(
    start: OrdersRun,
    palette: Seq<PaletteEntry>,
    inflated: Seq<Option<Vec<u8>>>,
    m: nat,
    k: nat,
)
    requires
        m <= k,
        read_ahead(start.rest, start.state, k).2,
        start.after(palette, inflated, k).error is None,
    ensures
        read_ahead(start.rest, start.state, m).2,
        start.after(palette, inflated, m).error is None,
        m < k ==> {
            let found = read_ahead(start.rest, start.state, m);
            found.1.len() > 0 && order_at(found.1, found.0).result is Ok
        },
    decreases k - m,
{
    if m < k {
        lemma_earlier_orders(start, palette, inflated, m + 1, k);
    }
}

/// Where good orders are complete, so are they with a bad order behind them: the bad one, and what is
/// behind it, is not processed.
pub proof fn law_bad_order_needs_nothing(
    canvas: Canvas,
    state: OrderStateView,
    good: Seq<u8>,
    bad: Seq<u8>,
    palette: Seq<PaletteEntry>,
    inflated: Seq<Option<Vec<u8>>>,
    k: nat,
    n: nat,
)
    requires
        k < n,
        read_ahead(good, state, k).2,
        read_ahead(good, state, k).1.len() == 0,
        orders_start(canvas, state, good).after(palette, inflated, k).error is None,
        bad.len() > 0,
        order_at(bad, read_ahead(good, state, k).0).result is Err,
        orders_start(canvas, state, good).whole(palette, inflated, k),
    ensures
        orders_start(canvas, state, good + bad).whole(palette, inflated, n),
{
    let alone = orders_start(canvas, state, good);
    let all = orders_start(canvas, state, good + bad);
    assert forall|m: int| 0 <= m < n implies #[trigger] all.after(palette, inflated, m as nat).next_is_whole(
        inflated_bytes(inflated, m),
    ) by {
        if m > k {
            lemma_bad_order_ends(canvas, state, good, bad, palette, inflated, k, m as nat);
        } else {
            let before = alone.after(palette, inflated, m as nat);
            lemma_earlier_orders(alone, palette, inflated, m as nat, k);
            lemma_run_alike(canvas, state, good, bad, palette, inflated, m as nat);
            lemma_run_reads(alone, palette, inflated, m as nat);
            if m < k {
                assert(before.next_is_whole(inflated_bytes(inflated, m)));
                law_order_reads_alike(before.rest, before.state, bad);
            } else {
                assert(before.rest + bad =~= bad);
            }
        }
    }
}

/// There are never more updates than orders.
pub proof fn law_no_more_updates_than_orders(
    canvas: Canvas,
    state: OrderStateView,
    data: Seq<u8>,
    palette: Seq<PaletteEntry>,
    inflated: Seq<Option<Vec<u8>>>,
    n: nat,
)
    ensures
        orders_start(canvas, state, data).after(palette, inflated, n).areas.len() <= n,
        orders_start(canvas, state, data).after(palette, inflated, n).result() matches Ok(updates) ==> updates.len()
            <= n,
    decreases n,
{
    if n > 0 {
        law_no_more_updates_than_orders(canvas, state, data, palette, inflated, (n - 1) as nat);
    }
}

} // verus!
