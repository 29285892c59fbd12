//! What holds of drawing orders of every type.

use vstd::prelude::*;

use crate::drawing_orders::{
    BoundingRectangle, ControlFlags, DeltaPoint, DeltaRect, OrderDataView, OrderStateView, OrderView,
    PrimaryOrderType,
};
use crate::fast_path_update::orders_read;
use crate::order_decoding::{
    bounded_order, bounds_fields, flag_bytes, flags_value, order_at, order_body, point_list, points_from, primary_order,
    primary_type, rect_list, rects_from, typed_order,
};
use crate::order_fields::Fields;
use crate::order_processing::{orders_applied, orders_start, Canvas};
use crate::palette::PaletteEntry;

verus! {

/// A field that is not present is not read, and its value stays.
proof fn lemma_absent()
    ensures
        forall|f: Fields, n: nat| #[trigger] f.after(false, n) == f,
        forall|f: Fields, v: u8| #[trigger] f.u8_or(false, v) == v,
        forall|f: Fields, v: i8| #[trigger] f.i8_or(false, v) == v,
        forall|f: Fields, v: u16| #[trigger] f.u16_or(false, v) == v,
        forall|f: Fields, v: i16| #[trigger] f.i16_or(false, v) == v,
        forall|f: Fields, v: u32| #[trigger] f.color_or(false, v) == v,
        forall|f: Fields, v: u32| #[trigger] f.red_or(false, v) == v,
        forall|f: Fields, v: u32| #[trigger] f.green_or(false, v) == v,
        forall|f: Fields, v: u32| #[trigger] f.blue_or(false, v) == v,
        forall|f: Fields, n: nat, v: Seq<u8>| #[trigger] f.bytes_or(false, n, v) == v,
{
    reveal(Fields::after);
    reveal(Fields::u8_or);
    reveal(Fields::i8_or);
    reveal(Fields::u16_or);
    reveal(Fields::i16_or);
    reveal(Fields::color_or);
    reveal(Fields::red_or);
    reveal(Fields::green_or);
    reveal(Fields::blue_or);
    reveal(Fields::bytes_or);
}

/// The values from which an order of a type starts.
pub open spec fn values_of(state: OrderStateView, order_type: PrimaryOrderType) -> OrderDataView {
    match order_type {
        PrimaryOrderType::DstBlt => OrderDataView::DstBlt(state.dstblt),
        PrimaryOrderType::PatBlt => OrderDataView::PatBlt(state.patblt),
        PrimaryOrderType::ScrBlt => OrderDataView::ScrBlt(state.scrblt),
        PrimaryOrderType::OpaqueRect => OrderDataView::OpaqueRect(state.opaque_rect),
        PrimaryOrderType::LineTo => OrderDataView::LineTo(state.line_to),
        PrimaryOrderType::MultiOpaqueRect => OrderDataView::MultiOpaqueRect(state.multi_opaque_rect),
        PrimaryOrderType::MultiDstBlt => OrderDataView::MultiDstBlt(state.multi_dstblt),
        PrimaryOrderType::MultiPatBlt => OrderDataView::MultiPatBlt(state.multi_patblt),
        PrimaryOrderType::MultiScrBlt => OrderDataView::MultiScrBlt(state.multi_scrblt),
        PrimaryOrderType::Polyline => OrderDataView::Polyline(state.polyline),
        _ => OrderDataView::Other(Seq::empty()),
    }
}

/// An order without fields is the previous order of its type over again: nothing is read, and nothing
/// changes.
pub proof fn law_order_without_fields_repeats(
    bytes: Seq<u8>,
    order_type: PrimaryOrderType,
    state: OrderStateView,
)
    ensures
        order_body(bytes, order_type, 0, state) == (
            values_of(state, order_type),
            state,
            Fields::start(bytes),
        ),
{
    lemma_absent();
    assert(forall|mask: u32| #[trigger] (0u32 & mask) == 0) by (bit_vector);
}

/// What an order shows are the values that its type has from then on.
pub proof fn law_order_is_remembered(
    bytes: Seq<u8>,
    order_type: PrimaryOrderType,
    flags: u32,
    state: OrderStateView,
)
    ensures
        ({
            let (data, after, end) = order_body(bytes, order_type, flags, state);
            data == values_of(after, order_type)
        }),
{
}

/// An order leaves the values of the other types alone.
pub proof fn law_order_changes_its_own_type(
    bytes: Seq<u8>,
    order_type: PrimaryOrderType,
    flags: u32,
    state: OrderStateView,
    other: PrimaryOrderType,
)
    requires
        other != order_type,
    ensures
        ({
            let (data, after, end) = order_body(bytes, order_type, flags, state);
            &&& values_of(after, other) == values_of(state, other)
            &&& after.bounds == state.bounds
            &&& after.primary_order_type == state.primary_order_type
        }),
{
}

/// Secondary and alternate secondary orders leave all values alone.
pub proof fn law_only_primary_orders_change_values(bytes: Seq<u8>, state: OrderStateView)
    requires
        order_at(bytes, state).result matches Ok(order) && !(order is Primary),
    ensures
        order_at(bytes, state).state == state,
{
    reveal(order_at);
    reveal(bounded_order);
}

/// Whether `rest` is what is left of `bytes`.
pub open spec fn is_left(rest: Seq<u8>, bytes: Seq<u8>) -> bool {
    rest.len() <= bytes.len() && rest == bytes.skip(bytes.len() - rest.len())
}

/// Reading on leaves what is left of the same bytes.
proof fn lemma_left(bytes: Seq<u8>)
    ensures
        is_left(bytes, bytes),
        forall|n: int| 0 <= n <= bytes.len() ==> is_left(#[trigger] bytes.skip(n), bytes),
        forall|f: Fields, p: bool, n: nat|
            is_left(f.rest, bytes) ==> is_left((#[trigger] f.after(p, n)).rest, bytes),
{
    reveal(Fields::after);
    assert(bytes.skip(0) =~= bytes);
    assert forall|f: Fields, p: bool, n: nat| is_left(f.rest, bytes) implies is_left(
        (#[trigger] f.after(p, n)).rest,
        bytes,
    ) by {
        if f.reads(p, n) {
            assert(f.rest.skip(n as int) =~= bytes.skip(bytes.len() - f.rest.len() + n));
        }
    }
}

proof fn lemma_left_of_left(a: Seq<u8>, b: Seq<u8>, c: Seq<u8>)
    requires
        is_left(a, b),
        is_left(b, c),
    ensures
        is_left(a, c),
{
    assert(a =~= c.skip(c.len() - a.len()));
}

proof fn lemma_rects_left(bytes: Seq<u8>, zero_bits: Seq<u8>, start: Fields, n: nat)
    requires
        is_left(start.rest, bytes),
    ensures
        is_left(rects_from(zero_bits, start, n).1.rest, bytes),
    decreases n,
{
    lemma_left(bytes);
    if n > 0 {
        lemma_rects_left(bytes, zero_bits, start, (n - 1) as nat);
    }
}

proof fn lemma_points_left(bytes: Seq<u8>, zero_bits: Seq<u8>, start: Fields, n: nat)
    requires
        is_left(start.rest, bytes),
    ensures
        is_left(points_from(zero_bits, start, n).1.rest, bytes),
    decreases n,
{
    lemma_left(bytes);
    if n > 0 {
        lemma_points_left(bytes, zero_bits, start, (n - 1) as nat);
    }
}

proof fn lemma_lists_left(bytes: Seq<u8>)
    ensures
        forall|f: Fields, p: bool, old: Seq<DeltaRect>|
            is_left(f.rest, bytes) ==> is_left((#[trigger] rect_list(f, p, old)).1.rest, bytes),
        forall|f: Fields, p: bool, old: Seq<DeltaPoint>|
            is_left(f.rest, bytes) ==> is_left((#[trigger] point_list(f, p, old)).1.rest, bytes),
{
    lemma_left(bytes);
    assert forall|f: Fields, p: bool, old: Seq<DeltaRect>| is_left(f.rest, bytes) implies is_left(
        (#[trigger] rect_list(f, p, old)).1.rest,
        bytes,
    ) by {
        let f1 = f.after(p, 1);
        if f.reads(p, 1) {
            let count = f.rest[0] as nat;
            let size = (count + 1) / 2;
            let f2 = f1.after(true, size);
            lemma_rects_left(bytes, f1.rest.take(size as int), f2, count);
        }
    }
    assert forall|f: Fields, p: bool, old: Seq<DeltaPoint>| is_left(f.rest, bytes) implies is_left(
        (#[trigger] point_list(f, p, old)).1.rest,
        bytes,
    ) by {
        let f1 = f.after(p, 1);
        if f.reads(p, 1) {
            let count = f.rest[0] as nat;
            let size = (count + 3) / 4;
            let f2 = f1.after(true, size);
            lemma_points_left(bytes, f1.rest.take(size as int), f2, count);
        }
    }
}

proof fn lemma_body_left(bytes: Seq<u8>, order_type: PrimaryOrderType, flags: u32, state: OrderStateView)
    ensures
        is_left(order_body(bytes, order_type, flags, state).2.rest, bytes),
{
    lemma_left(bytes);
    lemma_lists_left(bytes);
}

proof fn lemma_bounds_left(bytes: Seq<u8>, deltas: bool, old: BoundingRectangle)
    ensures
        is_left(bounds_fields(bytes, deltas, old).1.rest, bytes),
{
    lemma_left(bytes);
}

proof fn lemma_typed_left(
    bytes: Seq<u8>,
    order_type: PrimaryOrderType,
    control: ControlFlags,
    state: OrderStateView,
)
    ensures
        is_left(typed_order(bytes, order_type, control, state).rest, bytes),
{
    reveal(bounded_order);
    lemma_left(bytes);
    let count = flag_bytes(order_type);
    if bytes.len() >= count {
        let flags = flags_value(bytes, count);
        let body = bytes.skip(count as int);
        if control.has(ControlFlags::BOUNDS) {
            let deltas = control.has(ControlFlags::ZERO_BOUNDS_DELTAS);
            let (bounds, end) = bounds_fields(body, deltas, state.bounds);
            let after = OrderStateView { bounds, ..state };
            lemma_bounds_left(body, deltas, state.bounds);
            lemma_left_of_left(end.rest, body, bytes);
            lemma_body_left(end.rest, order_type, flags, after);
            lemma_left_of_left(order_body(end.rest, order_type, flags, after).2.rest, end.rest, bytes);
        } else {
            lemma_body_left(body, order_type, flags, state);
            lemma_left_of_left(order_body(body, order_type, flags, state).2.rest, body, bytes);
        }
    }
}

proof fn lemma_primary_left(bytes: Seq<u8>, control: ControlFlags, state: OrderStateView)
    ensures
        is_left(primary_order(bytes, control, state).rest, bytes),
{
    lemma_left(bytes);
    if control.has(ControlFlags::TYPE_CHANGE) {
        if bytes.len() >= 1 {
            match primary_type(bytes[0]) {
                Some(t) => {
                    let after = OrderStateView { primary_order_type: Some(t), ..state };
                    lemma_typed_left(bytes.skip(1), t, control, after);
                    lemma_left_of_left(
                        typed_order(bytes.skip(1), t, control, after).rest,
                        bytes.skip(1),
                        bytes,
                    );
                },
                None => {},
            }
        }
    } else {
        match state.primary_order_type {
            Some(t) => lemma_typed_left(bytes, t, control, state),
            None => {},
        }
    }
}

/// Orders follow each other without gaps: an order is read from the beginning of the bytes, what is left
/// are the bytes behind it, and every order takes at least one byte.
pub proof fn law_orders_follow_each_other(bytes: Seq<u8>, state: OrderStateView)
    ensures
        is_left(order_at(bytes, state).rest, bytes),
        bytes.len() > 0 ==> order_at(bytes, state).rest.len() < bytes.len(),
{
    reveal(order_at);
    lemma_left(bytes);
    if bytes.len() > 0 {
        let body = bytes.skip(1);
        lemma_left(body);
        lemma_primary_left(body, ControlFlags::truncated(bytes[0]), state);
        let rest = order_at(bytes, state).rest;
        assert(is_left(rest, body)) by {
            if body.len() >= 5 {
                lemma_left(body.skip(5));
                assert forall|n: int| 0 <= n <= body.skip(5).len() implies is_left(
                    #[trigger] body.skip(5).skip(n),
                    body,
                ) by {
                    lemma_left_of_left(body.skip(5).skip(n), body.skip(5), body);
                }
            }
            if body.len() >= 3 {
                lemma_left(body.skip(3));
                assert forall|n: int| 0 <= n <= body.skip(3).len() implies is_left(
                    #[trigger] body.skip(3).skip(n),
                    body,
                ) by {
                    lemma_left_of_left(body.skip(3).skip(n), body.skip(3), body);
                }
            }
        }
        lemma_left_of_left(rest, body, bytes);
    }
}

/// What the first orders of a list come to does not depend on the others.
proof fn lemma_applied_prefix(
    canvas: Canvas,
    palette: Seq<PaletteEntry>,
    orders: Seq<OrderView>,
    more: OrderView,
    inflated: Seq<Option<Vec<u8>>>,
    n: nat,
)
    requires
        n <= orders.len(),
    ensures
        orders_applied(canvas, palette, orders.push(more), inflated, n) == orders_applied(
            canvas,
            palette,
            orders,
            inflated,
            n,
        ),
    decreases n,
{
    if n > 0 {
        lemma_applied_prefix(canvas, palette, orders, more, inflated, (n - 1) as nat);
        assert(orders.push(more)[n - 1] == orders[n - 1]);
    }
}

proof fn lemma_orders_read_len(bytes: Seq<u8>, state: OrderStateView, n: nat)
    ensures
        orders_read(bytes, state, n).0 matches Ok(list) ==> list.len() == n,
    decreases n,
{
    if n > 0 {
        lemma_orders_read_len(bytes, state, (n - 1) as nat);
    }
}

/// Orders draw the same on both paths: on the slow path, where each order is drawn as soon as it is read,
/// and on the fast path, where all of them are read first. (Orders that cannot be read or processed are
/// left out: the slow path keeps what was drawn before an order that cannot be read.)
pub proof fn law_both_paths_draw_alike(
    canvas: Canvas,
    state: OrderStateView,
    bytes: Seq<u8>,
    palette: Seq<PaletteEntry>,
    inflated: Seq<Option<Vec<u8>>>,
    n: nat,
)
    requires
        orders_read(bytes, state, n).0 is Ok,
        orders_applied(canvas, palette, orders_read(bytes, state, n).0->Ok_0, inflated, n).2 is None,
    ensures
        ({
            let (list, after, rest) = orders_read(bytes, state, n);
            let (drawn, areas, error) = orders_applied(canvas, palette, list->Ok_0, inflated, n);
            let run = orders_start(canvas, state, bytes).after(palette, inflated, n);
            &&& run.canvas == drawn
            &&& run.state == after
            &&& run.rest == rest
            &&& run.areas == areas
            &&& run.error is None && !run.ended
        }),
    decreases n,
{
    if n > 0 {
        let m = (n - 1) as nat;
        let (before, state_before, rest_before) = orders_read(bytes, state, m);
        let list = before->Ok_0;
        let next = order_at(rest_before, state_before);
        lemma_orders_read_len(bytes, state, m);
        lemma_applied_prefix(canvas, palette, list, next.result->Ok_0, inflated, m);
        law_both_paths_draw_alike(canvas, state, bytes, palette, inflated, m);
        assert(rest_before.len() > 0) by {
            reveal(order_at);
        }
        assert(list.push(next.result->Ok_0)[m as int] == next.result->Ok_0);
    }
}

} // verus!
