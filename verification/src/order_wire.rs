//! How whole orders are written, and that reading gives them back.

use vstd::prelude::*;

use crate::drawing_orders::{
    AlternateSecondaryOrderType, BoundingRectangle, ControlFlags, DeltaPoint, DeltaRect, OrderDataView,
    OrderStateView, OrderView, PrimaryOrderType, PrimaryOrderView, SecondaryOrderType,
};
use crate::order_decoding::{
    alternate_order, bounded_order, bounds_fields, flag_bytes, order_at, order_body, point_list,
    primary_order, primary_type, rect_list, secondary_order, typed_order, DecodedOrder,
};
use crate::order_encoding::{
    field, law_i16_field, law_move_field, pick, points_fit, rects_fit, step,
};
use crate::order_fields::Fields;
use crate::primary_encoding::{
    dstblt_bytes, dstblt_merged, law_dstblt_is_read_back, law_line_to_is_read_back,
    law_multi_dstblt_is_read_back, law_multi_opaque_rect_is_read_back, law_multi_patblt_is_read_back,
    law_multi_scrblt_is_read_back, law_opaque_rect_is_read_back, law_patblt_is_read_back,
    law_polyline_is_read_back, law_scrblt_is_read_back, line_to_bytes, line_to_merged, multi_dstblt_bytes,
    multi_dstblt_merged, multi_opaque_rect_bytes, multi_opaque_rect_merged, multi_patblt_bytes,
    multi_patblt_merged, multi_scrblt_bytes, multi_scrblt_merged, opaque_rect_bytes, opaque_rect_merged,
    patblt_bytes, patblt_merged, polyline_bytes, polyline_merged, scrblt_bytes, scrblt_merged,
};
use crate::wire::{octet, word};

verus! {

/// The number of a primary order type on the wire.
pub open spec fn primary_number(order_type: PrimaryOrderType) -> u8 {
    match order_type {
        PrimaryOrderType::DstBlt => 0,
        PrimaryOrderType::PatBlt => 1,
        PrimaryOrderType::ScrBlt => 2,
        PrimaryOrderType::DrawNineGrid => 7,
        PrimaryOrderType::MultiDrawNineGrid => 8,
        PrimaryOrderType::LineTo => 9,
        PrimaryOrderType::OpaqueRect => 10,
        PrimaryOrderType::SaveBitmap => 11,
        PrimaryOrderType::MemBlt => 13,
        PrimaryOrderType::Mem3Blt => 14,
        PrimaryOrderType::MultiDstBlt => 15,
        PrimaryOrderType::MultiPatBlt => 16,
        PrimaryOrderType::MultiScrBlt => 17,
        PrimaryOrderType::MultiOpaqueRect => 18,
        PrimaryOrderType::FastIndex => 19,
        PrimaryOrderType::PolygonSC => 20,
        PrimaryOrderType::PolygonCB => 21,
        PrimaryOrderType::Polyline => 22,
        PrimaryOrderType::FastGlyph => 24,
        PrimaryOrderType::EllipseSC => 25,
        PrimaryOrderType::EllipseCB => 26,
        PrimaryOrderType::GlyphIndex => 27,
    }
}

/// The number of a secondary order type on the wire.
pub open spec fn secondary_number(order_type: SecondaryOrderType) -> u8 {
    match order_type {
        SecondaryOrderType::CacheBitmap => 0,
        SecondaryOrderType::CacheColorTable => 1,
        SecondaryOrderType::CacheBitmapV2 => 2,
        SecondaryOrderType::CacheGlyph => 3,
        SecondaryOrderType::CacheBitmapV3 => 4,
        SecondaryOrderType::CacheBrush => 7,
    }
}

/// The number of an alternate secondary order type on the wire.
pub open spec fn alternate_number(order_type: AlternateSecondaryOrderType) -> u8 {
    match order_type {
        AlternateSecondaryOrderType::SwitchSurface => 0,
        AlternateSecondaryOrderType::CreateOffscreenBitmap => 1,
        AlternateSecondaryOrderType::StreamBitmapFirst => 2,
        AlternateSecondaryOrderType::StreamBitmapNext => 3,
        AlternateSecondaryOrderType::CreateNineGridBitmap => 4,
        AlternateSecondaryOrderType::GdipFirst => 5,
        AlternateSecondaryOrderType::GdipNext => 6,
        AlternateSecondaryOrderType::GdipEnd => 7,
        AlternateSecondaryOrderType::GdipCacheFirst => 8,
        AlternateSecondaryOrderType::GdipCacheNext => 9,
        AlternateSecondaryOrderType::GdipCacheEnd => 10,
        AlternateSecondaryOrderType::Window => 11,
        AlternateSecondaryOrderType::CompDesk => 12,
        AlternateSecondaryOrderType::FrameMarker => 13,
    }
}

/// Every type of a primary order is known by its number, and no other number is known.
pub proof fn law_primary_types(order_type: PrimaryOrderType, other: u8)
    ensures
        primary_type(primary_number(order_type)) == Some(order_type),
        primary_type(other) is Some ==> primary_number(primary_type(other)->Some_0) == other,
        order_type.code() == primary_number(order_type),
{
    assert(order_type.code() == primary_number(order_type));
    let found = choose|t: PrimaryOrderType| #[trigger] t.code() == primary_number(order_type);
    assert(found.code() == primary_number(found));
    assert(found == order_type);
}

/// Every type of a secondary order is known by its number.
pub proof fn law_secondary_types(a: SecondaryOrderType, b: SecondaryOrderType)
    ensures
        a.code() == secondary_number(a),
        a.code() == b.code() ==> a == b,
{
}

/// Every type of an alternate secondary order is known by its number.
pub proof fn law_alternate_types(a: AlternateSecondaryOrderType, b: AlternateSecondaryOrderType)
    ensures
        a.code() == alternate_number(a),
        a.code() == b.code() ==> a == b,
{
}

/// The bits of the control byte: standard 0, secondary 1, type change 3, bounds 5, bounds as moves 6.
pub open spec fn control_bit(control: u8, value: int) -> bool {
    control as int / value % 2 == 1
}

pub proof fn lemma_control(c: u8)
    ensures
        ControlFlags::truncated(c).has(ControlFlags::STANDARD) == control_bit(c, 1),
        ControlFlags::truncated(c).has(ControlFlags::SECONDARY) == control_bit(c, 2),
        ControlFlags::truncated(c).has(ControlFlags::TYPE_CHANGE) == control_bit(c, 8),
        ControlFlags::truncated(c).has(ControlFlags::BOUNDS) == control_bit(c, 32),
        ControlFlags::truncated(c).has(ControlFlags::ZERO_BOUNDS_DELTAS) == control_bit(c, 64),
{
    assert((((c & 0xEB) & 0x01) == 0x01) == (c % 2 == 1) && (((c & 0xEB) & 0x02) == 0x02) == (c / 2 % 2 == 1) && (((c
        & 0xEB) & 0x08) == 0x08) == (c / 8 % 2 == 1) && (((c & 0xEB) & 0x20) == 0x20) == (c / 32 % 2 == 1) && (((c
        & 0xEB) & 0x40) == 0x40) == (c / 64 % 2 == 1)) by (bit_vector);
}

/// The bounds of an order in front of `tail`: a byte that says which edges change, then those edges, as
/// moves from where they were or as they are.
pub open spec fn bounds_bytes(
    changed: u8,
    moves: bool,
    bounds: BoundingRectangle,
    before: BoundingRectangle,
    tail: Seq<u8>,
) -> Seq<u8> {
    seq![changed] + if moves {
        field(
            changed & 0x01 != 0,
            octet(step(bounds.left, before.left)),
            field(
                changed & 0x02 != 0,
                octet(step(bounds.top, before.top)),
                field(
                    changed & 0x04 != 0,
                    octet(step(bounds.right, before.right)),
                    field(changed & 0x08 != 0, octet(step(bounds.bottom, before.bottom)), tail),
                ),
            ),
        )
    } else {
        field(
            changed & 0x01 != 0,
            word(bounds.left as int),
            field(
                changed & 0x02 != 0,
                word(bounds.top as int),
                field(
                    changed & 0x04 != 0,
                    word(bounds.right as int),
                    field(changed & 0x08 != 0, word(bounds.bottom as int), tail),
                ),
            ),
        )
    }
}

/// Whether the edges that change are near enough to be written as moves.
pub open spec fn moves_fit(changed: u8, bounds: BoundingRectangle, before: BoundingRectangle) -> bool {
    &&& changed & 0x01 != 0 ==> -128 <= step(bounds.left, before.left) <= 127
    &&& changed & 0x02 != 0 ==> -128 <= step(bounds.top, before.top) <= 127
    &&& changed & 0x04 != 0 ==> -128 <= step(bounds.right, before.right) <= 127
    &&& changed & 0x08 != 0 ==> -128 <= step(bounds.bottom, before.bottom) <= 127
}

/// Bounds that keep the edges of the previous ones that do not change.
pub open spec fn bounds_merged(changed: u8, bounds: BoundingRectangle, before: BoundingRectangle) -> BoundingRectangle {
    BoundingRectangle {
        left: pick(changed & 0x01 != 0, bounds.left, before.left),
        top: pick(changed & 0x02 != 0, bounds.top, before.top),
        right: pick(changed & 0x04 != 0, bounds.right, before.right),
        bottom: pick(changed & 0x08 != 0, bounds.bottom, before.bottom),
    }
}

/// Bounds are read back, written either way.
pub proof fn law_bounds_are_read_back(
    changed: u8,
    moves: bool,
    bounds: BoundingRectangle,
    before: BoundingRectangle,
    tail: Seq<u8>,
)
    requires
        moves ==> moves_fit(changed, bounds, before),
    ensures
        bounds_fields(bounds_bytes(changed, moves, bounds, before, tail), moves, before) == (
            bounds_merged(changed, bounds, before),
            Fields::start(tail),
        ),
{
    reveal(Fields::after);
    let (l, t, r, b) = (changed & 0x01 != 0, changed & 0x02 != 0, changed & 0x04 != 0, changed & 0x08 != 0);
    if moves {
        let t3 = field(b, octet(step(bounds.bottom, before.bottom)), tail);
        let t2 = field(r, octet(step(bounds.right, before.right)), t3);
        let t1 = field(t, octet(step(bounds.top, before.top)), t2);
        let t0 = field(l, octet(step(bounds.left, before.left)), t1);
        law_move_field(b, bounds.bottom, before.bottom, tail);
        law_move_field(r, bounds.right, before.right, t3);
        law_move_field(t, bounds.top, before.top, t2);
        law_move_field(l, bounds.left, before.left, t1);
        assert((seq![changed] + t0).skip(1) =~= t0);
    } else {
        let t3 = field(b, word(bounds.bottom as int), tail);
        let t2 = field(r, word(bounds.right as int), t3);
        let t1 = field(t, word(bounds.top as int), t2);
        let t0 = field(l, word(bounds.left as int), t1);
        law_i16_field(b, bounds.bottom, before.bottom, tail);
        law_i16_field(r, bounds.right, before.right, t3);
        law_i16_field(t, bounds.top, before.top, t2);
        law_i16_field(l, bounds.left, before.left, t1);
        assert((seq![changed] + t0).skip(1) =~= t0);
    }
}

/// The fields of an order in front of `tail`.
#[verifier::opaque]
pub open spec fn body_bytes(flags: u32, zero_bits: Seq<u8>, data: OrderDataView, tail: Seq<u8>) -> Seq<u8> {
    match data {
        OrderDataView::DstBlt(order) => dstblt_bytes(flags, order, tail),
        OrderDataView::PatBlt(order) => patblt_bytes(flags, order, tail),
        OrderDataView::ScrBlt(order) => scrblt_bytes(flags, order, tail),
        OrderDataView::OpaqueRect(order) => opaque_rect_bytes(flags, order, tail),
        OrderDataView::LineTo(order) => line_to_bytes(flags, order, tail),
        OrderDataView::MultiOpaqueRect(order) => multi_opaque_rect_bytes(flags, zero_bits, order, tail),
        OrderDataView::MultiDstBlt(order) => multi_dstblt_bytes(flags, zero_bits, order, tail),
        OrderDataView::MultiPatBlt(order) => multi_patblt_bytes(flags, zero_bits, order, tail),
        OrderDataView::MultiScrBlt(order) => multi_scrblt_bytes(flags, zero_bits, order, tail),
        OrderDataView::Polyline(order) => polyline_bytes(flags, zero_bits, order, tail),
        OrderDataView::Other(_) => tail,
    }
}

/// The type of an order that has fields.
pub open spec fn type_of(data: OrderDataView) -> PrimaryOrderType {
    match data {
        OrderDataView::DstBlt(_) => PrimaryOrderType::DstBlt,
        OrderDataView::PatBlt(_) => PrimaryOrderType::PatBlt,
        OrderDataView::ScrBlt(_) => PrimaryOrderType::ScrBlt,
        OrderDataView::OpaqueRect(_) => PrimaryOrderType::OpaqueRect,
        OrderDataView::LineTo(_) => PrimaryOrderType::LineTo,
        OrderDataView::MultiOpaqueRect(_) => PrimaryOrderType::MultiOpaqueRect,
        OrderDataView::MultiDstBlt(_) => PrimaryOrderType::MultiDstBlt,
        OrderDataView::MultiPatBlt(_) => PrimaryOrderType::MultiPatBlt,
        OrderDataView::MultiScrBlt(_) => PrimaryOrderType::MultiScrBlt,
        OrderDataView::Polyline(_) => PrimaryOrderType::Polyline,
        OrderDataView::Other(_) => PrimaryOrderType::MemBlt,
    }
}

/// An order that keeps the fields of the previous order of its type that are not present.
#[verifier::opaque]
pub open spec fn body_merged(flags: u32, data: OrderDataView, state: OrderStateView) -> OrderDataView {
    match data {
        OrderDataView::DstBlt(order) => OrderDataView::DstBlt(dstblt_merged(flags, order, state.dstblt)),
        OrderDataView::PatBlt(order) => OrderDataView::PatBlt(patblt_merged(flags, order, state.patblt)),
        OrderDataView::ScrBlt(order) => OrderDataView::ScrBlt(scrblt_merged(flags, order, state.scrblt)),
        OrderDataView::OpaqueRect(order) => OrderDataView::OpaqueRect(opaque_rect_merged(flags, order, state.opaque_rect)),
        OrderDataView::LineTo(order) => OrderDataView::LineTo(line_to_merged(flags, order, state.line_to)),
        OrderDataView::MultiOpaqueRect(order) => OrderDataView::MultiOpaqueRect(multi_opaque_rect_merged(flags, order, state.multi_opaque_rect)),
        OrderDataView::MultiDstBlt(order) => OrderDataView::MultiDstBlt(multi_dstblt_merged(flags, order, state.multi_dstblt)),
        OrderDataView::MultiPatBlt(order) => OrderDataView::MultiPatBlt(multi_patblt_merged(flags, order, state.multi_patblt)),
        OrderDataView::MultiScrBlt(order) => OrderDataView::MultiScrBlt(multi_scrblt_merged(flags, order, state.multi_scrblt)),
        OrderDataView::Polyline(order) => OrderDataView::Polyline(polyline_merged(flags, order, state.polyline)),
        OrderDataView::Other(_) => OrderDataView::Other(Seq::empty()),
    }
}

/// What is remembered of an order for the next one of its type; those of other types stay.
#[verifier::opaque]
pub open spec fn remembered(state: OrderStateView, data: OrderDataView) -> OrderStateView {
    match data {
        OrderDataView::DstBlt(order) => OrderStateView { dstblt: order, ..state },
        OrderDataView::PatBlt(order) => OrderStateView { patblt: order, ..state },
        OrderDataView::ScrBlt(order) => OrderStateView { scrblt: order, ..state },
        OrderDataView::OpaqueRect(order) => OrderStateView { opaque_rect: order, ..state },
        OrderDataView::LineTo(order) => OrderStateView { line_to: order, ..state },
        OrderDataView::MultiOpaqueRect(order) => OrderStateView { multi_opaque_rect: order, ..state },
        OrderDataView::MultiDstBlt(order) => OrderStateView { multi_dstblt: order, ..state },
        OrderDataView::MultiPatBlt(order) => OrderStateView { multi_patblt: order, ..state },
        OrderDataView::MultiScrBlt(order) => OrderStateView { multi_scrblt: order, ..state },
        OrderDataView::Polyline(order) => OrderStateView { polyline: order, ..state },
        OrderDataView::Other(_) => state,
    }
}

/// Whether the fields of an order can be written: colours take three bytes, patterns seven, and lists have
/// at most 255 entries that fit the widths.
#[verifier::opaque]
pub open spec fn body_fits(flags: u32, zero_bits: Seq<u8>, data: OrderDataView, state: OrderStateView) -> bool {
    match data {
        OrderDataView::DstBlt(_) => true,
        OrderDataView::PatBlt(order) => {
            &&& order.back_color < 0x100_0000
            &&& order.fore_color < 0x100_0000
            &&& order.brush.extra.len() == 7
        },
        OrderDataView::ScrBlt(_) => true,
        OrderDataView::OpaqueRect(order) => {
            &&& order.color < 0x100_0000
            &&& state.opaque_rect.color < 0x100_0000
        },
        OrderDataView::LineTo(order) => {
            &&& order.back_color < 0x100_0000
            &&& order.pen_color < 0x100_0000
        },
        OrderDataView::MultiOpaqueRect(order) => {
            &&& order.color < 0x100_0000
            &&& state.multi_opaque_rect.color < 0x100_0000
            &&& (flags & 0x180 != 0 ==> rects_fit(zero_bits, order.rectangles) && order.rectangles.len() <= 255)
        },
        OrderDataView::MultiDstBlt(order) => {
            &&& (flags & 0x60 != 0 ==> rects_fit(zero_bits, order.rectangles) && order.rectangles.len() <= 255)
        },
        OrderDataView::MultiPatBlt(order) => {
            &&& order.back_color < 0x100_0000
            &&& order.fore_color < 0x100_0000
            &&& order.brush.extra.len() == 7
            &&& (flags & 0x3000 != 0 ==> rects_fit(zero_bits, order.rectangles) && order.rectangles.len() <= 255)
        },
        OrderDataView::MultiScrBlt(order) => {
            &&& (flags & 0x180 != 0 ==> rects_fit(zero_bits, order.rectangles) && order.rectangles.len() <= 255)
        },
        OrderDataView::Polyline(order) => {
            &&& order.pen_color < 0x100_0000
            &&& (flags & 0x60 != 0 ==> points_fit(zero_bits, order.points) && order.points.len() <= 255)
        },
        OrderDataView::Other(_) => true,
    }
}

/// The fields of an order of any type are read back, and are remembered for the next order of the type.
#[verifier::spinoff_prover]
#[verifier::rlimit(60)]
pub proof fn law_body_is_read_back(
    flags: u32,
    zero_bits: Seq<u8>,
    data: OrderDataView,
    state: OrderStateView,
    tail: Seq<u8>,
)
    requires
        body_fits(flags, zero_bits, data, state),
    ensures
        ({
            let merged = body_merged(flags, data, state);
            order_body(body_bytes(flags, zero_bits, data, tail), type_of(data), flags, state) == (
                merged,
                remembered(state, merged),
                Fields::start(tail),
            )
        }),
{
    reveal(body_bytes);
    reveal(body_merged);
    reveal(remembered);
    reveal(body_fits);
    match data {
        OrderDataView::DstBlt(order) => law_dstblt_is_read_back(flags, order, state.dstblt, tail),
        OrderDataView::PatBlt(order) => law_patblt_is_read_back(flags, order, state.patblt, tail),
        OrderDataView::ScrBlt(order) => law_scrblt_is_read_back(flags, order, state.scrblt, tail),
        OrderDataView::OpaqueRect(order) => law_opaque_rect_is_read_back(flags, order, state.opaque_rect, tail),
        OrderDataView::LineTo(order) => law_line_to_is_read_back(flags, order, state.line_to, tail),
        OrderDataView::MultiOpaqueRect(order) => law_multi_opaque_rect_is_read_back(flags, zero_bits, order, state.multi_opaque_rect, tail),
        OrderDataView::MultiDstBlt(order) => law_multi_dstblt_is_read_back(flags, zero_bits, order, state.multi_dstblt, tail),
        OrderDataView::MultiPatBlt(order) => law_multi_patblt_is_read_back(flags, zero_bits, order, state.multi_patblt, tail),
        OrderDataView::MultiScrBlt(order) => law_multi_scrblt_is_read_back(flags, zero_bits, order, state.multi_scrblt, tail),
        OrderDataView::Polyline(order) => law_polyline_is_read_back(flags, zero_bits, order, state.polyline, tail),
        OrderDataView::Other(_) => {},
    }
}

/// The number of bytes that the field flags of an order take.
pub open spec fn flag_count(order_type: PrimaryOrderType) -> nat {
    match order_type {
        PrimaryOrderType::DstBlt => 1,
        PrimaryOrderType::PatBlt => 2,
        PrimaryOrderType::ScrBlt => 1,
        PrimaryOrderType::OpaqueRect => 1,
        PrimaryOrderType::LineTo => 2,
        PrimaryOrderType::MemBlt => 2,
        PrimaryOrderType::MultiDstBlt => 1,
        PrimaryOrderType::MultiPatBlt => 2,
        PrimaryOrderType::MultiScrBlt => 2,
        PrimaryOrderType::MultiOpaqueRect => 2,
        PrimaryOrderType::Polyline => 1,
        _ => 3,
    }
}

/// The field flags of an order, low byte first.
pub open spec fn flag_field(order_type: PrimaryOrderType, flags: u32) -> Seq<u8> {
    if flag_count(order_type) == 1 {
        octet(flags as int)
    } else if flag_count(order_type) == 2 {
        word(flags as int)
    } else {
        crate::wire::triple(flags as int)
    }
}

/// The bytes of a primary order: control byte, type if it changes, field flags, bounds if there are any,
/// fields.
pub open spec fn primary_bytes(
    control: u8,
    data: OrderDataView,
    flags: u32,
    changed: u8,
    bounds: BoundingRectangle,
    zero_bits: Seq<u8>,
    state: OrderStateView,
    tail: Seq<u8>,
) -> Seq<u8> {
    let body = body_bytes(flags, zero_bits, data, tail);
    let bounded = if control_bit(control, 32) {
        bounds_bytes(changed, control_bit(control, 64), bounds, state.bounds, body)
    } else {
        body
    };
    seq![control] + field(
        control_bit(control, 8),
        seq![primary_number(type_of(data))],
        flag_field(type_of(data), flags) + bounded,
    )
}

proof fn lemma_typed_order(
    control: ControlFlags,
    order_type: PrimaryOrderType,
    flags: u32,
    body: Seq<u8>,
    state: OrderStateView,
)
    requires
        flag_count(order_type) == 1 ==> flags < 0x100,
        flag_count(order_type) == 2 ==> flags < 0x1_0000,
        flags < 0x100_0000,
    ensures
        ({
            let bytes = flag_field(order_type, flags) + body;
            let moves = control.has(ControlFlags::ZERO_BOUNDS_DELTAS);
            let (bounds, end) = bounds_fields(body, moves, state.bounds);
            &&& !control.has(ControlFlags::BOUNDS) ==> typed_order(bytes, order_type, control, state) == bounded_order(
                body,
                order_type,
                flags,
                None,
                state,
            )
            &&& control.has(ControlFlags::BOUNDS) && end.missing is None ==> typed_order(
                bytes,
                order_type,
                control,
                state,
            ) == bounded_order(end.rest, order_type, flags, Some(bounds), OrderStateView { bounds, ..state })
        }),
{
    let w = flag_field(order_type, flags);
    let bytes = w + body;
    assert(flag_bytes(order_type) == flag_count(order_type));
    assert(bytes.skip(w.len() as int) =~= body);
    assert(bytes[0] == w[0]);
    if flag_count(order_type) >= 2 {
        assert(bytes[1] == w[1]);
    }
    if flag_count(order_type) >= 3 {
        assert(bytes[2] == w[2]);
    }
}

proof fn lemma_order_type(control: u8, t: PrimaryOrderType, flagged: Seq<u8>, state: OrderStateView)
    requires
        control_bit(control, 1),
        !control_bit(control, 2),
        !control_bit(control, 8) ==> state.primary_order_type == Some(t),
    ensures
        order_at(seq![control] + field(control_bit(control, 8), seq![primary_number(t)], flagged), state)
            == typed_order(
            flagged,
            t,
            ControlFlags::truncated(control),
            OrderStateView { primary_order_type: Some(t), ..state },
        ),
{
    reveal(order_at);
    lemma_control(control);
    law_primary_types(t, 0);
    let c = ControlFlags::truncated(control);
    let typed = field(control_bit(control, 8), seq![primary_number(t)], flagged);
    let bytes = seq![control] + typed;
    assert(bytes.skip(1) =~= typed);
    assert(order_at(bytes, state) == primary_order(typed, c, state));
    if control_bit(control, 8) {
        assert(typed.skip(1) =~= flagged);
        assert(typed[0] == primary_number(t));
    } else {
        assert((OrderStateView { primary_order_type: Some(t), ..state }) =~= state);
    }
}

#[verifier::spinoff_prover]
#[verifier::rlimit(60)]
proof fn lemma_bounded_order(
    flags: u32,
    zero_bits: Seq<u8>,
    data: OrderDataView,
    state: OrderStateView,
    placed: Option<BoundingRectangle>,
    bounds: BoundingRectangle,
    tail: Seq<u8>,
)
    requires
        body_fits(flags, zero_bits, data, state),
    ensures
        ({
            let t = type_of(data);
            let now = OrderStateView { primary_order_type: Some(t), bounds, ..state };
            let merged = body_merged(flags, data, state);
            bounded_order(body_bytes(flags, zero_bits, data, tail), t, flags, placed, now) == (DecodedOrder {
                result: Ok(OrderView::Primary(PrimaryOrderView { order_type: t, bounds: placed, data: merged })),
                state: OrderStateView { primary_order_type: Some(t), bounds, ..remembered(state, merged) },
                rest: tail,
            })
        }),
{
    reveal(bounded_order);
    let t = type_of(data);
    let now = OrderStateView { primary_order_type: Some(t), bounds, ..state };
    assert(body_fits(flags, zero_bits, data, now) && body_merged(flags, data, now) == body_merged(flags, data, state))
        by {
        reveal(body_fits);
        reveal(body_merged);
    }
    law_body_is_read_back(flags, zero_bits, data, now, tail);
    let merged = body_merged(flags, data, state);
    assert(remembered(now, merged) == (OrderStateView {
        primary_order_type: Some(t),
        bounds,
        ..remembered(state, merged)
    })) by {
        reveal(remembered);
    }
}

/// A primary order is read back from its bytes: with a type of its own or that of the previous order, with
/// bounds or without, and with any of its fields. Bounds and fields are remembered for the next order.
#[verifier::spinoff_prover]
#[verifier::rlimit(60)]
pub proof fn law_primary_order_is_read_back(
    control: u8,
    data: OrderDataView,
    flags: u32,
    changed: u8,
    bounds: BoundingRectangle,
    zero_bits: Seq<u8>,
    state: OrderStateView,
    tail: Seq<u8>,
)
    requires
        control_bit(control, 1),
        !control_bit(control, 2),
        !control_bit(control, 8) ==> state.primary_order_type == Some(type_of(data)),
        control_bit(control, 32) && control_bit(control, 64) ==> moves_fit(changed, bounds, state.bounds),
        flag_count(type_of(data)) == 1 ==> flags < 0x100,
        flag_count(type_of(data)) == 2 ==> flags < 0x1_0000,
        flags < 0x100_0000,
        body_fits(flags, zero_bits, data, state),
    ensures
        ({
            let t = type_of(data);
            let placed = if control_bit(control, 32) {
                Some(bounds_merged(changed, bounds, state.bounds))
            } else {
                None
            };
            let merged = body_merged(flags, data, state);
            let kept = OrderStateView {
                primary_order_type: Some(t),
                bounds: if control_bit(control, 32) {
                    bounds_merged(changed, bounds, state.bounds)
                } else {
                    state.bounds
                },
                ..remembered(state, merged)
            };
            order_at(primary_bytes(control, data, flags, changed, bounds, zero_bits, state, tail), state) == (
            DecodedOrder {
                result: Ok(OrderView::Primary(PrimaryOrderView { order_type: t, bounds: placed, data: merged })),
                state: kept,
                rest: tail,
            })
        }),
{
    let t = type_of(data);
    let c = ControlFlags::truncated(control);
    lemma_control(control);
    let body = body_bytes(flags, zero_bits, data, tail);
    let moves = control_bit(control, 64);
    let bounded = if control_bit(control, 32) {
        bounds_bytes(changed, moves, bounds, state.bounds, body)
    } else {
        body
    };
    let s1 = OrderStateView { primary_order_type: Some(t), ..state };
    lemma_order_type(control, t, flag_field(t, flags) + bounded, state);
    lemma_typed_order(c, t, flags, bounded, s1);
    if control_bit(control, 32) {
        law_bounds_are_read_back(changed, moves, bounds, state.bounds, body);
        let placed = bounds_merged(changed, bounds, state.bounds);
        lemma_bounded_order(flags, zero_bits, data, state, Some(placed), placed, tail);
    } else {
        lemma_bounded_order(flags, zero_bits, data, state, None, state.bounds, tail);
    }
}

/// A secondary order is read back: its length, which counts ten bytes more than the data, its flags, its
/// type, its data. It changes nothing of what primary orders start from.
#[verifier::spinoff_prover]
#[verifier::rlimit(60)]
pub proof fn law_secondary_order_is_read_back(
    control: u8,
    order_type: SecondaryOrderType,
    extra: u16,
    data: Seq<u8>,
    state: OrderStateView,
    tail: Seq<u8>,
)
    requires
        control_bit(control, 2),
        data.len() + 10 <= 0xFFFF,
    ensures
        order_at(
            seq![control] + word(data.len() as int + 10) + word(extra as int) + seq![secondary_number(order_type)] + data + tail,
            state,
        ) == (DecodedOrder { result: Ok(OrderView::Secondary(order_type, data)), state, rest: tail }),
{
    reveal(order_at);
    lemma_control(control);
    let bytes = seq![control] + word(data.len() as int + 10) + word(extra as int) + seq![secondary_number(order_type)] + data
        + tail;
    let behind = bytes.skip(1);
    assert(behind[0] == word(data.len() as int + 10)[0] && behind[1] == word(data.len() as int + 10)[1]);
    assert(behind[4] == secondary_number(order_type));
    law_secondary_types(order_type, order_type);
    assert(order_type.code() == behind[4]);
    let found = choose|t: SecondaryOrderType| #[trigger] t.code() == behind[4];
    law_secondary_types(found, order_type);
    assert(behind.skip(5) =~= data + tail);
    assert((data + tail).take(data.len() as int) =~= data);
    assert((data + tail).skip(data.len() as int) =~= tail);
    assert(order_at(bytes, state) == secondary_order(behind, state));
}

/// An alternate secondary order is read back: its type in the low half of a byte, the length of its data,
/// its data.
#[verifier::spinoff_prover]
#[verifier::rlimit(60)]
pub proof fn law_alternate_order_is_read_back(
    control: u8,
    order_type: AlternateSecondaryOrderType,
    high: u8,
    data: Seq<u8>,
    state: OrderStateView,
    tail: Seq<u8>,
)
    requires
        !control_bit(control, 2),
        !control_bit(control, 1),
        high < 16,
        data.len() <= 0xFFFF,
    ensures
        order_at(
            seq![control] + octet(high * 16 + alternate_number(order_type)) + word(data.len() as int) + data + tail,
            state,
        ) == (DecodedOrder { result: Ok(OrderView::AlternateSecondary(order_type, data)), state, rest: tail }),
{
    reveal(order_at);
    lemma_control(control);
    let bytes = seq![control] + octet(high * 16 + alternate_number(order_type)) + word(data.len() as int) + data + tail;
    let behind = bytes.skip(1);
    let n: u8 = alternate_number(order_type);
    assert(high < 16 && n < 16 ==> ((high * 16 + n) as u8) & 0x0F == n) by (bit_vector);
    assert(behind[0] == (high * 16 + n) as u8);
    assert(behind[1] == word(data.len() as int)[0] && behind[2] == word(data.len() as int)[1]);
    law_alternate_types(order_type, order_type);
    assert(order_type.code() == behind[0] & 0x0F);
    let found = choose|t: AlternateSecondaryOrderType| #[trigger] t.code() == behind[0] & 0x0F;
    law_alternate_types(found, order_type);
    assert(behind.skip(3) =~= data + tail);
    assert((data + tail).take(data.len() as int) =~= data);
    assert((data + tail).skip(data.len() as int) =~= tail);
    assert(order_at(bytes, state) == alternate_order(behind, state));
}

/// Whether the fields of orders of a type are read.
pub open spec fn has_fields(order_type: PrimaryOrderType) -> bool {
    match order_type {
        PrimaryOrderType::DstBlt => true,
        PrimaryOrderType::PatBlt => true,
        PrimaryOrderType::ScrBlt => true,
        PrimaryOrderType::LineTo => true,
        PrimaryOrderType::OpaqueRect => true,
        PrimaryOrderType::MultiDstBlt => true,
        PrimaryOrderType::MultiPatBlt => true,
        PrimaryOrderType::MultiScrBlt => true,
        PrimaryOrderType::MultiOpaqueRect => true,
        PrimaryOrderType::Polyline => true,
        _ => false,
    }
}

/// Of an order of any other type no field is read, it holds nothing, and nothing is remembered of it.
pub proof fn law_other_types_have_no_fields(
    order_type: PrimaryOrderType,
    flags: u32,
    bytes: Seq<u8>,
    state: OrderStateView,
)
    requires
        !has_fields(order_type),
    ensures
        order_body(bytes, order_type, flags, state) == (
            OrderDataView::Other(Seq::empty()),
            state,
            Fields::start(bytes),
        ),
{
}

/// A secondary order that claims to be shorter than ten bytes has no data.
pub proof fn law_short_secondary_order(
    control: u8,
    order_type: SecondaryOrderType,
    length: u16,
    extra: u16,
    state: OrderStateView,
    tail: Seq<u8>,
)
    requires
        control_bit(control, 2),
        length <= 10,
    ensures
        order_at(
            seq![control] + word(length as int) + word(extra as int) + seq![secondary_number(order_type)] + tail,
            state,
        ) == (DecodedOrder { result: Ok(OrderView::Secondary(order_type, Seq::empty())), state, rest: tail }),
{
    reveal(order_at);
    lemma_control(control);
    let bytes = seq![control] + word(length as int) + word(extra as int) + seq![secondary_number(order_type)] + tail;
    let behind = bytes.skip(1);
    assert(behind[0] == word(length as int)[0] && behind[1] == word(length as int)[1]);
    assert(behind[4] == secondary_number(order_type));
    law_secondary_types(order_type, order_type);
    assert(order_type.code() == behind[4]);
    let found = choose|t: SecondaryOrderType| #[trigger] t.code() == behind[4];
    law_secondary_types(found, order_type);
    assert(behind.skip(5) =~= tail);
    assert(tail.take(0) =~= Seq::empty());
    assert(tail.skip(0) =~= tail);
    assert(order_at(bytes, state) == secondary_order(behind, state));
}

/// An order that is cut off fails, and what it had read of itself is remembered all the same: of a frame
/// that ends behind its first coordinate, that coordinate.
pub proof fn law_cut_off_order(flags: u32, x: i16, state: OrderStateView)
    requires
        flags & 0x01 != 0,
        flags & 0x02 != 0,
    ensures
        ({
            let r = bounded_order(word(x as int), PrimaryOrderType::DstBlt, flags, None, state);
            &&& r.result is Err
            &&& r.state.dstblt.x == x
            &&& r.state.dstblt.y == state.dstblt.y
            &&& r.state.dstblt.rop == state.dstblt.rop
            &&& r.rest.len() == 0
        }),
{
    reveal(bounded_order);
    reveal(Fields::after);
    reveal(Fields::i16_or);
    reveal(Fields::u8_or);
    let bytes = word(x as int);
    crate::wire::law_i16_is_read_back(x, bytes, 0);
    assert(bytes.skip(2).len() == 0);
}

/// A list that is cut off leaves the list of the previous order as it was.
pub proof fn law_cut_off_list(f: Fields, present: bool, rects: Seq<DeltaRect>, points: Seq<DeltaPoint>)
    ensures
        rect_list(f, present, rects).1.missing is Some ==> rect_list(f, present, rects).0 == rects,
        point_list(f, present, points).1.missing is Some ==> point_list(f, present, points).0 == points,
{
}

} // verus!
