//! How primary orders are written, and that reading gives them back.

use vstd::prelude::*;

use crate::drawing_orders::{
    BrushView, DstBltOrder, LineToOrder, MultiDstBltView, MultiOpaqueRectView, MultiPatBltView,
    MultiScrBltView, OpaqueRectOrder, PatBltView, PolylineView, ScrBltOrder,
};
use crate::order_decoding::{
    dstblt_fields, line_to_fields, multi_dstblt_fields, multi_opaque_rect_fields, multi_patblt_fields,
    multi_scrblt_fields, opaque_rect_fields, patblt_fields, polyline_fields, scrblt_fields,
};
use crate::order_encoding::{
    color_bytes, color_merged, field, law_bytes_field, law_color_field, law_color_is_read_back, law_i16_field,
    law_i8_field, law_point_list, law_rect_list, law_u16_field, law_u8_field, pick, point_list_bytes,
    points_fit, rect_list_bytes, rects_fit,
};
use crate::order_fields::Fields;
use crate::wire::{octet, triple, word};

verus! {

/// The present fields of a DstBlt order in front of `tail`.
pub open spec fn dstblt_bytes(flags: u32, order: DstBltOrder, tail: Seq<u8>) -> Seq<u8> {
    let t4 = field(flags & 0x10 != 0, seq![order.rop], tail);
    let t3 = field(flags & 0x8 != 0, word(order.height as int), t4);
    let t2 = field(flags & 0x4 != 0, word(order.width as int), t3);
    let t1 = field(flags & 0x2 != 0, word(order.y as int), t2);
    field(flags & 0x1 != 0, word(order.x as int), t1)
}

/// A DstBlt order that keeps the fields of the previous one that are not present.
pub open spec fn dstblt_merged(flags: u32, order: DstBltOrder, before: DstBltOrder) -> DstBltOrder {
    DstBltOrder {
        x: pick(flags & 0x1 != 0, order.x, before.x),
        y: pick(flags & 0x2 != 0, order.y, before.y),
        width: pick(flags & 0x4 != 0, order.width, before.width),
        height: pick(flags & 0x8 != 0, order.height, before.height),
        rop: pick(flags & 0x10 != 0, order.rop, before.rop),
    }
}

/// A DstBlt order is read back from its bytes, whichever of its fields are present.
pub proof fn law_dstblt_is_read_back(flags: u32, order: DstBltOrder, before: DstBltOrder, tail: Seq<u8>)
    ensures
        dstblt_fields(dstblt_bytes(flags, order, tail), flags, before) == (
            dstblt_merged(flags, order, before),
            Fields::start(tail),
        ),
{
    let t4 = field(flags & 0x10 != 0, seq![order.rop], tail);
    let t3 = field(flags & 0x8 != 0, word(order.height as int), t4);
    let t2 = field(flags & 0x4 != 0, word(order.width as int), t3);
    let t1 = field(flags & 0x2 != 0, word(order.y as int), t2);
    law_u8_field(flags & 0x10 != 0, order.rop, before.rop, tail);
    law_i16_field(flags & 0x8 != 0, order.height, before.height, t4);
    law_i16_field(flags & 0x4 != 0, order.width, before.width, t3);
    law_i16_field(flags & 0x2 != 0, order.y, before.y, t2);
    law_i16_field(flags & 0x1 != 0, order.x, before.x, t1);
}

/// The present fields of a PatBlt order in front of `tail`.
pub open spec fn patblt_bytes(flags: u32, order: PatBltView, tail: Seq<u8>) -> Seq<u8> {
    let t11 = field(flags & 0x800 != 0, order.brush.extra, tail);
    let t10 = field(flags & 0x400 != 0, seq![order.brush.hatch], t11);
    let t9 = field(flags & 0x200 != 0, seq![order.brush.style], t10);
    let t8 = field(flags & 0x100 != 0, octet(order.brush.org_y as int), t9);
    let t7 = field(flags & 0x80 != 0, octet(order.brush.org_x as int), t8);
    let t6 = field(flags & 0x40 != 0, triple(order.fore_color as int), t7);
    let t5 = field(flags & 0x20 != 0, triple(order.back_color as int), t6);
    let t4 = field(flags & 0x10 != 0, seq![order.rop], t5);
    let t3 = field(flags & 0x8 != 0, word(order.height as int), t4);
    let t2 = field(flags & 0x4 != 0, word(order.width as int), t3);
    let t1 = field(flags & 0x2 != 0, word(order.y as int), t2);
    field(flags & 0x1 != 0, word(order.x as int), t1)
}

/// A PatBlt order that keeps the fields of the previous one that are not present.
pub open spec fn patblt_merged(flags: u32, order: PatBltView, before: PatBltView) -> PatBltView {
    PatBltView {
        x: pick(flags & 0x1 != 0, order.x, before.x),
        y: pick(flags & 0x2 != 0, order.y, before.y),
        width: pick(flags & 0x4 != 0, order.width, before.width),
        height: pick(flags & 0x8 != 0, order.height, before.height),
        rop: pick(flags & 0x10 != 0, order.rop, before.rop),
        back_color: pick(flags & 0x20 != 0, order.back_color, before.back_color),
        fore_color: pick(flags & 0x40 != 0, order.fore_color, before.fore_color),
        brush: BrushView {
            org_x: pick(flags & 0x80 != 0, order.brush.org_x, before.brush.org_x),
            org_y: pick(flags & 0x100 != 0, order.brush.org_y, before.brush.org_y),
            style: pick(flags & 0x200 != 0, order.brush.style, before.brush.style),
            hatch: pick(flags & 0x400 != 0, order.brush.hatch, before.brush.hatch),
            extra: pick(flags & 0x800 != 0, order.brush.extra, before.brush.extra),
        },
    }
}

/// A PatBlt order is read back from its bytes, whichever of its fields are present.
#[verifier::spinoff_prover]
#[verifier::rlimit(60)]
pub proof fn law_patblt_is_read_back(flags: u32, order: PatBltView, before: PatBltView, tail: Seq<u8>)
    requires
        order.back_color < 0x100_0000,
        order.fore_color < 0x100_0000,
        order.brush.extra.len() == 7,
    ensures
        patblt_fields(patblt_bytes(flags, order, tail), flags, before) == (
            patblt_merged(flags, order, before),
            Fields::start(tail),
        ),
{
    let t11 = field(flags & 0x800 != 0, order.brush.extra, tail);
    let t10 = field(flags & 0x400 != 0, seq![order.brush.hatch], t11);
    let t9 = field(flags & 0x200 != 0, seq![order.brush.style], t10);
    let t8 = field(flags & 0x100 != 0, octet(order.brush.org_y as int), t9);
    let t7 = field(flags & 0x80 != 0, octet(order.brush.org_x as int), t8);
    let t6 = field(flags & 0x40 != 0, triple(order.fore_color as int), t7);
    let t5 = field(flags & 0x20 != 0, triple(order.back_color as int), t6);
    let t4 = field(flags & 0x10 != 0, seq![order.rop], t5);
    let t3 = field(flags & 0x8 != 0, word(order.height as int), t4);
    let t2 = field(flags & 0x4 != 0, word(order.width as int), t3);
    let t1 = field(flags & 0x2 != 0, word(order.y as int), t2);
    law_bytes_field(flags & 0x800 != 0, order.brush.extra, before.brush.extra, tail);
    law_u8_field(flags & 0x400 != 0, order.brush.hatch, before.brush.hatch, t11);
    law_u8_field(flags & 0x200 != 0, order.brush.style, before.brush.style, t10);
    law_i8_field(flags & 0x100 != 0, order.brush.org_y, before.brush.org_y, t9);
    law_i8_field(flags & 0x80 != 0, order.brush.org_x, before.brush.org_x, t8);
    law_color_field(flags & 0x40 != 0, order.fore_color, before.fore_color, t7);
    law_color_field(flags & 0x20 != 0, order.back_color, before.back_color, t6);
    law_u8_field(flags & 0x10 != 0, order.rop, before.rop, t5);
    law_i16_field(flags & 0x8 != 0, order.height, before.height, t4);
    law_i16_field(flags & 0x4 != 0, order.width, before.width, t3);
    law_i16_field(flags & 0x2 != 0, order.y, before.y, t2);
    law_i16_field(flags & 0x1 != 0, order.x, before.x, t1);
}

/// The present fields of a ScrBlt order in front of `tail`.
pub open spec fn scrblt_bytes(flags: u32, order: ScrBltOrder, tail: Seq<u8>) -> Seq<u8> {
    let t6 = field(flags & 0x40 != 0, word(order.src_y as int), tail);
    let t5 = field(flags & 0x20 != 0, word(order.src_x as int), t6);
    let t4 = field(flags & 0x10 != 0, seq![order.rop], t5);
    let t3 = field(flags & 0x8 != 0, word(order.height as int), t4);
    let t2 = field(flags & 0x4 != 0, word(order.width as int), t3);
    let t1 = field(flags & 0x2 != 0, word(order.y as int), t2);
    field(flags & 0x1 != 0, word(order.x as int), t1)
}

/// A ScrBlt order that keeps the fields of the previous one that are not present.
pub open spec fn scrblt_merged(flags: u32, order: ScrBltOrder, before: ScrBltOrder) -> ScrBltOrder {
    ScrBltOrder {
        x: pick(flags & 0x1 != 0, order.x, before.x),
        y: pick(flags & 0x2 != 0, order.y, before.y),
        width: pick(flags & 0x4 != 0, order.width, before.width),
        height: pick(flags & 0x8 != 0, order.height, before.height),
        rop: pick(flags & 0x10 != 0, order.rop, before.rop),
        src_x: pick(flags & 0x20 != 0, order.src_x, before.src_x),
        src_y: pick(flags & 0x40 != 0, order.src_y, before.src_y),
    }
}

/// A ScrBlt order is read back from its bytes, whichever of its fields are present.
pub proof fn law_scrblt_is_read_back(flags: u32, order: ScrBltOrder, before: ScrBltOrder, tail: Seq<u8>)
    ensures
        scrblt_fields(scrblt_bytes(flags, order, tail), flags, before) == (
            scrblt_merged(flags, order, before),
            Fields::start(tail),
        ),
{
    let t6 = field(flags & 0x40 != 0, word(order.src_y as int), tail);
    let t5 = field(flags & 0x20 != 0, word(order.src_x as int), t6);
    let t4 = field(flags & 0x10 != 0, seq![order.rop], t5);
    let t3 = field(flags & 0x8 != 0, word(order.height as int), t4);
    let t2 = field(flags & 0x4 != 0, word(order.width as int), t3);
    let t1 = field(flags & 0x2 != 0, word(order.y as int), t2);
    law_i16_field(flags & 0x40 != 0, order.src_y, before.src_y, tail);
    law_i16_field(flags & 0x20 != 0, order.src_x, before.src_x, t6);
    law_u8_field(flags & 0x10 != 0, order.rop, before.rop, t5);
    law_i16_field(flags & 0x8 != 0, order.height, before.height, t4);
    law_i16_field(flags & 0x4 != 0, order.width, before.width, t3);
    law_i16_field(flags & 0x2 != 0, order.y, before.y, t2);
    law_i16_field(flags & 0x1 != 0, order.x, before.x, t1);
}

/// The present fields of a OpaqueRect order in front of `tail`.
pub open spec fn opaque_rect_bytes(flags: u32, order: OpaqueRectOrder, tail: Seq<u8>) -> Seq<u8> {
    let t4 = color_bytes((flags & 0x10 != 0, flags & 0x20 != 0, flags & 0x40 != 0), order.color, tail);
    let t3 = field(flags & 0x8 != 0, word(order.height as int), t4);
    let t2 = field(flags & 0x4 != 0, word(order.width as int), t3);
    let t1 = field(flags & 0x2 != 0, word(order.y as int), t2);
    field(flags & 0x1 != 0, word(order.x as int), t1)
}

/// A OpaqueRect order that keeps the fields of the previous one that are not present.
pub open spec fn opaque_rect_merged(flags: u32, order: OpaqueRectOrder, before: OpaqueRectOrder) -> OpaqueRectOrder {
    OpaqueRectOrder {
        x: pick(flags & 0x1 != 0, order.x, before.x),
        y: pick(flags & 0x2 != 0, order.y, before.y),
        width: pick(flags & 0x4 != 0, order.width, before.width),
        height: pick(flags & 0x8 != 0, order.height, before.height),
        color: color_merged((flags & 0x10 != 0, flags & 0x20 != 0, flags & 0x40 != 0), order.color, before.color),
    }
}

/// A OpaqueRect order is read back from its bytes, whichever of its fields are present.
#[verifier::spinoff_prover]
#[verifier::rlimit(60)]
pub proof fn law_opaque_rect_is_read_back(flags: u32, order: OpaqueRectOrder, before: OpaqueRectOrder, tail: Seq<u8>)
    requires
        order.color < 0x100_0000,
        before.color < 0x100_0000,
    ensures
        opaque_rect_fields(opaque_rect_bytes(flags, order, tail), flags, before) == (
            opaque_rect_merged(flags, order, before),
            Fields::start(tail),
        ),
{
    let t4 = color_bytes((flags & 0x10 != 0, flags & 0x20 != 0, flags & 0x40 != 0), order.color, tail);
    let t3 = field(flags & 0x8 != 0, word(order.height as int), t4);
    let t2 = field(flags & 0x4 != 0, word(order.width as int), t3);
    let t1 = field(flags & 0x2 != 0, word(order.y as int), t2);
    law_color_is_read_back((flags & 0x10 != 0, flags & 0x20 != 0, flags & 0x40 != 0), order.color, before.color, tail);
    law_i16_field(flags & 0x8 != 0, order.height, before.height, t4);
    law_i16_field(flags & 0x4 != 0, order.width, before.width, t3);
    law_i16_field(flags & 0x2 != 0, order.y, before.y, t2);
    law_i16_field(flags & 0x1 != 0, order.x, before.x, t1);
}

/// The present fields of a LineTo order in front of `tail`.
pub open spec fn line_to_bytes(flags: u32, order: LineToOrder, tail: Seq<u8>) -> Seq<u8> {
    let t9 = field(flags & 0x200 != 0, triple(order.pen_color as int), tail);
    let t8 = field(flags & 0x100 != 0, seq![order.pen_width], t9);
    let t7 = field(flags & 0x80 != 0, seq![order.pen_style], t8);
    let t6 = field(flags & 0x40 != 0, seq![order.rop2], t7);
    let t5 = field(flags & 0x20 != 0, triple(order.back_color as int), t6);
    let t4 = field(flags & 0x10 != 0, word(order.end_y as int), t5);
    let t3 = field(flags & 0x8 != 0, word(order.end_x as int), t4);
    let t2 = field(flags & 0x4 != 0, word(order.start_y as int), t3);
    let t1 = field(flags & 0x2 != 0, word(order.start_x as int), t2);
    field(flags & 0x1 != 0, word(order.back_mode as int), t1)
}

/// A LineTo order that keeps the fields of the previous one that are not present.
pub open spec fn line_to_merged(flags: u32, order: LineToOrder, before: LineToOrder) -> LineToOrder {
    LineToOrder {
        back_mode: pick(flags & 0x1 != 0, order.back_mode, before.back_mode),
        start_x: pick(flags & 0x2 != 0, order.start_x, before.start_x),
        start_y: pick(flags & 0x4 != 0, order.start_y, before.start_y),
        end_x: pick(flags & 0x8 != 0, order.end_x, before.end_x),
        end_y: pick(flags & 0x10 != 0, order.end_y, before.end_y),
        back_color: pick(flags & 0x20 != 0, order.back_color, before.back_color),
        rop2: pick(flags & 0x40 != 0, order.rop2, before.rop2),
        pen_style: pick(flags & 0x80 != 0, order.pen_style, before.pen_style),
        pen_width: pick(flags & 0x100 != 0, order.pen_width, before.pen_width),
        pen_color: pick(flags & 0x200 != 0, order.pen_color, before.pen_color),
    }
}

/// A LineTo order is read back from its bytes, whichever of its fields are present.
#[verifier::spinoff_prover]
#[verifier::rlimit(60)]
pub proof fn law_line_to_is_read_back(flags: u32, order: LineToOrder, before: LineToOrder, tail: Seq<u8>)
    requires
        order.back_color < 0x100_0000,
        order.pen_color < 0x100_0000,
    ensures
        line_to_fields(line_to_bytes(flags, order, tail), flags, before) == (
            line_to_merged(flags, order, before),
            Fields::start(tail),
        ),
{
    let t9 = field(flags & 0x200 != 0, triple(order.pen_color as int), tail);
    let t8 = field(flags & 0x100 != 0, seq![order.pen_width], t9);
    let t7 = field(flags & 0x80 != 0, seq![order.pen_style], t8);
    let t6 = field(flags & 0x40 != 0, seq![order.rop2], t7);
    let t5 = field(flags & 0x20 != 0, triple(order.back_color as int), t6);
    let t4 = field(flags & 0x10 != 0, word(order.end_y as int), t5);
    let t3 = field(flags & 0x8 != 0, word(order.end_x as int), t4);
    let t2 = field(flags & 0x4 != 0, word(order.start_y as int), t3);
    let t1 = field(flags & 0x2 != 0, word(order.start_x as int), t2);
    law_color_field(flags & 0x200 != 0, order.pen_color, before.pen_color, tail);
    law_u8_field(flags & 0x100 != 0, order.pen_width, before.pen_width, t9);
    law_u8_field(flags & 0x80 != 0, order.pen_style, before.pen_style, t8);
    law_u8_field(flags & 0x40 != 0, order.rop2, before.rop2, t7);
    law_color_field(flags & 0x20 != 0, order.back_color, before.back_color, t6);
    law_i16_field(flags & 0x10 != 0, order.end_y, before.end_y, t5);
    law_i16_field(flags & 0x8 != 0, order.end_x, before.end_x, t4);
    law_i16_field(flags & 0x4 != 0, order.start_y, before.start_y, t3);
    law_i16_field(flags & 0x2 != 0, order.start_x, before.start_x, t2);
    law_u16_field(flags & 0x1 != 0, order.back_mode, before.back_mode, t1);
}

/// The present fields of a MultiOpaqueRect order in front of `tail`.
pub open spec fn multi_opaque_rect_bytes(flags: u32, zero_bits: Seq<u8>, order: MultiOpaqueRectView, tail: Seq<u8>) -> Seq<u8> {
    let t5 = rect_list_bytes(flags & 0x180 != 0, zero_bits, order.rectangles, tail);
    let t4 = color_bytes((flags & 0x10 != 0, flags & 0x20 != 0, flags & 0x40 != 0), order.color, t5);
    let t3 = field(flags & 0x8 != 0, word(order.height as int), t4);
    let t2 = field(flags & 0x4 != 0, word(order.width as int), t3);
    let t1 = field(flags & 0x2 != 0, word(order.y as int), t2);
    field(flags & 0x1 != 0, word(order.x as int), t1)
}

/// A MultiOpaqueRect order that keeps the fields of the previous one that are not present.
pub open spec fn multi_opaque_rect_merged(flags: u32, order: MultiOpaqueRectView, before: MultiOpaqueRectView) -> MultiOpaqueRectView {
    MultiOpaqueRectView {
        x: pick(flags & 0x1 != 0, order.x, before.x),
        y: pick(flags & 0x2 != 0, order.y, before.y),
        width: pick(flags & 0x4 != 0, order.width, before.width),
        height: pick(flags & 0x8 != 0, order.height, before.height),
        color: color_merged((flags & 0x10 != 0, flags & 0x20 != 0, flags & 0x40 != 0), order.color, before.color),
        rectangles: pick(flags & 0x180 != 0, order.rectangles, before.rectangles),
    }
}

/// A MultiOpaqueRect order is read back from its bytes, whichever of its fields are present.
#[verifier::spinoff_prover]
#[verifier::rlimit(60)]
pub proof fn law_multi_opaque_rect_is_read_back(flags: u32, zero_bits: Seq<u8>, order: MultiOpaqueRectView, before: MultiOpaqueRectView, tail: Seq<u8>)
    requires
        order.color < 0x100_0000,
        before.color < 0x100_0000,
        flags & 0x180 != 0 ==> rects_fit(zero_bits, order.rectangles) && order.rectangles.len() <= 255,
    ensures
        multi_opaque_rect_fields(multi_opaque_rect_bytes(flags, zero_bits, order, tail), flags, before) == (
            multi_opaque_rect_merged(flags, order, before),
            Fields::start(tail),
        ),
{
    let t5 = rect_list_bytes(flags & 0x180 != 0, zero_bits, order.rectangles, tail);
    let t4 = color_bytes((flags & 0x10 != 0, flags & 0x20 != 0, flags & 0x40 != 0), order.color, t5);
    let t3 = field(flags & 0x8 != 0, word(order.height as int), t4);
    let t2 = field(flags & 0x4 != 0, word(order.width as int), t3);
    let t1 = field(flags & 0x2 != 0, word(order.y as int), t2);
    law_rect_list(flags & 0x180 != 0, zero_bits, order.rectangles, before.rectangles, tail);
    law_color_is_read_back((flags & 0x10 != 0, flags & 0x20 != 0, flags & 0x40 != 0), order.color, before.color, t5);
    law_i16_field(flags & 0x8 != 0, order.height, before.height, t4);
    law_i16_field(flags & 0x4 != 0, order.width, before.width, t3);
    law_i16_field(flags & 0x2 != 0, order.y, before.y, t2);
    law_i16_field(flags & 0x1 != 0, order.x, before.x, t1);
}

/// The present fields of a MultiDstBlt order in front of `tail`.
pub open spec fn multi_dstblt_bytes(flags: u32, zero_bits: Seq<u8>, order: MultiDstBltView, tail: Seq<u8>) -> Seq<u8> {
    let t5 = rect_list_bytes(flags & 0x60 != 0, zero_bits, order.rectangles, tail);
    let t4 = field(flags & 0x10 != 0, seq![order.rop], t5);
    let t3 = field(flags & 0x8 != 0, word(order.height as int), t4);
    let t2 = field(flags & 0x4 != 0, word(order.width as int), t3);
    let t1 = field(flags & 0x2 != 0, word(order.y as int), t2);
    field(flags & 0x1 != 0, word(order.x as int), t1)
}

/// A MultiDstBlt order that keeps the fields of the previous one that are not present.
pub open spec fn multi_dstblt_merged(flags: u32, order: MultiDstBltView, before: MultiDstBltView) -> MultiDstBltView {
    MultiDstBltView {
        x: pick(flags & 0x1 != 0, order.x, before.x),
        y: pick(flags & 0x2 != 0, order.y, before.y),
        width: pick(flags & 0x4 != 0, order.width, before.width),
        height: pick(flags & 0x8 != 0, order.height, before.height),
        rop: pick(flags & 0x10 != 0, order.rop, before.rop),
        rectangles: pick(flags & 0x60 != 0, order.rectangles, before.rectangles),
    }
}

/// A MultiDstBlt order is read back from its bytes, whichever of its fields are present.
#[verifier::spinoff_prover]
#[verifier::rlimit(60)]
pub proof fn law_multi_dstblt_is_read_back(flags: u32, zero_bits: Seq<u8>, order: MultiDstBltView, before: MultiDstBltView, tail: Seq<u8>)
    requires
        flags & 0x60 != 0 ==> rects_fit(zero_bits, order.rectangles) && order.rectangles.len() <= 255,
    ensures
        multi_dstblt_fields(multi_dstblt_bytes(flags, zero_bits, order, tail), flags, before) == (
            multi_dstblt_merged(flags, order, before),
            Fields::start(tail),
        ),
{
    let t5 = rect_list_bytes(flags & 0x60 != 0, zero_bits, order.rectangles, tail);
    let t4 = field(flags & 0x10 != 0, seq![order.rop], t5);
    let t3 = field(flags & 0x8 != 0, word(order.height as int), t4);
    let t2 = field(flags & 0x4 != 0, word(order.width as int), t3);
    let t1 = field(flags & 0x2 != 0, word(order.y as int), t2);
    law_rect_list(flags & 0x60 != 0, zero_bits, order.rectangles, before.rectangles, tail);
    law_u8_field(flags & 0x10 != 0, order.rop, before.rop, t5);
    law_i16_field(flags & 0x8 != 0, order.height, before.height, t4);
    law_i16_field(flags & 0x4 != 0, order.width, before.width, t3);
    law_i16_field(flags & 0x2 != 0, order.y, before.y, t2);
    law_i16_field(flags & 0x1 != 0, order.x, before.x, t1);
}

/// The present fields of a MultiPatBlt order in front of `tail`.
pub open spec fn multi_patblt_bytes(flags: u32, zero_bits: Seq<u8>, order: MultiPatBltView, tail: Seq<u8>) -> Seq<u8> {
    let t12 = rect_list_bytes(flags & 0x3000 != 0, zero_bits, order.rectangles, tail);
    let t11 = field(flags & 0x800 != 0, order.brush.extra, t12);
    let t10 = field(flags & 0x400 != 0, seq![order.brush.hatch], t11);
    let t9 = field(flags & 0x200 != 0, seq![order.brush.style], t10);
    let t8 = field(flags & 0x100 != 0, octet(order.brush.org_y as int), t9);
    let t7 = field(flags & 0x80 != 0, octet(order.brush.org_x as int), t8);
    let t6 = field(flags & 0x40 != 0, triple(order.fore_color as int), t7);
    let t5 = field(flags & 0x20 != 0, triple(order.back_color as int), t6);
    let t4 = field(flags & 0x10 != 0, seq![order.rop], t5);
    let t3 = field(flags & 0x8 != 0, word(order.height as int), t4);
    let t2 = field(flags & 0x4 != 0, word(order.width as int), t3);
    let t1 = field(flags & 0x2 != 0, word(order.y as int), t2);
    field(flags & 0x1 != 0, word(order.x as int), t1)
}

/// A MultiPatBlt order that keeps the fields of the previous one that are not present.
pub open spec fn multi_patblt_merged(flags: u32, order: MultiPatBltView, before: MultiPatBltView) -> MultiPatBltView {
    MultiPatBltView {
        x: pick(flags & 0x1 != 0, order.x, before.x),
        y: pick(flags & 0x2 != 0, order.y, before.y),
        width: pick(flags & 0x4 != 0, order.width, before.width),
        height: pick(flags & 0x8 != 0, order.height, before.height),
        rop: pick(flags & 0x10 != 0, order.rop, before.rop),
        back_color: pick(flags & 0x20 != 0, order.back_color, before.back_color),
        fore_color: pick(flags & 0x40 != 0, order.fore_color, before.fore_color),
        brush: BrushView {
            org_x: pick(flags & 0x80 != 0, order.brush.org_x, before.brush.org_x),
            org_y: pick(flags & 0x100 != 0, order.brush.org_y, before.brush.org_y),
            style: pick(flags & 0x200 != 0, order.brush.style, before.brush.style),
            hatch: pick(flags & 0x400 != 0, order.brush.hatch, before.brush.hatch),
            extra: pick(flags & 0x800 != 0, order.brush.extra, before.brush.extra),
        },
        rectangles: pick(flags & 0x3000 != 0, order.rectangles, before.rectangles),
    }
}

/// A MultiPatBlt order is read back from its bytes, whichever of its fields are present.
#[verifier::spinoff_prover]
#[verifier::rlimit(60)]
pub proof fn law_multi_patblt_is_read_back(flags: u32, zero_bits: Seq<u8>, order: MultiPatBltView, before: MultiPatBltView, tail: Seq<u8>)
    requires
        order.back_color < 0x100_0000,
        order.fore_color < 0x100_0000,
        order.brush.extra.len() == 7,
        flags & 0x3000 != 0 ==> rects_fit(zero_bits, order.rectangles) && order.rectangles.len() <= 255,
    ensures
        multi_patblt_fields(multi_patblt_bytes(flags, zero_bits, order, tail), flags, before) == (
            multi_patblt_merged(flags, order, before),
            Fields::start(tail),
        ),
{
    let t12 = rect_list_bytes(flags & 0x3000 != 0, zero_bits, order.rectangles, tail);
    let t11 = field(flags & 0x800 != 0, order.brush.extra, t12);
    let t10 = field(flags & 0x400 != 0, seq![order.brush.hatch], t11);
    let t9 = field(flags & 0x200 != 0, seq![order.brush.style], t10);
    let t8 = field(flags & 0x100 != 0, octet(order.brush.org_y as int), t9);
    let t7 = field(flags & 0x80 != 0, octet(order.brush.org_x as int), t8);
    let t6 = field(flags & 0x40 != 0, triple(order.fore_color as int), t7);
    let t5 = field(flags & 0x20 != 0, triple(order.back_color as int), t6);
    let t4 = field(flags & 0x10 != 0, seq![order.rop], t5);
    let t3 = field(flags & 0x8 != 0, word(order.height as int), t4);
    let t2 = field(flags & 0x4 != 0, word(order.width as int), t3);
    let t1 = field(flags & 0x2 != 0, word(order.y as int), t2);
    law_rect_list(flags & 0x3000 != 0, zero_bits, order.rectangles, before.rectangles, tail);
    law_bytes_field(flags & 0x800 != 0, order.brush.extra, before.brush.extra, t12);
    law_u8_field(flags & 0x400 != 0, order.brush.hatch, before.brush.hatch, t11);
    law_u8_field(flags & 0x200 != 0, order.brush.style, before.brush.style, t10);
    law_i8_field(flags & 0x100 != 0, order.brush.org_y, before.brush.org_y, t9);
    law_i8_field(flags & 0x80 != 0, order.brush.org_x, before.brush.org_x, t8);
    law_color_field(flags & 0x40 != 0, order.fore_color, before.fore_color, t7);
    law_color_field(flags & 0x20 != 0, order.back_color, before.back_color, t6);
    law_u8_field(flags & 0x10 != 0, order.rop, before.rop, t5);
    law_i16_field(flags & 0x8 != 0, order.height, before.height, t4);
    law_i16_field(flags & 0x4 != 0, order.width, before.width, t3);
    law_i16_field(flags & 0x2 != 0, order.y, before.y, t2);
    law_i16_field(flags & 0x1 != 0, order.x, before.x, t1);
}

/// The present fields of a MultiScrBlt order in front of `tail`.
pub open spec fn multi_scrblt_bytes(flags: u32, zero_bits: Seq<u8>, order: MultiScrBltView, tail: Seq<u8>) -> Seq<u8> {
    let t7 = rect_list_bytes(flags & 0x180 != 0, zero_bits, order.rectangles, tail);
    let t6 = field(flags & 0x40 != 0, word(order.src_y as int), t7);
    let t5 = field(flags & 0x20 != 0, word(order.src_x as int), t6);
    let t4 = field(flags & 0x10 != 0, seq![order.rop], t5);
    let t3 = field(flags & 0x8 != 0, word(order.height as int), t4);
    let t2 = field(flags & 0x4 != 0, word(order.width as int), t3);
    let t1 = field(flags & 0x2 != 0, word(order.y as int), t2);
    field(flags & 0x1 != 0, word(order.x as int), t1)
}

/// A MultiScrBlt order that keeps the fields of the previous one that are not present.
pub open spec fn multi_scrblt_merged(flags: u32, order: MultiScrBltView, before: MultiScrBltView) -> MultiScrBltView {
    MultiScrBltView {
        x: pick(flags & 0x1 != 0, order.x, before.x),
        y: pick(flags & 0x2 != 0, order.y, before.y),
        width: pick(flags & 0x4 != 0, order.width, before.width),
        height: pick(flags & 0x8 != 0, order.height, before.height),
        rop: pick(flags & 0x10 != 0, order.rop, before.rop),
        src_x: pick(flags & 0x20 != 0, order.src_x, before.src_x),
        src_y: pick(flags & 0x40 != 0, order.src_y, before.src_y),
        rectangles: pick(flags & 0x180 != 0, order.rectangles, before.rectangles),
    }
}

/// A MultiScrBlt order is read back from its bytes, whichever of its fields are present.
#[verifier::spinoff_prover]
#[verifier::rlimit(60)]
pub proof fn law_multi_scrblt_is_read_back(flags: u32, zero_bits: Seq<u8>, order: MultiScrBltView, before: MultiScrBltView, tail: Seq<u8>)
    requires
        flags & 0x180 != 0 ==> rects_fit(zero_bits, order.rectangles) && order.rectangles.len() <= 255,
    ensures
        multi_scrblt_fields(multi_scrblt_bytes(flags, zero_bits, order, tail), flags, before) == (
            multi_scrblt_merged(flags, order, before),
            Fields::start(tail),
        ),
{
    let t7 = rect_list_bytes(flags & 0x180 != 0, zero_bits, order.rectangles, tail);
    let t6 = field(flags & 0x40 != 0, word(order.src_y as int), t7);
    let t5 = field(flags & 0x20 != 0, word(order.src_x as int), t6);
    let t4 = field(flags & 0x10 != 0, seq![order.rop], t5);
    let t3 = field(flags & 0x8 != 0, word(order.height as int), t4);
    let t2 = field(flags & 0x4 != 0, word(order.width as int), t3);
    let t1 = field(flags & 0x2 != 0, word(order.y as int), t2);
    law_rect_list(flags & 0x180 != 0, zero_bits, order.rectangles, before.rectangles, tail);
    law_i16_field(flags & 0x40 != 0, order.src_y, before.src_y, t7);
    law_i16_field(flags & 0x20 != 0, order.src_x, before.src_x, t6);
    law_u8_field(flags & 0x10 != 0, order.rop, before.rop, t5);
    law_i16_field(flags & 0x8 != 0, order.height, before.height, t4);
    law_i16_field(flags & 0x4 != 0, order.width, before.width, t3);
    law_i16_field(flags & 0x2 != 0, order.y, before.y, t2);
    law_i16_field(flags & 0x1 != 0, order.x, before.x, t1);
}

/// The present fields of a Polyline order in front of `tail`.
pub open spec fn polyline_bytes(flags: u32, zero_bits: Seq<u8>, order: PolylineView, tail: Seq<u8>) -> Seq<u8> {
    let t5 = point_list_bytes(flags & 0x60 != 0, zero_bits, order.points, tail);
    let t4 = field(flags & 0x10 != 0, triple(order.pen_color as int), t5);
    let t3 = field(flags & 0x8 != 0, word(order.brush_cache_entry as int), t4);
    let t2 = field(flags & 0x4 != 0, seq![order.rop2], t3);
    let t1 = field(flags & 0x2 != 0, word(order.y as int), t2);
    field(flags & 0x1 != 0, word(order.x as int), t1)
}

/// A Polyline order that keeps the fields of the previous one that are not present.
pub open spec fn polyline_merged(flags: u32, order: PolylineView, before: PolylineView) -> PolylineView {
    PolylineView {
        x: pick(flags & 0x1 != 0, order.x, before.x),
        y: pick(flags & 0x2 != 0, order.y, before.y),
        rop2: pick(flags & 0x4 != 0, order.rop2, before.rop2),
        brush_cache_entry: pick(flags & 0x8 != 0, order.brush_cache_entry, before.brush_cache_entry),
        pen_color: pick(flags & 0x10 != 0, order.pen_color, before.pen_color),
        points: pick(flags & 0x60 != 0, order.points, before.points),
    }
}

/// A Polyline order is read back from its bytes, whichever of its fields are present.
#[verifier::spinoff_prover]
#[verifier::rlimit(60)]
pub proof fn law_polyline_is_read_back(flags: u32, zero_bits: Seq<u8>, order: PolylineView, before: PolylineView, tail: Seq<u8>)
    requires
        order.pen_color < 0x100_0000,
        flags & 0x60 != 0 ==> points_fit(zero_bits, order.points) && order.points.len() <= 255,
    ensures
        polyline_fields(polyline_bytes(flags, zero_bits, order, tail), flags, before) == (
            polyline_merged(flags, order, before),
            Fields::start(tail),
        ),
{
    let t5 = point_list_bytes(flags & 0x60 != 0, zero_bits, order.points, tail);
    let t4 = field(flags & 0x10 != 0, triple(order.pen_color as int), t5);
    let t3 = field(flags & 0x8 != 0, word(order.brush_cache_entry as int), t4);
    let t2 = field(flags & 0x4 != 0, seq![order.rop2], t3);
    let t1 = field(flags & 0x2 != 0, word(order.y as int), t2);
    law_point_list(flags & 0x60 != 0, zero_bits, order.points, before.points, tail);
    law_color_field(flags & 0x10 != 0, order.pen_color, before.pen_color, t5);
    law_u16_field(flags & 0x8 != 0, order.brush_cache_entry, before.brush_cache_entry, t4);
    law_u8_field(flags & 0x4 != 0, order.rop2, before.rop2, t3);
    law_i16_field(flags & 0x2 != 0, order.y, before.y, t2);
    law_i16_field(flags & 0x1 != 0, order.x, before.x, t1);
}

} // verus!
