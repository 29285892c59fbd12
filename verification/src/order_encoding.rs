//! How the fields of orders are written, and that reading gives them back.
//!
//! Every encoder puts what it writes in front of the bytes `tail`. A field whose flag is clear takes
//! no bytes, and keeps the value that it had in the previous order.

use vstd::prelude::*;

use crate::drawing_orders::{DeltaPoint, DeltaRect};
use crate::order_decoding::{
    corner, delta_points, delta_rects, point_flags, point_list, points_from, rect_flags, rect_list,
    rects_from,
};
use crate::order_fields::Fields;
use crate::wire::{octet, triple, word};

verus! {

/// A field in front of `tail`, when it is present.
pub open spec fn field(present: bool, bytes: Seq<u8>, tail: Seq<u8>) -> Seq<u8> {
    if present {
        bytes + tail
    } else {
        tail
    }
}

/// The value of a field behind the order: what was written, or what it was before.
pub open spec fn pick<T>(present: bool, written: T, before: T) -> T {
    if present {
        written
    } else {
        before
    }
}

proof fn lemma_after(present: bool, bytes: Seq<u8>, tail: Seq<u8>)
    ensures
        Fields::start(field(present, bytes, tail)).after(present, bytes.len()) == Fields::start(tail),
        present ==> Fields::start(field(present, bytes, tail)).reads(present, bytes.len()),
        present ==> forall|i: int| 0 <= i < bytes.len() ==> field(present, bytes, tail)[i] == bytes[i],
{
    reveal(Fields::after);
    assert((bytes + tail).skip(bytes.len() as int) =~= tail);
}

/// A byte is read back.
pub proof fn law_u8_field(present: bool, value: u8, before: u8, tail: Seq<u8>)
    ensures
        ({
            let f = Fields::start(field(present, seq![value], tail));
            &&& f.u8_or(present, before) == pick(present, value, before)
            &&& f.after(present, 1) == Fields::start(tail)
        }),
{
    reveal(Fields::u8_or);
    lemma_after(present, seq![value], tail);
}

/// A signed byte is read back.
pub proof fn law_i8_field(present: bool, value: i8, before: i8, tail: Seq<u8>)
    ensures
        ({
            let f = Fields::start(field(present, octet(value as int), tail));
            &&& f.i8_or(present, before) == pick(present, value, before)
            &&& f.after(present, 1) == Fields::start(tail)
        }),
{
    reveal(Fields::i8_or);
    lemma_after(present, octet(value as int), tail);
}

/// A word is read back.
pub proof fn law_u16_field(present: bool, value: u16, before: u16, tail: Seq<u8>)
    ensures
        ({
            let f = Fields::start(field(present, word(value as int), tail));
            &&& f.u16_or(present, before) == pick(present, value, before)
            &&& f.after(present, 2) == Fields::start(tail)
        }),
{
    reveal(Fields::u16_or);
    lemma_after(present, word(value as int), tail);
}

/// A signed word is read back.
pub proof fn law_i16_field(present: bool, value: i16, before: i16, tail: Seq<u8>)
    ensures
        ({
            let f = Fields::start(field(present, word(value as int), tail));
            &&& f.i16_or(present, before) == pick(present, value, before)
            &&& f.after(present, 2) == Fields::start(tail)
        }),
{
    reveal(Fields::i16_or);
    lemma_after(present, word(value as int), tail);
}

/// A colour is read back from the three bytes blue, green, red.
pub proof fn law_color_field(present: bool, value: u32, before: u32, tail: Seq<u8>)
    requires
        value < 0x100_0000,
    ensures
        ({
            let f = Fields::start(field(present, triple(value as int), tail));
            &&& f.color_or(present, before) == pick(present, value, before)
            &&& f.after(present, 3) == Fields::start(tail)
        }),
{
    reveal(Fields::color_or);
    lemma_after(present, triple(value as int), tail);
}

/// Bytes are read back.
pub proof fn law_bytes_field(present: bool, value: Seq<u8>, before: Seq<u8>, tail: Seq<u8>)
    ensures
        ({
            let f = Fields::start(field(present, value, tail));
            &&& f.bytes_or(present, value.len(), before) == pick(present, value, before)
            &&& f.after(present, value.len()) == Fields::start(tail)
        }),
{
    reveal(Fields::bytes_or);
    lemma_after(present, value, tail);
    assert((value + tail).take(value.len() as int) =~= value);
}

/// A coordinate that a signed byte moves ends where it was to be moved to, also around the ends of its
/// range.
pub proof fn law_move_field(present: bool, value: i16, before: i16, tail: Seq<u8>)
    requires
        present ==> -128 <= step(value, before) <= 127,
    ensures
        ({
            let f = Fields::start(field(present, octet(step(value, before)), tail));
            &&& f.moved_or(present, before) == pick(present, value, before)
            &&& f.after(present, 1) == Fields::start(tail)
        }),
{
    reveal(Fields::moved_or);
    lemma_after(present, octet(step(value, before)), tail);
}

/// The colour with the given red, green and blue.
pub open spec fn mixed(red: int, green: int, blue: int) -> int {
    red * 65536 + green * 256 + blue
}

proof fn lemma_red(present: bool, value: u8, before: u8, green: u8, blue: u8, tail: Seq<u8>)
    ensures
        Fields::start(field(present, seq![value], tail)).red_or(
            present,
            mixed(before as int, green as int, blue as int) as u32,
        ) == mixed(pick(present, value, before) as int, green as int, blue as int),
{
    reveal(Fields::red_or);
    lemma_after(present, seq![value], tail);
}

proof fn lemma_green(present: bool, value: u8, red: u8, before: u8, blue: u8, tail: Seq<u8>)
    ensures
        Fields::start(field(present, seq![value], tail)).green_or(
            present,
            mixed(red as int, before as int, blue as int) as u32,
        ) == mixed(red as int, pick(present, value, before) as int, blue as int),
{
    reveal(Fields::green_or);
    lemma_after(present, seq![value], tail);
}

proof fn lemma_blue(present: bool, value: u8, red: u8, green: u8, before: u8, tail: Seq<u8>)
    ensures
        Fields::start(field(present, seq![value], tail)).blue_or(
            present,
            mixed(red as int, green as int, before as int) as u32,
        ) == mixed(red as int, green as int, pick(present, value, before) as int),
{
    reveal(Fields::blue_or);
    lemma_after(present, seq![value], tail);
}

/// Three bytes replace red, green and blue, each where it is present.
pub proof fn law_color_fields(
    has: (bool, bool, bool),
    value: (u8, u8, u8),
    before: (u8, u8, u8),
    tail: Seq<u8>,
)
    ensures
        ({
            let f0 = Fields::start(
                field(has.0, seq![value.0], field(has.1, seq![value.1], field(has.2, seq![value.2], tail))),
            );
            let f1 = f0.after(has.0, 1);
            let f2 = f1.after(has.1, 1);
            let color = mixed(before.0 as int, before.1 as int, before.2 as int) as u32;
            &&& f2.blue_or(has.2, f1.green_or(has.1, f0.red_or(has.0, color))) == mixed(
                pick(has.0, value.0, before.0) as int,
                pick(has.1, value.1, before.1) as int,
                pick(has.2, value.2, before.2) as int,
            )
            &&& f2.after(has.2, 1) == Fields::start(tail)
        }),
{
    let t2 = field(has.2, seq![value.2], tail);
    let t1 = field(has.1, seq![value.1], t2);
    lemma_after(has.0, seq![value.0], t1);
    lemma_after(has.1, seq![value.1], t2);
    lemma_after(has.2, seq![value.2], tail);
    let r = pick(has.0, value.0, before.0);
    let g = pick(has.1, value.1, before.1);
    lemma_red(has.0, value.0, before.0, before.1, before.2, t1);
    lemma_green(has.1, value.1, r, before.1, before.2, t2);
    lemma_blue(has.2, value.2, r, g, before.2, tail);
}

/// Red, green and blue of a colour in front of `tail`, each where it is present.
pub open spec fn color_bytes(has: (bool, bool, bool), color: u32, tail: Seq<u8>) -> Seq<u8> {
    field(
        has.0,
        octet(color as int / 65536),
        field(has.1, octet(color as int / 256), field(has.2, octet(color as int), tail)),
    )
}

/// A colour that keeps red, green and blue of the previous one where they are not present.
pub open spec fn color_merged(has: (bool, bool, bool), color: u32, before: u32) -> u32 {
    mixed(
        pick(has.0, color as int / 65536, before as int / 65536),
        pick(has.1, color as int / 256 % 256, before as int / 256 % 256),
        pick(has.2, color as int % 256, before as int % 256),
    ) as u32
}

/// A colour is read back from the bytes of it that are present.
pub proof fn law_color_is_read_back(has: (bool, bool, bool), color: u32, before: u32, tail: Seq<u8>)
    requires
        color < 0x100_0000,
        before < 0x100_0000,
    ensures
        ({
            let f0 = Fields::start(color_bytes(has, color, tail));
            let f1 = f0.after(has.0, 1);
            let f2 = f1.after(has.1, 1);
            &&& f2.blue_or(has.2, f1.green_or(has.1, f0.red_or(has.0, before))) == color_merged(has, color, before)
            &&& f2.after(has.2, 1) == Fields::start(tail)
        }),
{
    let new = ((color / 65536) as u8, (color / 256 % 256) as u8, (color % 256) as u8);
    let last = ((before / 65536) as u8, (before / 256 % 256) as u8, (before % 256) as u8);
    law_color_fields(has, new, last, tail);
}

/// A coordinate in two bytes when `wide`, in one byte otherwise.
pub open spec fn delta_bytes(wide: bool, value: int, tail: Seq<u8>) -> Seq<u8> {
    (if wide {
        word(value)
    } else {
        octet(value)
    }) + tail
}

/// Whether `value` can be written in two bytes when `wide`, in one byte otherwise.
pub open spec fn delta_fits(wide: bool, value: int) -> bool {
    if wide {
        -32768 <= value <= 32767
    } else {
        -128 <= value <= 127
    }
}

/// A coordinate of a list is read back from one byte or from two: every value that fits.
pub proof fn law_delta(wide: bool, value: int, tail: Seq<u8>)
    requires
        delta_fits(wide, value),
    ensures
        Fields::start(delta_bytes(wide, value, tail)).delta(wide) == value,
        Fields::start(delta_bytes(wide, value, tail)).after_delta(wide) == Fields::start(tail),
{
    if wide {
        lemma_after(true, word(value), tail);
        assert(word(value).len() == 2);
    } else {
        lemma_after(true, octet(value), tail);
        assert(octet(value).len() == 1);
    }
}

/// A coordinate that does not fit in the bytes that are left is not read.
pub proof fn law_short_delta(wide: bool, bytes: Seq<u8>)
    ensures
        Fields::start(bytes).after_delta(wide).missing is Some <==> bytes.len() < if wide {
            2int
        } else {
            1
        },
{
    reveal(Fields::after);
}

/// Whether coordinate `bit` of rectangle `i` takes two bytes: bit `bit` of the low half of byte
/// `i / 2` for an even `i`, of the high half for an odd one.
pub open spec fn rect_is_wide(zero_bits: Seq<u8>, i: int, bit: int) -> bool {
    let half = if i % 2 == 0 {
        zero_bits[i / 2] as int % 16
    } else {
        zero_bits[i / 2] as int / 16
    };
    if bit == 0 {
        half % 2 == 1
    } else if bit == 1 {
        half / 2 % 2 == 1
    } else if bit == 2 {
        half / 4 % 2 == 1
    } else {
        half / 8 == 1
    }
}

/// Whether coordinate `bit` of point `i` takes two bytes: four points share a byte, the first of
/// them its lowest two bits.
pub open spec fn point_is_wide(zero_bits: Seq<u8>, i: int, bit: int) -> bool {
    let byte = zero_bits[i / 4] as int;
    let pair = if i % 4 == 0 {
        byte % 4
    } else if i % 4 == 1 {
        byte / 4 % 4
    } else if i % 4 == 2 {
        byte / 16 % 4
    } else {
        byte / 64
    };
    if bit == 0 {
        pair % 2 == 1
    } else {
        pair / 2 == 1
    }
}

proof fn lemma_rect_flags(zero_bits: Seq<u8>, i: int)
    ensures
        (rect_flags(zero_bits, i) & 0x01 != 0) == rect_is_wide(zero_bits, i, 0),
        (rect_flags(zero_bits, i) & 0x02 != 0) == rect_is_wide(zero_bits, i, 1),
        (rect_flags(zero_bits, i) & 0x04 != 0) == rect_is_wide(zero_bits, i, 2),
        (rect_flags(zero_bits, i) & 0x08 != 0) == rect_is_wide(zero_bits, i, 3),
{
    let b: u8 = zero_bits[i / 2];
    assert((b & 0x0F == b % 16) && (b >> 4usize == b / 16)) by (bit_vector);
    let h: u8 = rect_flags(zero_bits, i);
    assert(b >> 4 == b >> 4usize) by (bit_vector);
    assert((h & 0x01 != 0) == (h % 2 == 1) && (h & 0x02 != 0) == (h / 2 % 2 == 1) && (h & 0x04 != 0) == (h / 4
        % 2 == 1) && (h & 0x08 != 0) == (h / 8 % 2 == 1)) by (bit_vector);
}

proof fn lemma_point_flags(zero_bits: Seq<u8>, i: int)
    ensures
        (point_flags(zero_bits, i) & 0x01 != 0) == point_is_wide(zero_bits, i, 0),
        (point_flags(zero_bits, i) & 0x02 != 0) == point_is_wide(zero_bits, i, 1),
{
    let b: u8 = zero_bits[i / 4];
    let s: usize = (i % 4 * 2) as usize;
    assert(((b >> 0usize) & 0x03 == b % 4) && ((b >> 2usize) & 0x03 == b / 4 % 4) && ((b >> 4usize) & 0x03 == b
        / 16 % 4) && ((b >> 6usize) & 0x03 == b / 64)) by (bit_vector);
    assert(s == 0 || s == 2 || s == 4 || s == 6);
    let h: u8 = point_flags(zero_bits, i);
    assert(h < 4 ==> (h & 0x01 != 0) == (h % 2 == 1) && (h & 0x02 != 0) == (h / 2 == 1)) by (bit_vector);
}

/// How far `a` lies from `b`, around the ends of the 16-bit range.
pub open spec fn step(a: i16, b: i16) -> int {
    if a - b > 32767 {
        a - b - 65536
    } else if a - b < -32768 {
        a - b + 65536
    } else {
        a - b
    }
}

/// The corner that rectangle `k` is relative to: that of the rectangle before it.
pub open spec fn corner_before(rects: Seq<DeltaRect>, k: int) -> (i16, i16) {
    if k == 0 {
        (0, 0)
    } else {
        (rects[k - 1].left, rects[k - 1].top)
    }
}

/// The rectangles from `k` on, in front of `tail`.
pub open spec fn rects_bytes(zero_bits: Seq<u8>, rects: Seq<DeltaRect>, k: int, tail: Seq<u8>) -> Seq<u8>
    decreases rects.len() - k,
{
    if k >= rects.len() {
        tail
    } else {
        let rect = rects[k];
        let (left, top) = corner_before(rects, k);
        delta_bytes(
            rect_is_wide(zero_bits, k, 0),
            step(rect.left, left),
            delta_bytes(
                rect_is_wide(zero_bits, k, 1),
                step(rect.top, top),
                delta_bytes(
                    rect_is_wide(zero_bits, k, 2),
                    rect.width as int,
                    delta_bytes(
                        rect_is_wide(zero_bits, k, 3),
                        rect.height as int,
                        rects_bytes(zero_bits, rects, k + 1, tail),
                    ),
                ),
            ),
        )
    }
}

/// Whether rectangle `k` can be written with the given widths.
pub open spec fn rect_fits(zero_bits: Seq<u8>, rects: Seq<DeltaRect>, k: int) -> bool {
    let (left, top) = corner_before(rects, k);
    &&& delta_fits(rect_is_wide(zero_bits, k, 0), step(rects[k].left, left))
    &&& delta_fits(rect_is_wide(zero_bits, k, 1), step(rects[k].top, top))
    &&& delta_fits(rect_is_wide(zero_bits, k, 2), rects[k].width as int)
    &&& delta_fits(rect_is_wide(zero_bits, k, 3), rects[k].height as int)
}

/// Whether the rectangles can be written with the given widths, which take half a byte for each.
pub open spec fn rects_fit(zero_bits: Seq<u8>, rects: Seq<DeltaRect>) -> bool {
    &&& zero_bits.len() == (rects.len() + 1) / 2
    &&& forall|k: int| 0 <= k < rects.len() ==> #[trigger] rect_fits(zero_bits, rects, k)
}

proof fn lemma_rects_read(zero_bits: Seq<u8>, rects: Seq<DeltaRect>, n: nat, tail: Seq<u8>)
    requires
        rects_fit(zero_bits, rects),
        n <= rects.len(),
    ensures
        rects_from(zero_bits, Fields::start(rects_bytes(zero_bits, rects, 0, tail)), n) == (
            rects.take(n as int),
            Fields::start(rects_bytes(zero_bits, rects, n as int, tail)),
        ),
    decreases n,
{
    let start = Fields::start(rects_bytes(zero_bits, rects, 0, tail));
    if n == 0 {
        assert(rects.take(0) =~= Seq::empty());
    } else {
        let k = n - 1;
        lemma_rects_read(zero_bits, rects, k as nat, tail);
        lemma_rect_flags(zero_bits, k);
        assert(rect_fits(zero_bits, rects, k));
        let rect = rects[k];
        let (left, top) = corner_before(rects, k);
        assert(corner(rects.take(k)) == (left, top));
        let t4 = rects_bytes(zero_bits, rects, k + 1, tail);
        let t3 = delta_bytes(rect_is_wide(zero_bits, k, 3), rect.height as int, t4);
        let t2 = delta_bytes(rect_is_wide(zero_bits, k, 2), rect.width as int, t3);
        let t1 = delta_bytes(rect_is_wide(zero_bits, k, 1), step(rect.top, top), t2);
        law_delta(rect_is_wide(zero_bits, k, 0), step(rect.left, left), t1);
        law_delta(rect_is_wide(zero_bits, k, 1), step(rect.top, top), t2);
        law_delta(rect_is_wide(zero_bits, k, 2), rect.width as int, t3);
        law_delta(rect_is_wide(zero_bits, k, 3), rect.height as int, t4);
        assert(left.wrapping_add(step(rect.left, left) as i16) == rect.left);
        assert(top.wrapping_add(step(rect.top, top) as i16) == rect.top);
        assert(rects.take(k).push(rect) =~= rects.take(n as int));
    }
}

/// A list of rectangles is read back from its bytes, whichever of its coordinates take two bytes:
/// left and top are written as the way from the rectangle before, width and height as they are.
pub proof fn law_delta_rects(zero_bits: Seq<u8>, rects: Seq<DeltaRect>, tail: Seq<u8>)
    requires
        rects_fit(zero_bits, rects),
    ensures
        delta_rects(Fields::start(zero_bits + rects_bytes(zero_bits, rects, 0, tail)), rects.len()) == (
            rects,
            Fields::start(tail),
        ),
{
    let coded = rects_bytes(zero_bits, rects, 0, tail);
    lemma_after(true, zero_bits, coded);
    assert((zero_bits + coded).take(zero_bits.len() as int) =~= zero_bits);
    lemma_rects_read(zero_bits, rects, rects.len(), tail);
    assert(rects.take(rects.len() as int) =~= rects);
}

/// The bytes of an optional list of rectangles: their number, their widths, their coordinates.
pub open spec fn rect_list_bytes(present: bool, zero_bits: Seq<u8>, rects: Seq<DeltaRect>, tail: Seq<u8>) -> Seq<u8> {
    field(present, octet(rects.len() as int), field(present, zero_bits, if present {
        rects_bytes(zero_bits, rects, 0, tail)
    } else {
        tail
    }))
}

/// An optional list of at most 255 rectangles is read back.
pub proof fn law_rect_list(
    present: bool,
    zero_bits: Seq<u8>,
    rects: Seq<DeltaRect>,
    before: Seq<DeltaRect>,
    tail: Seq<u8>,
)
    requires
        present ==> rects_fit(zero_bits, rects) && rects.len() <= 255,
    ensures
        rect_list(Fields::start(rect_list_bytes(present, zero_bits, rects, tail)), present, before) == (
            pick(present, rects, before),
            Fields::start(tail),
        ),
{
    if present {
        let coded = zero_bits + rects_bytes(zero_bits, rects, 0, tail);
        lemma_after(true, octet(rects.len() as int), coded);
        law_delta_rects(zero_bits, rects, tail);
        assert((octet(rects.len() as int) + coded)[0] == rects.len());
    } else {
        reveal(Fields::after);
    }
}

/// The points from `k` on, in front of `tail`.
pub open spec fn points_bytes(zero_bits: Seq<u8>, points: Seq<DeltaPoint>, k: int, tail: Seq<u8>) -> Seq<u8>
    decreases points.len() - k,
{
    if k >= points.len() {
        tail
    } else {
        delta_bytes(
            point_is_wide(zero_bits, k, 0),
            points[k].x as int,
            delta_bytes(
                point_is_wide(zero_bits, k, 1),
                points[k].y as int,
                points_bytes(zero_bits, points, k + 1, tail),
            ),
        )
    }
}

/// Whether point `k` can be written with the given widths.
pub open spec fn point_fits(zero_bits: Seq<u8>, points: Seq<DeltaPoint>, k: int) -> bool {
    &&& delta_fits(point_is_wide(zero_bits, k, 0), points[k].x as int)
    &&& delta_fits(point_is_wide(zero_bits, k, 1), points[k].y as int)
}

/// Whether the points can be written with the given widths, which take a quarter of a byte for each.
pub open spec fn points_fit(zero_bits: Seq<u8>, points: Seq<DeltaPoint>) -> bool {
    &&& zero_bits.len() == (points.len() + 3) / 4
    &&& forall|k: int| 0 <= k < points.len() ==> #[trigger] point_fits(zero_bits, points, k)
}

proof fn lemma_points_read(zero_bits: Seq<u8>, points: Seq<DeltaPoint>, n: nat, tail: Seq<u8>)
    requires
        points_fit(zero_bits, points),
        n <= points.len(),
    ensures
        points_from(zero_bits, Fields::start(points_bytes(zero_bits, points, 0, tail)), n) == (
            points.take(n as int),
            Fields::start(points_bytes(zero_bits, points, n as int, tail)),
        ),
    decreases n,
{
    if n == 0 {
        assert(points.take(0) =~= Seq::empty());
    } else {
        let k = n - 1;
        lemma_points_read(zero_bits, points, k as nat, tail);
        lemma_point_flags(zero_bits, k);
        assert(point_fits(zero_bits, points, k));
        let t2 = points_bytes(zero_bits, points, k + 1, tail);
        let t1 = delta_bytes(point_is_wide(zero_bits, k, 1), points[k].y as int, t2);
        law_delta(point_is_wide(zero_bits, k, 0), points[k].x as int, t1);
        law_delta(point_is_wide(zero_bits, k, 1), points[k].y as int, t2);
        assert(points.take(k).push(points[k]) =~= points.take(n as int));
    }
}

/// A list of points is read back from its bytes, whichever of its coordinates take two bytes.
pub proof fn law_delta_points(zero_bits: Seq<u8>, points: Seq<DeltaPoint>, tail: Seq<u8>)
    requires
        points_fit(zero_bits, points),
    ensures
        delta_points(Fields::start(zero_bits + points_bytes(zero_bits, points, 0, tail)), points.len()) == (
            points,
            Fields::start(tail),
        ),
{
    let coded = points_bytes(zero_bits, points, 0, tail);
    lemma_after(true, zero_bits, coded);
    assert((zero_bits + coded).take(zero_bits.len() as int) =~= zero_bits);
    lemma_points_read(zero_bits, points, points.len(), tail);
    assert(points.take(points.len() as int) =~= points);
}

/// The bytes of an optional list of points: their number, their widths, their coordinates.
pub open spec fn point_list_bytes(
    present: bool,
    zero_bits: Seq<u8>,
    points: Seq<DeltaPoint>,
    tail: Seq<u8>,
) -> Seq<u8> {
    field(present, octet(points.len() as int), field(present, zero_bits, if present {
        points_bytes(zero_bits, points, 0, tail)
    } else {
        tail
    }))
}

/// An optional list of at most 255 points is read back.
pub proof fn law_point_list(
    present: bool,
    zero_bits: Seq<u8>,
    points: Seq<DeltaPoint>,
    before: Seq<DeltaPoint>,
    tail: Seq<u8>,
)
    requires
        present ==> points_fit(zero_bits, points) && points.len() <= 255,
    ensures
        point_list(Fields::start(point_list_bytes(present, zero_bits, points, tail)), present, before) == (
            pick(present, points, before),
            Fields::start(tail),
        ),
{
    if present {
        let coded = zero_bits + points_bytes(zero_bits, points, 0, tail);
        lemma_after(true, octet(points.len() as int), coded);
        law_delta_points(zero_bits, points, tail);
        assert((octet(points.len() as int) + coded)[0] == points.len());
    } else {
        reveal(Fields::after);
    }
}

} // verus!
