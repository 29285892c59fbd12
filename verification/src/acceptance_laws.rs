//! What is accepted for processing, and what is refused.

use vstd::arithmetic::div_mod::lemma_fundamental_div_mod_converse;
use vstd::prelude::*;

use crate::bitmap::BitmapView;
use crate::bitmap_caching::{
    cache_bitmap_at, cache_order_ends_well, cache_order_is_whole, is_whole, CacheBitmapView,
};
use crate::bitmap_laws::{inflated_writing, is_free, plain_writing, row_len};
use crate::bitmap_updates::{bitmap_fits, raw_fits, InflatedView};
use crate::drawing_orders::{OrderStateView, OrderView, PrimaryOrderType, SecondaryOrderType};
use crate::error::{DecodeError, SessionError};
use crate::fast_path::{CompleteUpdate, ProcessorView};
use crate::geometry::InclusiveRectangle;
use crate::image::{placeable, ImageView};
use crate::order_decoding::order_at;
use crate::order_fields::Fields;
use crate::order_processing::{encoded_bitmap, order_is_whole, read_ahead};
use crate::order_wire::{control_bit, lemma_control, primary_number};
use crate::pixel_laws::is_part;
use crate::pointer::{blends, PointerView};
use crate::pointer_laws::cut_once;
use crate::pointer_updates::{PointerHandlingView, PointerUpdateData};
use crate::session_laws::{cache_order_bytes, law_cache_order_is_read_back};
use crate::surface_commands::{
    bits_fit, command_fits, frame_fits, tile_fits, RfxTile, SurfaceBits, SurfaceCommand,
};

verus! {

/// A field that does not fit into the bytes that are left is an error that tells both numbers; nothing is
/// read for it, and its value stays.
pub proof fn law_cut_off_field(bytes: Seq<u8>, size: nat, a: u8, b: i8, c: u16, d: i16, e: u32, s: Seq<u8>)
    requires
        bytes.len() < size,
        size <= 255,
        bytes.len() <= usize::MAX,
    ensures
        ({
            let f = Fields::start(bytes);
            &&& f.after(true, size).rest == bytes
            &&& f.after(true, size).result() == Err::<(), DecodeError>(
                DecodeError::NotEnoughBytes { received: bytes.len() as usize, expected: size as usize },
            )
            &&& f.after(false, size) == f
            &&& size == 1 ==> f.u8_or(true, a) == a && f.i8_or(true, b) == b && f.moved_or(true, d) == d
            &&& size == 1 ==> f.red_or(true, e) == e && f.green_or(true, e) == e && f.blue_or(true, e) == e
            &&& size == 2 ==> f.u16_or(true, c) == c && f.i16_or(true, d) == d
            &&& size == 3 ==> f.color_or(true, e) == e
            &&& f.bytes_or(true, size, s) == s
        }),
{
    reveal(Fields::after);
    reveal(Fields::u8_or);
    reveal(Fields::i8_or);
    reveal(Fields::u16_or);
    reveal(Fields::i16_or);
    reveal(Fields::color_or);
    reveal(Fields::red_or);
    reveal(Fields::green_or);
    reveal(Fields::blue_or);
    reveal(Fields::bytes_or);
    reveal(Fields::moved_or);
}

/// A primary order with a number that is no type is refused, and so is one without a type where no order
/// came before; neither changes what the next order starts from. Without any bytes there is no order.
pub proof fn law_orders_without_a_type(control: u8, number: u8, tail: Seq<u8>, state: OrderStateView)
    requires
        control_bit(control, 1),
        !control_bit(control, 2),
    ensures
        control_bit(control, 8) && (forall|t: PrimaryOrderType| #[trigger] primary_number(t) != number) ==> {
            let r = order_at(seq![control, number] + tail, state);
            r.result is Err && r.state == state
        },
        !control_bit(control, 8) && state.primary_order_type is None ==> {
            let r = order_at(seq![control] + tail, state);
            r.result is Err && r.state == state
        },
        order_at(Seq::empty(), state).result == Err::<OrderView, DecodeError>(
            DecodeError::NotEnoughBytes { received: 0, expected: 1 },
        ),
        order_at(Seq::empty(), state).state == state,
{
    reveal(order_at);
    lemma_control(control);
    let a = seq![control, number] + tail;
    let b = seq![control] + tail;
    assert(a.skip(1)[0] == number);
    assert(a[0] == control && b[0] == control);
    if forall|t: PrimaryOrderType| #[trigger] primary_number(t) != number {
        assert forall|t: PrimaryOrderType| #[trigger] t.code() != number by {
            assert(primary_number(t) != number);
            crate::order_wire::law_primary_types(t, 0);
        }
    }
}

/// Every value is 0 and every list is empty before the first order, and there is no type to go on with.
pub proof fn law_orders_start_from_zero()
    ensures
        ({
            let s = OrderStateView::initial();
            &&& s.primary_order_type is None
            &&& s.bounds.left == 0 && s.bounds.top == 0 && s.bounds.right == 0 && s.bounds.bottom == 0
            &&& s.dstblt.x == 0 && s.dstblt.y == 0 && s.dstblt.width == 0 && s.dstblt.height == 0 && s.dstblt.rop == 0
            &&& s.patblt.x == 0 && s.patblt.y == 0 && s.patblt.width == 0 && s.patblt.height == 0 && s.patblt.rop == 0
            &&& s.patblt.back_color == 0 && s.patblt.fore_color == 0
            &&& s.patblt.brush.org_x == 0 && s.patblt.brush.org_y == 0 && s.patblt.brush.style == 0
                && s.patblt.brush.hatch == 0
            &&& s.patblt.brush.extra =~= Seq::new(7, |i: int| 0u8)
            &&& s.scrblt.x == 0 && s.scrblt.y == 0 && s.scrblt.width == 0 && s.scrblt.height == 0 && s.scrblt.rop == 0
                && s.scrblt.src_x == 0 && s.scrblt.src_y == 0
            &&& s.opaque_rect.x == 0 && s.opaque_rect.y == 0 && s.opaque_rect.width == 0 && s.opaque_rect.height == 0
                && s.opaque_rect.color == 0
            &&& s.line_to.back_mode == 0 && s.line_to.start_x == 0 && s.line_to.start_y == 0 && s.line_to.end_x == 0
                && s.line_to.end_y == 0 && s.line_to.back_color == 0
            &&& s.line_to.rop2 == 0 && s.line_to.pen_style == 0 && s.line_to.pen_width == 0 && s.line_to.pen_color == 0
            &&& s.multi_opaque_rect.x == 0 && s.multi_opaque_rect.y == 0 && s.multi_opaque_rect.width == 0
                && s.multi_opaque_rect.height == 0
            &&& s.multi_opaque_rect.color == 0 && s.multi_opaque_rect.rectangles.len() == 0
            &&& s.multi_dstblt.x == 0 && s.multi_dstblt.y == 0 && s.multi_dstblt.width == 0 && s.multi_dstblt.height
                == 0
            &&& s.multi_dstblt.rop == 0 && s.multi_dstblt.rectangles.len() == 0
            &&& s.multi_patblt.x == 0 && s.multi_patblt.y == 0 && s.multi_patblt.width == 0 && s.multi_patblt.height
                == 0
            &&& s.multi_patblt.rop == 0 && s.multi_patblt.back_color == 0 && s.multi_patblt.fore_color == 0
            &&& s.multi_patblt.brush == s.patblt.brush && s.multi_patblt.rectangles.len() == 0
            &&& s.multi_scrblt.x == 0 && s.multi_scrblt.y == 0 && s.multi_scrblt.width == 0 && s.multi_scrblt.height
                == 0
            &&& s.multi_scrblt.rop == 0 && s.multi_scrblt.src_x == 0 && s.multi_scrblt.src_y == 0
            &&& s.multi_scrblt.rectangles.len() == 0
            &&& s.polyline.x == 0 && s.polyline.y == 0 && s.polyline.rop2 == 0 && s.polyline.brush_cache_entry == 0
            &&& s.polyline.pen_color == 0 && s.polyline.points.len() == 0
        }),
{
}

/// The image has room for the whole rows of a bitmap exactly if the rectangle is in order and the rows end
/// above the bottom of the image, where the rectangle ends before its right edge.
pub proof fn law_room_for_rows(v: ImageView, rect: InclusiveRectangle, len: nat, size: int, rows: int)
    requires
        1 <= size <= 4,
        rect.left <= rect.right < v.width,
        0 <= rows,
        rows * ((rect.right - rect.left + 1) * size) <= len < (rows + 1) * ((rect.right - rect.left + 1) * size),
    ensures
        rows == 0 || rect.top + rows <= v.height ==> v.has_room(rect, len, size),
        v.has_room(rect, len, size) && rows > 0 ==> rect.top + rows <= v.height,
        v.has_room_inside(rect, len, size) <==> rect.bottom >= v.height || v.has_room(rect, len, size),
{
    let cols = rect.right - rect.left + 1;
    let n = cols * size;
    assert(n > 0) by (nonlinear_arith)
        requires
            n == cols * size,
            cols > 0,
            size > 0,
    ;
    assert(rows * n + n == (rows + 1) * n) by (nonlinear_arith);
    lemma_fundamental_div_mod_converse(len as int, n, rows, len - rows * n);
    assert(ImageView::row_count(rect, len, size) == rows);
    let (w, h, t) = (v.width as int, v.height as int, rect.top as int);
    if rows > 0 {
        if t + rows <= h {
            assert((t + rows - 1) * w + w <= w * h) by (nonlinear_arith)
                requires
                    t + rows <= h,
                    w >= 0,
            ;
        } else {
            assert((t + rows - 1) * w >= w * h) by (nonlinear_arith)
                requires
                    t + rows > h,
                    w >= 0,
            ;
        }
    }
}

/// A compressed bitmap whose rows are in the image is accepted; so is one that could not be decompressed,
/// and one of more than a byte per pixel whose rectangle reaches out of the image.
pub proof fn law_compressed_bitmap_is_accepted(v: ImageView, b: BitmapView, inflated: Option<InflatedView>, rows: int)
    requires
        b.compression_flags.0 & 0x0001 == 0x0001,
        inflated matches Some(i) ==> {
            let n = row_len(b.rectangle, inflated_writing(b.bits_per_pixel, i.format));
            ||| is_free(v, b.rectangle, rows) && rows * n <= i.data.len() < (rows + 1) * n
            ||| (b.rectangle.right >= v.width || b.rectangle.bottom >= v.height) && !(inflated_writing(
                b.bits_per_pixel,
                i.format,
            ) is Index)
        },
    ensures
        bitmap_fits(v, b, inflated),
{
    if inflated is Some {
        let i = inflated->Some_0;
        let written = inflated_writing(b.bits_per_pixel, i.format);
        if is_free(v, b.rectangle, rows) && rows * row_len(b.rectangle, written) <= i.data.len() < (rows + 1)
            * row_len(b.rectangle, written) {
            law_room_for_rows(v, b.rectangle, i.data.len(), written.len(), rows);
        }
    }
}

/// Pixels of a depth without a meaning are accepted, for they are not drawn; those of a known depth are
/// accepted where their rows are in the image.
pub proof fn law_pixels_are_accepted(v: ImageView, depth: u16, len: nat, rect: InclusiveRectangle, rows: int)
    requires
        plain_writing(depth) matches Some(written) ==> is_free(v, rect, rows) && rows * row_len(rect, written) <= len
            < (rows + 1) * row_len(rect, written),
    ensures
        raw_fits(v, depth as int, len, rect),
{
    if plain_writing(depth) is Some {
        law_room_for_rows(v, rect, len, plain_writing(depth)->Some_0.len(), rows);
    }
}

/// A pointer that reaches into the screen and is cut off at one end of it at most can be placed.
pub proof fn law_pointer_can_be_placed(p: PointerView, x: u16, y: u16, width: u16, height: u16)
    requires
        p.width >= 1,
        p.height >= 1,
        width >= 1,
        height >= 1,
        cut_once(x - p.hotspot_x, p.width as int, width as int),
        cut_once(y - p.hotspot_y, p.height as int, height as int),
    ensures
        placeable(p, x, y, width, height),
{
}

/// A part of a tile of 64 by 64 pixels in the image can be laid on it.
pub proof fn law_part_can_be_laid(v: ImageView, part: InclusiveRectangle, place: InclusiveRectangle)
    requires
        is_part(v, part, place),
        part.right < place.left + 64,
        part.bottom < place.top + 64,
    ensures
        v.has_part(part, place, 64 * 64 * 4),
{
}

/// A tile whose parts lie in the image and in the tile is accepted, and so is one that is not drawn because
/// it reaches out of the image.
pub proof fn law_tile_is_accepted(v: ImageView, t: RfxTile)
    requires
        t.output@.len() == 64 * 64 * 4,
        t.extents.right >= v.width || t.extents.bottom >= v.height || (v.width < 0x4000 && forall|k: int|
            0 <= k < t.region@.len() ==> is_part(v, #[trigger] t.region@[k], t.place) && t.region@[k].right
                < t.place.left + 64 && t.region@[k].bottom < t.place.top + 64),
    ensures
        tile_fits(v, t),
{
    if v.fits(t.extents) {
        assert forall|k: int| 0 <= k < t.region@.len() implies #[trigger] v.has_part(
            t.region@[k],
            t.place,
            t.output@.len(),
        ) by {
            law_part_can_be_laid(v, t.region@[k], t.place);
        }
    }
}

/// Frame markers and surface bits of an unknown codec are accepted, for they draw nothing.
pub proof fn law_undrawn_commands_are_accepted(v: ImageView, command: SurfaceCommand<'_>)
    requires
        match command {
            SurfaceCommand::FrameMarker(_) => true,
            SurfaceCommand::SetSurfaceBits(b) => b.codec_id != 0 && b.codec_id != 3 && b.codec_id != 10 && b.codec_id
                != 11,
            SurfaceCommand::StreamSurfaceBits(b) => b.codec_id != 0 && b.codec_id != 3 && b.codec_id != 10
                && b.codec_id != 11,
        },
    ensures
        command_fits(v, command),
{
}

/// Surface bits are accepted where what they draw is in the image, and a QOI image where the edges of its
/// place are in order.
pub proof fn law_bits_are_accepted(v: ImageView, bits: SurfaceBits<'_>, rows: int)
    requires
        bits.codec_id == 0 ==> (plain_writing(bits.bpp as u16) matches Some(written) ==> {
            let rect = bits.destination.inclusive();
            is_free(v, rect, rows) && rows * row_len(rect, written) <= bits.data@.len() < (rows + 1) * row_len(
                rect,
                written,
            )
        }),
        bits.codec_id == 3 ==> forall|k: int|
            0 <= k < bits.frames.frames@.len() ==> #[trigger] frame_fits(v, bits.frames.frames@[k]),
        bits.codec_id == 10 || bits.codec_id == 11 ==> bits.destination.left < bits.destination.right
            && bits.destination.top < bits.destination.bottom,
        bits.codec_id == 11 ==> 0 < bits.data@.len() && bits.data@.len() * 4 <= usize::MAX,
    ensures
        bits_fit(v, bits),
{
    if bits.codec_id == 0 {
        law_pixels_are_accepted(v, bits.bpp as u16, bits.data@.len(), bits.destination.inclusive(), rows);
    }
}

/// A pointer update is accepted whenever no pointer has to be drawn for it: pointers of the server are off,
/// or are left to the user interface, or the pointer goes away.
pub proof fn law_undrawn_pointers_are_accepted(h: PointerHandlingView, image: ImageView, update: PointerUpdateData)
    requires
        !h.enabled || !h.software || update is SetHidden || update is SetDefault || (update is SetPosition && (
        h.system || !image.shown || image.pointer is None)),
    ensures
        h.drawable(image, update),
{
}

/// Palettes, synchronisations and updates that could not be decoded are accepted by every image, and so are
/// pointer updates where no pointer has to be drawn.
pub proof fn law_updates_are_accepted(p: ProcessorView, image: ImageView, update: CompleteUpdate<'_>)
    ensures
        update is Palette || update is Synchronize || update is Invalid ==> p.accepts(image, update),
        update is Pointer && (!p.pointers.enabled || !p.pointers.software) ==> p.accepts(image, update),
        update is SurfaceCommands && update->SurfaceCommands_0@.len() == 0 ==> p.accepts(image, update),
        update is Bitmap && update->Bitmap_0@.len() == 0 ==> p.accepts(image, update),
        p.mouse is None || image.pointer is None || !image.shown ==> p.mouse_fits(image),
{
}

/// Whether a colour that is multiplied by its opacity blends: it is no brighter than it is opaque.
pub proof fn law_multiplied_colors_blend(value: u8, alpha: u8)
    requires
        value <= alpha,
    ensures
        blends(value, alpha),
{
}

proof fn lemma_whole(bytes: Seq<u8>, o: CacheBitmapView, inflated: Option<Seq<u8>>)
    requires
        cache_bitmap_at(bytes) == Ok::<CacheBitmapView, SessionError>(o),
        cache_order_ends_well(bytes),
        is_whole(o.data, inflated, o.width, o.height, o.bpp, o.flags),
    ensures
        cache_order_is_whole(bytes, inflated),
{
}

/// An uncompressed bitmap that has all its pixels can be cached.
#[verifier::spinoff_prover]
#[verifier::rlimit(60)]
pub proof fn law_cache_order_is_accepted(
    o: CacheBitmapView,
    keyed: bool,
    high: u8,
    keys: Seq<u8>,
    tail: Seq<u8>,
    inflated: Option<Seq<u8>>,
)
    requires
        o.cache_id < 4,
        high < 32,
        o.data.len() <= 0xFFFF,
        keyed ==> keys.len() == 8,
        !keyed ==> keys.len() == 0,
        o.flags as int / 0x400 % 2 == 1,
        o.bpp == 8 ==> o.width * o.height <= o.data.len(),
        o.bpp == 15 || o.bpp == 16 ==> o.width * o.height * 2 <= o.data.len(),
        o.bpp == 24 ==> o.width * o.height * 3 <= o.data.len(),
        o.bpp == 32 ==> o.width * o.height * 4 <= o.data.len(),
        o.width * o.height * 4 <= usize::MAX,
    ensures
        cache_order_is_whole(cache_order_bytes(o, keyed, high, keys) + tail, inflated),
{
    law_cache_order_is_read_back(o, keyed, high, keys, tail);
    let area = o.width * o.height;
    assert(area * 1 == area);
    assert(is_whole(o.data, inflated, o.width, o.height, o.bpp, o.flags));
    lemma_whole(cache_order_bytes(o, keyed, high, keys) + tail, o, inflated);
}

/// Every order that does not cache a bitmap is complete.
pub proof fn law_other_orders_are_whole(order: OrderView, inflated: Option<Seq<u8>>)
    requires
        !(order is Secondary),
    ensures
        order_is_whole(order, inflated),
{
}

proof fn lemma_encoded(bytes: Seq<u8>, o: CacheBitmapView)
    requires
        cache_bitmap_at(bytes) == Ok::<CacheBitmapView, SessionError>(o),
        cache_order_ends_well(bytes),
    ensures
        ({
            let order = OrderView::Secondary(SecondaryOrderType::CacheBitmapV2, bytes);
            &&& o.flags as int / 0x400 % 2 == 0 ==> encoded_bitmap(order) == Some((o.data, o.width, o.height, o.bpp))
            &&& o.flags as int / 0x400 % 2 == 1 ==> encoded_bitmap(order) is None
        }),
{
}

/// The bitmap that has to be decompressed for an order is the run-length encoded one of an order to cache a
/// bitmap, with its width, height and bits per pixel; no other order has one.
#[verifier::spinoff_prover]
#[verifier::rlimit(60)]
pub proof fn law_what_is_to_be_decompressed(
    o: CacheBitmapView,
    keyed: bool,
    high: u8,
    keys: Seq<u8>,
    tail: Seq<u8>,
    other: OrderView,
)
    requires
        o.cache_id < 4,
        high < 32,
        o.data.len() <= 0xFFFF,
        keyed ==> keys.len() == 8,
        !keyed ==> keys.len() == 0,
        !(other is Secondary),
    ensures
        ({
            let order = OrderView::Secondary(
                SecondaryOrderType::CacheBitmapV2,
                cache_order_bytes(o, keyed, high, keys) + tail,
            );
            &&& o.flags as int / 0x400 % 2 == 0 ==> encoded_bitmap(order) == Some((o.data, o.width, o.height, o.bpp))
            &&& o.flags as int / 0x400 % 2 == 1 ==> encoded_bitmap(order) is None
        }),
        encoded_bitmap(other) is None,
{
    law_cache_order_is_read_back(o, keyed, high, keys, tail);
    lemma_encoded(cache_order_bytes(o, keyed, high, keys) + tail, o);
}

/// Reading ahead reads one order after the other, until the bytes end or an order cannot be read.
pub proof fn law_reading_ahead(bytes: Seq<u8>, state: OrderStateView, k: nat)
    ensures
        read_ahead(bytes, state, 0) == (state, bytes, true),
        ({
            let (before, rest, live) = read_ahead(bytes, state, k);
            let (after, behind, still) = read_ahead(bytes, state, k + 1);
            let next = order_at(rest, before);
            &&& live && rest.len() > 0 ==> after == next.state && behind == next.rest && (still <==> next.result is Ok)
            &&& !live || rest.len() == 0 ==> after == before && behind == rest && !still
        }),
{
}

} // verus!
