//! What holds of the processing of updates.

use std::sync::Arc;

use vstd::prelude::*;

use crate::bitmap::BitmapView;
use crate::bitmap_caching::cached;
use crate::bitmap_updates::{bitmap_applied, bitmap_regions, bitmaps_applied, inflated_at, Inflated};
use crate::drawing_orders::{OrderStateView, OrderView, SecondaryOrderType};
use crate::error::{SessionError, SessionResult};
use crate::fast_path::{bulk_flags, CompleteUpdate, ProcessorView};
use crate::fast_path_pdu::UpdatePduView;
use crate::frame_marker::FrameAcknowledge;
use crate::geometry::InclusiveRectangle;
use crate::image::ImageView;
use crate::fast_path_update::orders_read;
use crate::order_decoding::order_at;
use crate::order_processing::{
    order_applied, order_fails, orders_applied, orders_start, Canvas, OrdersRun,
};
use crate::order_rendering::{combined, rendered};
use crate::palette::{ColorPalette, PaletteEntry};
use crate::pointer::DecodedPointer;
use crate::pointer_updates::{PointerHandlingView, PointerUpdateData, UpdateKind};
use crate::surface_commands::{answers, commands_outcome};
use crate::surface_laws::{law_no_commands, law_no_more_answers_than_commands};
use crate::update_wire::compression_number;
use crate::zstd_stream::{buffer_step, inflated, inflated_by, inflating, BufferStep, StreamCall};

verus! {

/// How many of the listed updates are regions: none, or one, which is then the last.
pub open spec fn region_list(area: Option<InclusiveRectangle>, list: Seq<UpdateKind>) -> bool {
    match area {
        None => list.len() == 0,
        Some(rect) => list.len() == 1 && list[0] == UpdateKind::Region(rect),
    }
}

/// The server that asks for no pointer, or for the default one, has the user interface told so first. A
/// pointer that was drawn is hidden, and the user interface shows its own from then on; otherwise nothing
/// else happens.
pub proof fn law_pointer_goes_away(h: PointerHandlingView, image: ImageView, update: PointerUpdateData)
    requires
        h.enabled,
        update is SetHidden || update is SetDefault,
    ensures
        ({
            let out = h.updated(image, update);
            let list = out.result->Ok_0;
            &&& out.result is Ok
            &&& list.len() >= 1
            &&& update is SetHidden ==> list[0] is PointerHidden
            &&& update is SetDefault ==> list[0] is PointerDefault
            &&& out.handling.cached == h.cached && out.handling.enabled && out.handling.software == h.software
            &&& h.software ==> out.handling.system
            &&& h.software && !h.system ==> out.image == image.pointer_hidden().0 && region_list(
                image.pointer_hidden().1,
                list.skip(1),
            )
            &&& !h.software || h.system ==> out.image == image && list.len() == 1 && out.handling == h
        }),
{
    let out = h.updated(image, update);
    if h.software && !h.system {
        let list = out.result->Ok_0;
        let area = image.pointer_hidden().1;
        match area {
            Some(rect) => {
                assert(list.skip(1) =~= seq![UpdateKind::Region(rect)]);
            },
            None => {
                assert(list.skip(1) =~= Seq::empty());
            },
        }
    }
}

/// The server that moves the pointer has the drawn pointer moved, where the pointer is drawn on the image,
/// and the user interface told of the position otherwise.
pub proof fn law_pointer_is_moved(h: PointerHandlingView, image: ImageView, x: u16, y: u16)
    requires
        h.enabled,
    ensures
        ({
            let out = h.updated(image, PointerUpdateData::SetPosition { x, y });
            &&& out.result is Ok
            &&& out.handling == h
            &&& h.software && !h.system ==> out.image == image.pointer_moved(x, y).0 && region_list(
                image.pointer_moved(x, y).1,
                out.result->Ok_0,
            )
            &&& !(h.software && !h.system) ==> out.image == image && out.result->Ok_0 =~= seq![
                UpdateKind::PointerPosition { x, y },
            ]
        }),
{
}

/// A pointer that the server sends is kept under its number, beside the others, and shown: drawn on the
/// image, or handed to the user interface. One that could not be decoded changes nothing and fails.
pub proof fn law_pointer_is_taken(
    h: PointerHandlingView,
    image: ImageView,
    cache_index: u16,
    pointer: Option<Arc<DecodedPointer>>,
    update: PointerUpdateData,
    other: u16,
)
    requires
        h.enabled,
        update == (PointerUpdateData::Color { cache_index, pointer }) || update == (PointerUpdateData::New {
            cache_index,
            pointer,
        }) || update == (PointerUpdateData::Large { cache_index, pointer }),
    ensures
        ({
            let out = h.updated(image, update);
            let p = pointer->Some_0;
            &&& pointer is None ==> out.result == Err::<Seq<UpdateKind>, SessionError>(SessionError::Pointer)
                && out.image == image && out.handling == h
            &&& pointer is Some ==> {
                &&& out.result is Ok
                &&& out.handling.cached.contains_key(cache_index) && out.handling.cached[cache_index] == p
                &&& other != cache_index ==> (out.handling.cached.contains_key(other)
                    <==> h.cached.contains_key(other))
                &&& other != cache_index && h.cached.contains_key(other) ==> out.handling.cached[other]
                    == h.cached[other]
                &&& out.handling.system == h.system && out.handling.enabled && out.handling.software == h.software
                &&& h.software ==> out.image == image.pointer_replaced(p@).0 && region_list(
                    image.pointer_replaced(p@).1,
                    out.result->Ok_0,
                )
                &&& !h.software ==> out.image == image && out.result->Ok_0 =~= seq![UpdateKind::PointerBitmap(p)]
            }
        }),
{
}

/// A pointer that is recalled from the cache is shown in place of the one of the user interface, which is
/// hidden first; a number that nothing was sent for changes nothing.
pub proof fn law_pointer_is_recalled(h: PointerHandlingView, image: ImageView, cache_index: u16)
    requires
        h.enabled,
    ensures
        ({
            let out = h.updated(image, PointerUpdateData::Cached { cache_index });
            let list = out.result->Ok_0;
            let p = h.cached[cache_index];
            &&& out.result is Ok
            &&& !h.cached.contains_key(cache_index) ==> out.image == image && out.handling == h && list.len() == 0
            &&& h.cached.contains_key(cache_index) ==> {
                &&& list.len() >= 1 && list[0] is PointerHidden
                &&& !out.handling.system
                &&& out.handling.cached == h.cached && out.handling.enabled && out.handling.software == h.software
                &&& !h.software ==> out.image == image && list.len() == 2 && list[1] == UpdateKind::PointerBitmap(p)
                &&& h.software && image.pointer_replaced(p@).1 is Some ==> out.image == image.pointer_replaced(p@).0
                    && region_list(image.pointer_replaced(p@).1, list.skip(1))
            }
        }),
{
    let out = h.updated(image, PointerUpdateData::Cached { cache_index });
    if h.cached.contains_key(cache_index) && h.software {
        let area = image.pointer_replaced(h.cached[cache_index]@).1;
        if area is Some {
            assert(out.result->Ok_0.skip(1) =~= seq![UpdateKind::Region(area->Some_0)]);
        }
    }
}

/// A primary order is drawn, and tells its area; an order to cache a bitmap caches it, and tells none;
/// every other order does nothing.
pub proof fn law_orders_do_what_they_are(
    c: Canvas,
    palette: Seq<PaletteEntry>,
    order: OrderView,
    bytes: Option<Seq<u8>>,
)
    ensures
        ({
            let (after, r) = order_applied(c, palette, order, bytes);
            &&& order matches OrderView::Primary(p) ==> {
                let (image, area) = rendered(c.image, c.caches, p.data);
                after.image == image && after.caches == c.caches && r == Ok::<
                    Option<InclusiveRectangle>,
                    SessionError,
                >(area)
            }
            &&& order matches OrderView::Secondary(t, data) ==> {
                &&& after.image == c.image
                &&& t is CacheBitmapV2 ==> {
                    let (caches, worked) = cached(c.caches, palette, data, bytes);
                    &&& after.caches == caches
                    &&& r is Ok <==> worked is Ok
                    &&& r is Ok ==> r->Ok_0 is None
                    &&& r is Err ==> r->Err_0 == worked->Err_0
                }
                &&& !(t is CacheBitmapV2) ==> after.caches == c.caches && r == Ok::<
                    Option<InclusiveRectangle>,
                    SessionError,
                >(None)
            }
            &&& order is AlternateSecondary ==> after == c && r == Ok::<Option<InclusiveRectangle>, SessionError>(None)
        }),
{
}

/// Only an order to cache a bitmap fails, and those fail that are announced to.
pub proof fn law_failing_orders(c: Canvas, palette: Seq<PaletteEntry>, order: OrderView, bytes: Option<Seq<u8>>)
    ensures
        order_applied(c, palette, order, bytes).1 is Err <==> order_fails(c.caches, order, bytes),
        order_fails(c.caches, order, bytes) ==> order is Secondary,
{
    match order {
        OrderView::Secondary(SecondaryOrderType::CacheBitmapV2, data) => {
            crate::bitmap_caching::lemma_cached(c.caches, palette, data, bytes);
        },
        _ => {},
    }
}

/// A run of orders takes them one after the other: each is read behind the last, with what it left, and is
/// done; its area comes behind the others. An order that cannot be read ends the run and is dropped; one
/// that fails ends it with its error.
pub proof fn law_run_takes_orders_in_turn(run: OrdersRun, palette: Seq<PaletteEntry>, bytes: Option<Seq<u8>>)
    ensures
        ({
            let next = run.next(palette, bytes);
            let live = !run.ended && run.error is None && run.rest.len() > 0;
            let decoded = order_at(run.rest, run.state);
            &&& !live ==> next == run
            &&& live ==> next.state == decoded.state && next.rest == decoded.rest
            &&& live && decoded.result is Err ==> next.ended && next.error is None && next.canvas == run.canvas
                && next.areas == run.areas
            &&& live && decoded.result is Ok ==> {
                let (canvas, r) = order_applied(run.canvas, palette, decoded.result->Ok_0, bytes);
                &&& !next.ended
                &&& next.canvas == canvas
                &&& r is Err ==> next.error == Some(r->Err_0) && next.areas == run.areas
                &&& r is Ok ==> next.error is None
                &&& r is Ok && r->Ok_0 is None ==> next.areas == run.areas
                &&& r is Ok && r->Ok_0 is Some ==> next.areas == run.areas.push(r->Ok_0->Some_0)
            }
        }),
{
}

/// A run goes on from order to order, with the decompressed bitmap of each.
pub proof fn law_run_goes_on(run: OrdersRun, palette: Seq<PaletteEntry>, list: Seq<Option<Vec<u8>>>, n: nat)
    ensures
        run.after(palette, list, 0) == run,
        n < list.len() && list[n as int] is Some ==> run.after(palette, list, n + 1) == run.after(
            palette,
            list,
            n,
        ).next(palette, Some(list[n as int]->Some_0@)),
        n >= list.len() || list[n as int] is None ==> run.after(palette, list, n + 1) == run.after(
            palette,
            list,
            n,
        ).next(palette, None),
{
}

/// What a run reports: its error, or a region for each area, in order. It begins with nothing reported.
pub proof fn law_run_reports(
    run: OrdersRun,
    k: int,
    canvas: Canvas,
    state: OrderStateView,
    data: Seq<u8>,
)
    requires
        0 <= k < run.areas.len(),
    ensures
        run.result() is Err <==> run.error is Some,
        run.result() is Err ==> run.result()->Err_0 == run.error->Some_0,
        run.result() is Ok ==> run.result()->Ok_0.len() == run.areas.len() && run.result()->Ok_0[k]
            == UpdateKind::Region(run.areas[k]),
        orders_start(canvas, state, data).canvas == canvas,
        orders_start(canvas, state, data).state == state,
        orders_start(canvas, state, data).rest == data,
        orders_start(canvas, state, data).areas.len() == 0,
        !orders_start(canvas, state, data).ended,
        orders_start(canvas, state, data).error is None,
{
}

/// Orders that were read are done one after the other, up to the first that fails.
pub proof fn law_orders_are_done_in_turn(
    canvas: Canvas,
    palette: Seq<PaletteEntry>,
    orders: Seq<OrderView>,
    list: Seq<Option<Vec<u8>>>,
    n: nat,
)
    requires
        n < orders.len(),
    ensures
        orders_applied(canvas, palette, orders, list, 0) == (
            canvas,
            Seq::<InclusiveRectangle>::empty(),
            None::<SessionError>,
        ),
        ({
            let (c, areas, error) = orders_applied(canvas, palette, orders, list, n);
            let after = orders_applied(canvas, palette, orders, list, n + 1);
            let bytes = if n < list.len() && list[n as int] is Some {
                Some(list[n as int]->Some_0@)
            } else {
                None
            };
            let (done, r) = order_applied(c, palette, orders[n as int], bytes);
            &&& error is Some ==> after == (c, areas, error)
            &&& error is None ==> after.0 == done
            &&& error is None && r is Err ==> after.1 == areas && after.2 == Some(r->Err_0)
            &&& error is None && r is Ok ==> after.2 is None
            &&& error is None && r is Ok && r->Ok_0 is None ==> after.1 == areas
            &&& error is None && r is Ok && r->Ok_0 is Some ==> after.1 == areas.push(r->Ok_0->Some_0)
        }),
{
}

/// The bitmaps of an update are drawn one after the other, each with what decompression made of it, and
/// one region is reported around all of them.
pub proof fn law_bitmaps_are_drawn_in_turn(
    v: ImageView,
    list: Seq<BitmapView>,
    inflated_list: Seq<Option<Inflated>>,
    palette: ColorPalette,
    n: nat,
    areas: Seq<InclusiveRectangle>,
)
    requires
        n < list.len(),
    ensures
        bitmaps_applied(v, list, inflated_list, palette, 0) == (v, Seq::<InclusiveRectangle>::empty()),
        ({
            let (before, done) = bitmaps_applied(v, list, inflated_list, palette, n);
            let (after, more) = bitmaps_applied(v, list, inflated_list, palette, n + 1);
            let own = inflated_at(inflated_list, n as int);
            &&& after == bitmap_applied(before, list[n as int], own, palette).0
            &&& more == done.push(bitmap_applied(before, list[n as int], own, palette).1)
            &&& own is Some <==> n < inflated_list.len() && inflated_list[n as int] is Some
            &&& own is Some ==> own->Some_0.data == inflated_list[n as int]->Some_0.data@ && own->Some_0.format
                == inflated_list[n as int]->Some_0.format
        }),
        areas.len() == 0 ==> bitmap_regions(areas).len() == 0,
        areas.len() > 0 ==> combined(areas) is Some && bitmap_regions(areas) =~= seq![
            UpdateKind::Region(combined(areas)->Some_0),
        ],
{
    if areas.len() > 0 {
        crate::order_rendering::law_combined_is_tight(areas);
    }
}

/// The part of an update is decompressed only where bulk compression was negotiated, and its flags say that
/// it is compressed or that the history is flushed; the decompressor is told flags and type.
pub proof fn law_bulk_flags(bulk: bool, pdu: UpdatePduView)
    requires
        pdu.compression_flags is Some == pdu.compression_type is Some,
        pdu.compression_flags matches Some(f) ==> f.0 % 32 == 0,
    ensures
        bulk_flags(bulk, pdu) is Some <==> bulk && pdu.compression_flags is Some && (
        pdu.compression_flags->Some_0.0 / 32 % 2 == 1 || pdu.compression_flags->Some_0.0 / 128 == 1),
        bulk_flags(bulk, pdu) matches Some(value) ==> value == pdu.compression_flags->Some_0.0 + compression_number(
            pdu.compression_type->Some_0,
        ),
{
    if pdu.compression_flags is Some {
        let f: u8 = pdu.compression_flags->Some_0.0;
        let t: u8 = pdu.compression_type->Some_0.code();
        assert((f & 0x20 == 0x20) == (f / 32 % 2 == 1) && (f & 0x80 == 0x80) == (f / 128 == 1)) by (bit_vector);
        assert(f % 32 == 0 && t < 4 ==> (f as u32 | t as u32) == f as u32 + t as u32) by (bit_vector);
        assert(t == compression_number(pdu.compression_type->Some_0));
    }
}

/// The mouse moves the drawn pointer once: where the user moved it last, and not again.
pub proof fn law_mouse_moves_once(p: ProcessorView, image: ImageView)
    ensures
        ({
            let (after, v, list) = p.mouse_moved(image);
            &&& after == (ProcessorView { mouse: None, ..p })
            &&& p.mouse is None ==> v == image && list.len() == 0
            &&& p.mouse matches Some(at) ==> v == image.pointer_moved(at.0, at.1).0 && region_list(
                image.pointer_moved(at.0, at.1).1,
                list,
            )
            &&& after.mouse_moved(v) == (after, v, Seq::<UpdateKind>::empty())
        }),
{
    assert((ProcessorView { mouse: None, ..p }) =~= p || p.mouse is Some);
}

/// An update that could not be decoded changes nothing: it is an error if bytes are missing, and is dropped
/// otherwise. A synchronisation changes nothing either. No update but surface commands is acknowledged.
pub proof fn law_updates_without_effect(
    p: ProcessorView,
    image: ImageView,
    update: CompleteUpdate<'_>,
    after: ProcessorView,
    image_after: ImageView,
    result: SessionResult<Seq<UpdateKind>>,
    acknowledged: Seq<FrameAcknowledge>,
)
    requires
        p.processes(image, update, after, image_after, result, acknowledged),
    ensures
        update is Invalid || update is Synchronize ==> after == p && image_after == image,
        update is Synchronize ==> result is Ok && result->Ok_0.len() == 0,
        update is Invalid && update->Invalid_0 is NotEnoughBytes ==> result == Err::<Seq<UpdateKind>, SessionError>(
            SessionError::Decode(update->Invalid_0),
        ),
        update is Invalid && update->Invalid_0 is InvalidField ==> result is Ok && result->Ok_0.len() == 1
            && result->Ok_0[0] is Nothing,
        !(update is SurfaceCommands) ==> acknowledged.len() == 0,
        !(update is SurfaceCommands) ==> after.stream == p.stream,
        !(update is Palette) ==> after.palette == p.palette,
        !(update is Pointer) ==> after.pointers == p.pointers,
        !(update is Orders) ==> after.orders == p.orders && after.caches == p.caches,
        after.fragments == p.fragments && after.markers == p.markers && after.mouse == p.mouse && after.bulk
            == p.bulk,
{
}

/// A palette update replaces the first colours, and neither the image nor anything else changes.
pub proof fn law_palette_update(
    p: ProcessorView,
    image: ImageView,
    update: CompleteUpdate<'_>,
    after: ProcessorView,
    image_after: ImageView,
    result: SessionResult<Seq<UpdateKind>>,
    acknowledged: Seq<FrameAcknowledge>,
    index: int,
)
    requires
        update is Palette,
        p.processes(image, update, after, image_after, result, acknowledged),
        0 <= index < p.palette@.len(),
    ensures
        after.palette@.len() == p.palette@.len(),
        index < update->Palette_0@.len() ==> after.palette@[index] == update->Palette_0@[index],
        index >= update->Palette_0@.len() ==> after.palette@[index] == p.palette@[index],
        image_after == image,
        result is Ok && result->Ok_0.len() == 0,
{
}

/// Orders on the fast path that cannot all be read are an error, and none of them is done.
pub proof fn law_unreadable_orders(
    p: ProcessorView,
    image: ImageView,
    update: CompleteUpdate<'_>,
    after: ProcessorView,
    image_after: ImageView,
    result: SessionResult<Seq<UpdateKind>>,
    acknowledged: Seq<FrameAcknowledge>,
)
    requires
        update is Orders,
        p.processes(image, update, after, image_after, result, acknowledged),
        orders_read(
            update->Orders_0.order_data@,
            p.orders,
            update->Orders_0.number_orders as nat,
        ).0 is Err,
    ensures
        result is Err,
        image_after == image,
        after.caches == p.caches,
{
}

/// A full buffer is doubled, as far as that is possible; one with room left ends the decompression.
pub proof fn law_buffer_doubles(len: nat, written: nat)
    requires
        written <= len,
    ensures
        written < len ==> buffer_step(len, written) is Done,
        written == len && 2 * len <= usize::MAX ==> buffer_step(len, written) == BufferStep::Grow(
            (2 * len) as usize,
        ),
        written == len && 2 * len > usize::MAX ==> buffer_step(len, written) is TooLong,
{
}

/// How many bytes the first `n` calls on a stream read.
pub open spec fn bytes_read(calls: Seq<StreamCall>, n: nat) -> int
    decreases n,
{
    if n == 0 {
        0
    } else {
        bytes_read(calls, (n - 1) as nat) + match calls[n - 1].2 {
            Ok(reply) => reply.0 as int,
            Err(_) => 0,
        }
    }
}

/// What the first `n` calls on a stream wrote, one after the other.
pub open spec fn bytes_written(calls: Seq<StreamCall>, n: nat) -> Seq<u8>
    decreases n,
{
    if n == 0 {
        Seq::empty()
    } else {
        bytes_written(calls, (n - 1) as nat) + match calls[n - 1].2 {
            Ok(reply) => reply.1,
            Err(_) => Seq::empty(),
        }
    }
}

/// Whether each of the first `n` calls that worked read no more than it was handed.
pub open spec fn reads_what_is_there(input: Seq<u8>, calls: Seq<StreamCall>, n: nat) -> bool {
    forall|k: int| 0 <= k < n ==> #[trigger] bytes_read(calls, (k + 1) as nat) <= input.len()
}

/// Decompression hands over the input once, from where it was read to, and keeps what was written, in
/// order, behind what was written before.
pub proof fn law_input_is_read_once(input: Seq<u8>, calls: Seq<StreamCall>, n: nat)
    requires
        n <= calls.len(),
        reads_what_is_there(input, calls, n),
    ensures
        0 <= bytes_read(calls, n) <= input.len(),
        inflating(input, calls, n).left == input.skip(bytes_read(calls, n)),
        inflating(input, calls, n).plain == bytes_written(calls, n),
        inflating(input, calls, 0).len == 4 * input.len(),
    decreases n,
{
    if n == 0 {
        assert(input.skip(0) =~= input);
    } else {
        let m = (n - 1) as nat;
        law_input_is_read_once(input, calls, m);
        assert(bytes_read(calls, (m + 1) as nat) <= input.len());
        match calls[n - 1].2 {
            Ok(reply) => {
                assert(input.skip(bytes_read(calls, m)).skip(reply.0 as int) =~= input.skip(bytes_read(calls, n)));
            },
            Err(_) => {
                assert(bytes_written(calls, m) + Seq::<u8>::empty() =~= bytes_written(calls, m));
            },
        }
    }
}

/// What decompression gives is what all the calls wrote; it fails if the last of them did.
pub proof fn law_inflated_is_what_was_written(input: Seq<u8>, calls: Seq<StreamCall>)
    requires
        inflated_by(input, calls),
        reads_what_is_there(input, calls, calls.len()),
    ensures
        inflated(input, calls) matches Ok(plain) ==> plain == bytes_written(calls, calls.len()) && calls.last().2
            is Ok,
        calls.last().2 is Err ==> inflated(input, calls) == Err::<Seq<u8>, usize>(calls.last().2->Err_0),
{
    let n = calls.len();
    let m = (n - 1) as nat;
    assert forall|k: int| 0 <= k < m implies #[trigger] bytes_read(calls, (k + 1) as nat) <= input.len() by {
        assert(bytes_read(calls, (k + 1) as nat) <= input.len());
    }
    law_input_is_read_once(input, calls, m);
}

/// Bitmaps and pointers are drawn by the processor as they are drawn by themselves, and a pointer update
/// changes the handling of pointers.
pub proof fn law_processor_draws(
    p: ProcessorView,
    image: ImageView,
    update: CompleteUpdate<'_>,
    after: ProcessorView,
    image_after: ImageView,
    result: SessionResult<Seq<UpdateKind>>,
    acknowledged: Seq<FrameAcknowledge>,
)
    requires
        p.processes(image, update, after, image_after, result, acknowledged),
    ensures
        update is Bitmap && update->Bitmap_0@.len() == 0 ==> image_after == image && result is Ok
            && result->Ok_0.len() == 0,
        update is Bitmap && update->Bitmap_0@.len() == 1 ==> {
            let (v, area) = bitmap_applied(image, update->Bitmap_0@[0], inflated_at(update->Bitmap_1@, 0), p.palette);
            image_after == v && result is Ok && result->Ok_0 =~= seq![UpdateKind::Region(area)]
        },
        update is Pointer ==> {
            let out = p.pointers.updated(image, update->Pointer_0);
            after.pointers == out.handling && image_after == out.image && result == out.result
        },
{
    if update is Bitmap && update->Bitmap_0@.len() == 1 {
        let list = update->Bitmap_0@;
        let more = update->Bitmap_1@;
        let none = bitmaps_applied(image, list, more, p.palette, 0);
        let one = bitmaps_applied(image, list, more, p.palette, 1);
        let (v, area) = bitmap_applied(image, list[0], inflated_at(more, 0), p.palette);
        assert(one == (v, none.1.push(area)));
        assert(one.1.drop_last() =~= Seq::empty());
        assert(combined(one.1.drop_last()) is None);
        assert(combined(one.1) == Some(area));
    }
}

/// Surface commands that work report one region, and no command is acknowledged twice; without commands the
/// region is empty and nothing changes.
pub proof fn law_processor_runs_commands(
    p: ProcessorView,
    image: ImageView,
    update: CompleteUpdate<'_>,
    after: ProcessorView,
    image_after: ImageView,
    result: SessionResult<Seq<UpdateKind>>,
    acknowledged: Seq<FrameAcknowledge>,
)
    requires
        update is SurfaceCommands,
        p.processes(image, update, after, image_after, result, acknowledged),
    ensures
        acknowledged.len() <= update->SurfaceCommands_0@.len(),
        result is Ok ==> result->Ok_0.len() == 1 && result->Ok_0[0] is Region,
        result is Ok ==> acknowledged == answers(
            p.markers,
            update->SurfaceCommands_0@,
            update->SurfaceCommands_0@.len(),
        ),
        update->SurfaceCommands_0@.len() == 0 ==> {
            &&& image_after == image
            &&& after == p
            &&& acknowledged.len() == 0
            &&& result is Ok && result->Ok_0[0] == UpdateKind::Region(
                InclusiveRectangle { left: 0, top: 0, right: 0, bottom: 0 },
            )
        },
{
    let commands = update->SurfaceCommands_0@;
    let (done, area) = choose|done: nat, area: SessionResult<InclusiveRectangle>|
        {
            &&& #[trigger] commands_outcome(
                image,
                p.stream,
                commands,
                p.palette,
                image_after,
                after.stream,
                done,
                area,
            )
            &&& acknowledged == answers(p.markers, commands, done)
            &&& result == (match area {
                Ok(rect) => Ok(seq![UpdateKind::Region(rect)]),
                Err(e) => Err(e),
            })
        };
    assert(done <= commands.len());
    law_no_more_answers_than_commands(p.markers, commands, done);
    if commands.len() == 0 {
        assert(commands =~= Seq::empty());
        law_no_commands(image, p.stream, p.palette, image_after, after.stream, done, area);
        assert(after =~= p);
    }
}

/// Orders on the fast path are read first and then done in turn. They report a region for each area, or the
/// error of the first that failed.
pub proof fn law_processor_does_orders(
    p: ProcessorView,
    image: ImageView,
    update: CompleteUpdate<'_>,
    after: ProcessorView,
    image_after: ImageView,
    result: SessionResult<Seq<UpdateKind>>,
    acknowledged: Seq<FrameAcknowledge>,
    k: int,
)
    requires
        update is Orders,
        p.processes(image, update, after, image_after, result, acknowledged),
        orders_read(update->Orders_0.order_data@, p.orders, update->Orders_0.number_orders as nat).0 is Ok,
    ensures
        ({
            let (list, state, rest) = orders_read(
                update->Orders_0.order_data@,
                p.orders,
                update->Orders_0.number_orders as nat,
            );
            let (canvas, areas, error) = orders_applied(
                Canvas { image, caches: p.caches },
                p.palette@,
                list->Ok_0,
                update->Orders_1@,
                (list->Ok_0).len(),
            );
            &&& image_after == canvas.image
            &&& after.caches == canvas.caches
            &&& after.orders == state
            &&& result is Ok <==> error is None
            &&& result is Err ==> result->Err_0 == error->Some_0
            &&& result is Ok ==> result->Ok_0.len() == areas.len()
            &&& result is Ok && 0 <= k < areas.len() ==> result->Ok_0[k] == UpdateKind::Region(areas[k])
        }),
{
}

/// Orders on the slow path run from what the processor has, with the caches and the values of orders as
/// they are, and change nothing else of it.
pub proof fn law_slow_orders_run(
    p: ProcessorView,
    image: ImageView,
    data: Seq<u8>,
    list: Seq<Option<Vec<u8>>>,
    n: nat,
)
    ensures
        ({
            let (after, v, result) = p.orders_processed(image, data, list, n);
            let run = orders_start(Canvas { image, caches: p.caches }, p.orders, data).after(p.palette@, list, n);
            &&& v == run.canvas.image
            &&& after == (ProcessorView { caches: run.canvas.caches, orders: run.state, ..p })
            &&& result is Err <==> run.error is Some
        }),
{
}

} // verus!
