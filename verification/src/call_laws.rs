//! What calls on the parts of a session give back.

use std::sync::Arc;

use vstd::prelude::*;

use crate::bitmap_cache::{caches_wf, contents, BitmapCache, CachedBitmap};
use crate::bitmap_laws::nearest;
use crate::bitmap_updates::{bitmaps_applied, Inflated};
use crate::color_conversion::{rdp_15bit_to_rgb, rdp_16bit_to_rgb};
use crate::complete_data::CompleteData;
use crate::cursor::ReadCursor;
use crate::drawing_laws::{from_edge, opaque_pixel};
use crate::drawing_orders::{
    BoundingRectangle, DeltaPoint, DeltaRect, DrawingOrder, DrawingOrderState, OrderDataView, OrderStateView,
    OrderView, PrimaryOrderView,
};
use crate::drive::{CreateDisposition, DeviceIoRequest, DriveReply, NtStatus};
use crate::drive_backend::WinRdpdrBackend;
use crate::drive_laws::is_answer;
use crate::error::{DecodeError, DecodeResult, EncodeResult, SessionResult};
use crate::fast_path::{CompleteUpdate, Processor, ProcessorBuilder, ProcessorView};
use crate::fast_path_pdu::{FastPathHeader, FastPathUpdatePdu, Fragmentation, UpdatePduView};
use crate::frame_marker::{FrameAcknowledge, FrameMarkerProcessor};
use crate::geometry::InclusiveRectangle;
use crate::image::DecodedImage;
use crate::order_decoding::{decode_delta_points, decode_delta_rects, decode_order};
use crate::order_encoding::{
    delta_bytes, delta_fits, law_delta, law_delta_points, law_delta_rects, points_bytes, points_fit,
    rects_bytes, rects_fit,
};
use crate::order_fields::read_delta;
use crate::order_rendering::{make_inclusive_rect, rgb_from_u32};
use crate::order_wire::{
    body_fits, body_merged, bounds_merged, control_bit, flag_count, law_primary_order_is_read_back, moves_fit,
    primary_bytes, remembered, type_of,
};
use crate::palette::{ColorPalette, PaletteUpdate};
use crate::pointer::{DecodedPointer, PointerCache};
use crate::pointer_updates::{updates_of, UpdateKind};
use crate::server_graphics_update::{update_at, UpdateView};
use crate::update_wire::{
    law_packet_header_is_read_back, law_pdu_is_read_back, law_pdu_is_written, packet_header, pdu_bytes,
};
use crate::wire::{law_i16_is_read_back, law_u16_is_read_back, law_u32_is_read_back, long, word};

verus! {

/// A word of two bytes is read from the front of a cursor, which is then behind it.
pub proof fn law_read_u16(cursor: &mut ReadCursor<'_>, r: u16, value: u16, tail: Seq<u8>)
    requires
        call_ensures(ReadCursor::read_u16, (cursor,), r),
        old(cursor)@ == word(value as int) + tail,
    ensures
        r == value,
        final(cursor)@ == tail,
{
    law_u16_is_read_back(value, old(cursor)@, 0);
    assert((word(value as int) + tail).skip(2) =~= tail);
}

/// A signed word is read from the front of a cursor.
pub proof fn law_read_i16(cursor: &mut ReadCursor<'_>, r: i16, value: i16, tail: Seq<u8>)
    requires
        call_ensures(ReadCursor::read_i16, (cursor,), r),
        old(cursor)@ == word(value as int) + tail,
    ensures
        r == value,
        final(cursor)@ == tail,
{
    law_i16_is_read_back(value, old(cursor)@, 0);
    assert((word(value as int) + tail).skip(2) =~= tail);
}

/// A word of four bytes is read from the front of a cursor.
pub proof fn law_read_u32(cursor: &mut ReadCursor<'_>, r: u32, value: u32, tail: Seq<u8>)
    requires
        call_ensures(ReadCursor::read_u32, (cursor,), r),
        old(cursor)@ == long(value as int) + tail,
    ensures
        r == value,
        final(cursor)@ == tail,
{
    law_u32_is_read_back(value, old(cursor)@, 0);
    assert((long(value as int) + tail).skip(4) =~= tail);
}

/// A coordinate is read back, from one byte or from two, and the cursor is behind it.
pub proof fn law_read_delta(cursor: &mut ReadCursor<'_>, wide: bool, r: DecodeResult<i16>, value: int, tail: Seq<u8>)
    requires
        delta_fits(wide, value),
        call_ensures(read_delta, (cursor, wide), r),
        old(cursor)@ == delta_bytes(wide, value, tail),
    ensures
        r is Ok,
        r->Ok_0 == value,
        final(cursor)@ == tail,
{
    law_delta(wide, value, tail);
}

/// A list of rectangles is read back, and the cursor is behind it.
pub proof fn law_decode_delta_rects(
    cursor: &mut ReadCursor<'_>,
    count: usize,
    r: DecodeResult<Vec<DeltaRect>>,
    zero_bits: Seq<u8>,
    rects: Seq<DeltaRect>,
    tail: Seq<u8>,
)
    requires
        count == rects.len(),
        rects_fit(zero_bits, rects),
        call_ensures(decode_delta_rects, (cursor, count), r),
        old(cursor)@ == zero_bits + rects_bytes(zero_bits, rects, 0, tail),
    ensures
        r is Ok,
        r->Ok_0@ == rects,
        final(cursor)@ == tail,
{
    law_delta_rects(zero_bits, rects, tail);
}

/// A list of points is read back, and the cursor is behind it.
pub proof fn law_decode_delta_points(
    cursor: &mut ReadCursor<'_>,
    count: usize,
    r: DecodeResult<Vec<DeltaPoint>>,
    zero_bits: Seq<u8>,
    points: Seq<DeltaPoint>,
    tail: Seq<u8>,
)
    requires
        count == points.len(),
        points_fit(zero_bits, points),
        call_ensures(decode_delta_points, (cursor, count), r),
        old(cursor)@ == zero_bits + points_bytes(zero_bits, points, 0, tail),
    ensures
        r is Ok,
        r->Ok_0@ == points,
        final(cursor)@ == tail,
{
    law_delta_points(zero_bits, points, tail);
}

/// A primary order is read back, and is remembered for the next one.
pub proof fn law_decode_order(
    cursor: &mut ReadCursor<'_>,
    state: &mut DrawingOrderState,
    r: DecodeResult<DrawingOrder<'_>>,
    control: u8,
    data: OrderDataView,
    flags: u32,
    changed: u8,
    bounds: BoundingRectangle,
    zero_bits: Seq<u8>,
    tail: Seq<u8>,
)
    requires
        control_bit(control, 1),
        !control_bit(control, 2),
        !control_bit(control, 8) ==> old(state)@.primary_order_type == Some(type_of(data)),
        control_bit(control, 32) && control_bit(control, 64) ==> moves_fit(changed, bounds, old(state)@.bounds),
        flag_count(type_of(data)) == 1 ==> flags < 0x100,
        flag_count(type_of(data)) == 2 ==> flags < 0x1_0000,
        flags < 0x100_0000,
        body_fits(flags, zero_bits, data, old(state)@),
        old(cursor)@ == primary_bytes(control, data, flags, changed, bounds, zero_bits, old(state)@, tail),
        call_ensures(decode_order, (cursor, state), r),
    ensures
        r is Ok,
        r->Ok_0@ == OrderView::Primary(
            PrimaryOrderView {
                order_type: type_of(data),
                bounds: if control_bit(control, 32) {
                    Some(bounds_merged(changed, bounds, old(state)@.bounds))
                } else {
                    None
                },
                data: body_merged(flags, data, old(state)@),
            },
        ),
        final(cursor)@ == tail,
        final(state)@.primary_order_type == Some(type_of(data)),
{
    law_primary_order_is_read_back(control, data, flags, changed, bounds, zero_bits, old(state)@, tail);
}

/// A part of an update is read back, and the cursor is behind it.
pub proof fn law_decode_pdu(
    cursor: &mut ReadCursor<'_>,
    r: DecodeResult<FastPathUpdatePdu<'_>>,
    pdu: UpdatePduView,
    tail: Seq<u8>,
)
    requires
        pdu.compression_flags is Some == pdu.compression_type is Some,
        pdu.compression_flags matches Some(flags) ==> flags.0 % 32 == 0,
        pdu.data.len() <= 0xFFFF,
        old(cursor)@ == pdu_bytes(pdu, tail),
        call_ensures(FastPathUpdatePdu::decode, (cursor,), r),
    ensures
        r is Ok,
        r->Ok_0@ == pdu,
        final(cursor)@ == tail,
{
    law_pdu_is_read_back(pdu, tail);
}

/// The parts of an update are put together as they come.
pub proof fn law_process_data(c: &mut CompleteData, data: &[u8], part: Fragmentation, r: Option<Vec<u8>>)
    requires
        call_ensures(CompleteData::process_data, (c, data, part), r),
    ensures
        part is Single ==> r is Some && r->Some_0@ == data@,
        part is First || part is Next ==> r is None,
        part is Last ==> (r is Some <==> old(c)@ is Some),
        part is Last && r is Some ==> r->Some_0@ == old(c)@->Some_0 + data@,
        part is Single || part is Last ==> final(c)@ is None,
        part is First ==> final(c)@ == Some(data@),
        part is Next && old(c)@ is None ==> final(c)@ is None,
        part is Next && old(c)@ is Some ==> final(c)@ == Some(old(c)@->Some_0 + data@),
{
}

/// A pointer is found under the number that it was stored under last.
pub proof fn law_pointer_cache(
    cache: &mut PointerCache,
    id: u16,
    pointer: Arc<DecodedPointer>,
    other: u16,
    after: &PointerCache,
    r: Option<Arc<DecodedPointer>>,
)
    requires
        call_ensures(PointerCache::insert, (cache, id, pointer), ()),
        after@ == final(cache)@,
        call_ensures(PointerCache::get, (after, other), r),
    ensures
        other == id ==> r == Some(pointer),
        other != id ==> (r is Some <==> old(cache)@.contains_key(other)),
        other != id && r is Some ==> r->Some_0 == old(cache)@[other],
{
}

/// A bitmap is found under the numbers that it was stored under last.
pub proof fn law_bitmap_cache(
    cache: &mut BitmapCache,
    id: u8,
    index: u16,
    width: u16,
    height: u16,
    data: bytes::Bytes,
    stored: SessionResult<()>,
    after: &BitmapCache,
    found: SessionResult<&CachedBitmap>,
)
    requires
        caches_wf(old(cache)@),
        call_ensures(BitmapCache::store, (cache, id, index, width, height, data), stored),
        after@ == final(cache)@,
        call_ensures(BitmapCache::get, (after, id, index), found),
    ensures
        stored is Ok <==> (id == 0 && index < 200) || (id == 1 && index < 600) || (id == 2 && index < 2048),
        stored is Ok ==> found is Ok && (found->Ok_0)@.width == width && (found->Ok_0)@.height == height && (
        found->Ok_0)@.data == contents(data),
        stored is Err ==> found is Err && final(cache)@ == old(cache)@,
{
    let caches = old(cache)@;
    if id < 3 {
        assert(caches[id as int].len() == crate::bitmap_cache::cache_size(id as int));
    }
}

/// A colour of the palette is the one of the last update that had one for it.
pub proof fn law_palette_get(
    palette: &mut ColorPalette,
    update: &PaletteUpdate,
    after: &ColorPalette,
    index: u8,
    r: [u8; 3],
)
    requires
        old(palette)@.len() == 256,
        call_ensures(ColorPalette::update, (palette, update), ()),
        after@ == final(palette)@,
        call_ensures(ColorPalette::get, (after, index), r),
    ensures
        ({
            let entry = if index < update@.len() {
                update@[index as int]
            } else {
                old(palette)@[index as int]
            };
            r@ =~= seq![entry.red, entry.green, entry.blue]
        }),
{
}

/// A file that could be opened is open under its number and path, and the answer says so; one that could
/// not be opened is answered as a failure, and no file changes.
pub proof fn law_create_done(
    backend: &mut WinRdpdrBackend,
    request: DeviceIoRequest,
    disposition: CreateDisposition,
    file_id: u32,
    path: String,
    opened: bool,
    r: DriveReply,
    other: u32,
)
    requires
        old(backend)@.wf(),
        file_id < old(backend)@.next,
        call_ensures(WinRdpdrBackend::create_done, (backend, request, disposition, file_id, path, opened), r),
    ensures
        r is Create,
        r->Create_file_id == file_id,
        opened ==> is_answer(r, request, NtStatus::Success) && final(backend)@.paths.contains_key(file_id)
            && final(backend)@.paths[file_id] == path@,
        opened && other != file_id ==> (final(backend)@.paths.contains_key(other)
            <==> old(backend)@.paths.contains_key(other)),
        opened && disposition is OpenIf ==> r->Create_information is Opened,
        opened && disposition is OverwriteIf ==> r->Create_information is Overwritten,
        opened && (disposition is Create || disposition is Open || disposition is Supersede || disposition
            is Overwrite) ==> r->Create_information is Superseded,
        !opened ==> is_answer(r, request, NtStatus::Unsuccessful) && final(backend)@ == old(backend)@
            && r->Create_information is Nothing,
{
}

/// A directory that is being listed is remembered as such, and nothing else changes.
pub proof fn law_listing_started(backend: &mut WinRdpdrBackend, request: DeviceIoRequest, other: u32)
    requires
        old(backend)@.wf(),
        old(backend)@.paths.contains_key(request.file_id),
        call_ensures(WinRdpdrBackend::listing_started, (backend, request), ()),
    ensures
        final(backend)@.listings.contains(request.file_id),
        other != request.file_id ==> (final(backend)@.listings.contains(other)
            <==> old(backend)@.listings.contains(other)),
        final(backend)@.paths == old(backend)@.paths,
        final(backend)@.next == old(backend)@.next,
        final(backend)@.base == old(backend)@.base,
{
}

/// A new backend has its directory and no open files.
pub proof fn law_new_backend(base: String, r: WinRdpdrBackend, id: u32)
    requires
        call_ensures(WinRdpdrBackend::new, (base,), r),
    ensures
        r@.base == base@,
        !r@.paths.contains_key(id),
        !r@.listings.contains(id),
        r@.next == 0,
{
}

/// Colours of 16 and 15 bits become the nearest colours of 24 bits.
pub proof fn law_short_colors(color: u16, a: [u8; 3], b: [u8; 3])
    requires
        call_ensures(rdp_16bit_to_rgb, (color,), a),
        call_ensures(rdp_15bit_to_rgb, (color,), b),
    ensures
        a@[0] == nearest(color as int / 2048, 31),
        a@[1] == nearest(color as int / 32 % 64, 63),
        a@[2] == nearest(color as int % 32, 31),
        b@[0] == nearest(color as int / 1024 % 32, 31),
        b@[1] == nearest(color as int / 32 % 32, 31),
        b@[2] == nearest(color as int % 32, 31),
{
    crate::bitmap_laws::law_rgb565(color);
    crate::bitmap_laws::law_rgb555(color);
}

/// The opaque pixel of a colour, and the rectangle of a position and a size.
pub proof fn law_pixels_and_rectangles(
    color: u32,
    pixel: [u8; 4],
    x: i16,
    y: i16,
    width: i16,
    height: i16,
    rect: InclusiveRectangle,
)
    requires
        call_ensures(rgb_from_u32, (color,), pixel),
        call_ensures(make_inclusive_rect, (x, y, width, height), rect),
    ensures
        pixel@ =~= opaque_pixel(color),
        rect.left == from_edge(x as int),
        rect.top == from_edge(y as int),
        rect.right == from_edge(x + width - 1),
        rect.bottom == from_edge(y + height - 1),
{
}

/// Asking a cursor for bytes fails exactly if fewer are left, and then tells both numbers; taking bytes
/// gives those at the front, and leaves those behind them.
pub proof fn law_cursor_bytes(
    cursor: &mut ReadCursor<'_>,
    looked: &ReadCursor<'_>,
    expected: usize,
    checked: DecodeResult<()>,
    front: Seq<u8>,
    tail: Seq<u8>,
    r: &[u8],
)
    requires
        old(cursor)@ == front + tail,
        looked@ == old(cursor)@,
        call_ensures(ReadCursor::ensure_size, (looked, expected), checked),
        call_ensures(ReadCursor::read_slice, (cursor, front.len() as usize), r),
        front.len() <= usize::MAX,
        (front + tail).len() <= usize::MAX,
    ensures
        checked is Ok <==> expected <= front.len() + tail.len(),
        checked matches Err(e) ==> e == (DecodeError::NotEnoughBytes {
            received: (front.len() + tail.len()) as usize,
            expected,
        }),
        r@ == front,
        final(cursor)@ == tail,
{
    assert((front + tail).take(front.len() as int) =~= front);
    assert((front + tail).skip(front.len() as int) =~= tail);
}

/// A packet header is written behind what was written before, unless the packet is longer than 65535
/// bytes. Of a length in two bytes the highest bit is always set.
pub proof fn law_encode_header(h: &FastPathHeader, dst: &mut Vec<u8>, r: EncodeResult<()>)
    requires
        h.flags.0 < 4,
        call_ensures(FastPathHeader::encode, (h, dst), r),
    ensures
        ({
            let short = h.data_length + 2 <= 127 && !h.forced_long_length;
            let length = if short {
                h.data_length + 2
            } else {
                h.data_length + 3
            };
            &&& r is Ok <==> length <= 65535
            &&& r is Err ==> final(dst)@ == old(dst)@
            &&& r is Ok && short ==> final(dst)@ =~= old(dst)@ + seq![(h.flags.0 * 64) as u8, length as u8]
            &&& r is Ok && !short ==> final(dst)@ =~= old(dst)@ + seq![
                (h.flags.0 * 64) as u8,
                (128 + length / 256 % 128) as u8,
                (length % 256) as u8,
            ]
        }),
{
    let a = h.encoded();
    assert(h.byte_count() == 2 || h.byte_count() == 3);
}

/// A part of an update is written behind what was written before, unless its data are longer than 65535
/// bytes, and its size is that of what is written.
pub proof fn law_encode_pdu(pdu: &FastPathUpdatePdu<'_>, dst: &mut Vec<u8>, r: EncodeResult<()>, size: usize)
    requires
        pdu.compression_flags is Some == pdu.compression_type is Some,
        pdu.data@.len() <= 0xFFFF_FFFF,
        call_ensures(FastPathUpdatePdu::encode, (pdu, dst), r),
        call_ensures(FastPathUpdatePdu::size, (pdu,), size),
    ensures
        r is Ok <==> pdu.data@.len() <= 65535,
        r is Err ==> final(dst)@ == old(dst)@,
        r is Ok ==> final(dst)@ == old(dst)@ + pdu_bytes(pdu@, Seq::empty()),
        r is Ok ==> size == pdu_bytes(pdu@, Seq::empty()).len(),
{
    if pdu.data@.len() <= 65535 {
        law_pdu_is_written(pdu@);
    }
}

/// The processor takes note of the mouse and of the colours, and of nothing else.
pub proof fn law_processor_notes(p: &mut Processor, x: u16, y: u16, q: &mut Processor, update: &PaletteUpdate, k: int)
    requires
        call_ensures(Processor::update_mouse_pos, (p, x, y), ()),
        call_ensures(Processor::update_palette, (q, update), ()),
        0 <= k < old(q)@.palette@.len(),
    ensures
        final(p)@ == (ProcessorView { mouse: Some((x, y)), ..old(p)@ }),
        final(q)@ == (ProcessorView { palette: final(q)@.palette, ..old(q)@ }),
        k < update@.len() ==> final(q)@.palette@[k] == update@[k],
        k >= update@.len() ==> final(q)@.palette@[k] == old(q)@.palette@[k],
{
}

/// A new processor has the settings that were asked for, grey colours, empty caches, and nothing pending.
pub proof fn law_new_processor(b: ProcessorBuilder, r: Processor, index: u8)
    requires
        call_ensures(ProcessorBuilder::build, (b,), r),
    ensures
        r@.fragments is None,
        r@.mouse is None,
        r@.bulk == b.bulk_compression,
        r@.pointers.enabled == b.enable_server_pointer,
        r@.pointers.software == b.pointer_software_rendering,
        r@.pointers.system,
        !r@.pointers.cached.contains_key(index as u16),
        r@.markers.user_channel_id == b.user_channel_id,
        r@.markers.io_channel_id == b.io_channel_id,
        r@.markers.share_id == b.share_id,
        r@.palette@[index as int].red == index,
        r@.palette@[index as int].green == index,
        r@.palette@[index as int].blue == index,
        caches_wf(r@.caches),
        r@.orders == OrderStateView::initial(),
{
}

/// A packet moves the drawn pointer to where the mouse was moved, and its updates follow behind its header.
pub proof fn law_begin_packet(
    p: &mut Processor,
    image: &mut DecodedImage,
    input: &mut ReadCursor<'_>,
    r: SessionResult<Vec<UpdateKind>>,
    flags: u8,
    length: int,
    long_form: bool,
    tail: Seq<u8>,
)
    requires
        flags < 4,
        !long_form ==> 2 <= length <= 127,
        long_form ==> 3 <= length <= 0x7FFF,
        old(input)@ == packet_header(flags, length, long_form) + tail,
        call_ensures(Processor::begin_packet, (p, image, input), r),
    ensures
        r is Ok,
        final(input)@ == tail,
        final(p)@.mouse is None,
        old(p)@.mouse is None ==> final(image)@ == old(image)@ && (r->Ok_0)@.len() == 0,
        old(p)@.mouse matches Some(at) ==> final(image)@ == old(image)@.pointer_moved(at.0, at.1).0,
{
    law_packet_header_is_read_back(flags, length, long_form, tail);
}

/// Bitmaps on the slow path are drawn; other updates that can be read ask for nothing, and an update that
/// cannot be read is an error. The processor stays as it is.
pub proof fn law_slow_path_bitmap(
    p: &mut Processor,
    image: &mut DecodedImage,
    data: &[u8],
    inflated: &[Option<Inflated>],
    r: SessionResult<Vec<UpdateKind>>,
)
    requires
        call_ensures(Processor::process_slow_path_bitmap, (p, image, data, inflated), r),
    ensures
        final(p)@ == old(p)@,
        update_at(data@).result is Err ==> r is Err && final(image)@ == old(image)@,
        update_at(data@).result matches Ok(UpdateView::Bitmap(list)) ==> r is Ok && final(image)@ == bitmaps_applied(
            old(image)@,
            list,
            inflated@,
            old(p)@.palette,
            list.len(),
        ).0,
        update_at(data@).result is Ok && !(update_at(data@).result->Ok_0 is Bitmap) ==> r is Ok && final(image)@
            == old(image)@ && (r->Ok_0)@.len() == 1 && (r->Ok_0)@[0] is Nothing,
{
}

/// The share of a session can change, and nothing changes with it; a new session has what it was given.
pub proof fn law_session_ids(
    p: &mut crate::x224::Processor,
    share_id: u32,
    channels: Vec<u16>,
    user: u16,
    io: u16,
    message: Option<u16>,
    r: crate::x224::Processor,
)
    requires
        call_ensures(crate::x224::Processor::set_share_id, (p, share_id), ()),
        call_ensures(crate::x224::Processor::new, (channels, user, io, message, share_id), r),
    ensures
        final(p).share_id == share_id,
        final(p).user_channel_id == old(p).user_channel_id,
        final(p).io_channel_id == old(p).io_channel_id,
        final(p).message_channel_id == old(p).message_channel_id,
        final(p).static_channels == old(p).static_channels,
        r.static_channels == channels,
        r.user_channel_id == user,
        r.io_channel_id == io,
        r.message_channel_id == message,
        r.share_id == share_id,
{
}

/// A frame marker processor has what it was given, and pointer bitmaps are decoded with the colours of the
/// palette.
pub proof fn law_markers_and_pointer_palette(
    user: u16,
    io: u16,
    share: u32,
    markers: FrameMarkerProcessor,
    palette: &ColorPalette,
    colors: [[u8; 3]; 256],
    i: int,
)
    requires
        call_ensures(FrameMarkerProcessor::new, (user, io, share), markers),
        call_ensures(ColorPalette::to_pointer_palette, (palette,), colors),
        0 <= i < 256,
    ensures
        markers.user_channel_id == user,
        markers.io_channel_id == io,
        markers.share_id == share,
        colors@[i]@ =~= seq![palette@[i].red, palette@[i].green, palette@[i].blue],
{
    let c = colors@[i];
}

/// The next part of an update is read back, and told how to decompress; what it completes is put together
/// with what came before.
pub proof fn law_next_part(
    p: &Processor,
    input: &mut ReadCursor<'_>,
    r: SessionResult<(FastPathUpdatePdu<'_>, Option<u32>)>,
    pdu: UpdatePduView,
    tail: Seq<u8>,
)
    requires
        pdu.compression_flags is Some == pdu.compression_type is Some,
        pdu.compression_flags matches Some(flags) ==> flags.0 % 32 == 0,
        pdu.data.len() <= 0xFFFF,
        old(input)@ == pdu_bytes(pdu, tail),
        call_ensures(Processor::next_part, (p, input), r),
    ensures
        r is Ok,
        (r->Ok_0).0@ == pdu,
        (r->Ok_0).1 is Some <==> p@.bulk && pdu.compression_flags is Some && (pdu.compression_flags->Some_0.0 / 32 % 2
            == 1 || pdu.compression_flags->Some_0.0 / 128 == 1),
        final(input)@ == tail,
{
    law_pdu_is_read_back(pdu, tail);
    crate::processor_laws::law_bulk_flags(p@.bulk, pdu);
}

/// The parts of an update are put together in the processor, which changes in nothing else.
pub proof fn law_complete_update(p: &mut Processor, payload: &[u8], part: Fragmentation, r: Option<Vec<u8>>)
    requires
        call_ensures(Processor::complete_update, (p, payload, part), r),
    ensures
        final(p)@ == (ProcessorView { fragments: final(p)@.fragments, ..old(p)@ }),
        part is Single ==> r is Some && r->Some_0@ == payload@,
        part is First || part is Next ==> r is None,
        part is First ==> final(p)@.fragments == Some(payload@),
        part is Last && old(p)@.fragments is Some ==> r is Some && r->Some_0@ == old(p)@.fragments->Some_0 + payload@,
        part is Last && old(p)@.fragments is None ==> r is None,
        part is Next && old(p)@.fragments is Some ==> final(p)@.fragments == Some(
            old(p)@.fragments->Some_0 + payload@,
        ),
{
}

/// An update that is not accepted changes nothing and is not acknowledged, and one that changes nothing by
/// its kind is accepted.
pub proof fn law_process_if_accepted(
    p: &mut Processor,
    image: &mut DecodedImage,
    update: CompleteUpdate<'_>,
    output: &mut Vec<FrameAcknowledge>,
    r: Option<SessionResult<Vec<UpdateKind>>>,
)
    requires
        call_ensures(Processor::process_if_accepted, (p, image, update, output), r),
    ensures
        r is None ==> final(p)@ == old(p)@ && final(image)@ == old(image)@ && final(output)@ == old(output)@,
        update is Palette || update is Synchronize || update is Invalid ==> r is Some && final(image)@ == old(
            image,
        )@,
        update is Synchronize ==> final(p)@ == old(p)@ && final(output)@ =~= old(output)@,
{
    if r is Some {
        let acknowledged = choose|acknowledged: Seq<FrameAcknowledge>|
            {
                &&& final(output)@ == old(output)@ + acknowledged
                &&& #[trigger] old(p)@.processes(
                    old(image)@,
                    update,
                    final(p)@,
                    final(image)@,
                    updates_of(r->Some_0),
                    acknowledged,
                )
            };
        assert(old(p)@.processes(old(image)@, update, final(p)@, final(image)@, updates_of(r->Some_0), acknowledged));
    }
}

} // verus!
