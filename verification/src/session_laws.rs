//! What holds of the messages of a session, its caches and its colours.

use vstd::prelude::*;
use yuv::YuvError;

use crate::bitmap_cache::{caches_wf, entry_check, no_bitmaps, CacheView, CachedView};
use crate::bitmap_caching::{
    bytes_of_depth, cache_bitmap_at, cache_order_ends_well, cached, decompressed, rgba_bitmap,
    CacheBitmapView,
};
use crate::color_conversion::{
    color_point, converted, point_color, to_64x64_ycbcr_tile, ycbcr_to_argb, ycbcr_to_rgba, ConversionError,
    PixelArea, YCbCr, YCbCrBuffer,
};
use crate::complete_data::assembled;
use crate::error::{SessionError, SessionResult};
use crate::fast_path_pdu::Fragmentation;
use crate::frame_marker::{FrameMarkerPdu, FrameMarkerProcessor};
use crate::palette::{grayscale, rgb_of, PaletteEntry};
use crate::pixel_format::{PixelFormat, Rgba};
use crate::pixel_laws::{color_bytes, law_color_is_read_back, tells_opacity};
use crate::update_wire::{
    bitmap_writes, bitmaps_bytes, colors_bytes, law_slow_bitmaps_are_read_back, law_slow_orders_are_read_back,
    law_slow_palette_is_read_back, law_slow_types,
};
use crate::wire::{law_u16_is_read_back, long, stands_at, word};
use crate::x224::{
    io_outputs, output_views, share_data_outputs, update_outputs, AutoDetectRequest, DisconnectDescription,
    DisconnectReason, IoChannelPdu, McsMessage, OutputView, Processor, ProcessorOutput, ResponseFrame, Route,
    ShareDataPdu,
};

verus! {

/// The end of a frame is acknowledged, on the channels of the session and with the number of the frame, or
/// 0 for a frame without one; its begin is not.
pub proof fn law_frames_are_acknowledged(p: FrameMarkerProcessor, marker: FrameMarkerPdu)
    ensures
        p.answer(marker) is Some <==> marker.frame_action is End,
        p.answer(marker) matches Some(a) ==> {
            &&& a.user_channel_id == p.user_channel_id
            &&& a.io_channel_id == p.io_channel_id
            &&& a.share_id == p.share_id
            &&& marker.frame_id is Some ==> a.frame_id == marker.frame_id->Some_0
            &&& marker.frame_id is None ==> a.frame_id == 0
        },
{
}

/// An update that comes whole is complete at once, whatever was pending; a first part starts anew; and a
/// part that nothing came before is dropped.
pub proof fn law_parts_in_any_order(pending: Option<Seq<u8>>, data: Seq<u8>)
    ensures
        assembled(pending, data, Fragmentation::Single) == (None::<Seq<u8>>, Some(data)),
        assembled(pending, data, Fragmentation::First) == (Some(data), None::<Seq<u8>>),
        assembled(None, data, Fragmentation::Next) == (None::<Seq<u8>>, None::<Seq<u8>>),
        assembled(None, data, Fragmentation::Last) == (None::<Seq<u8>>, None::<Seq<u8>>),
        pending matches Some(earlier) ==> assembled(pending, data, Fragmentation::Next) == (
            Some(earlier + data),
            None::<Seq<u8>>,
        ),
        pending matches Some(earlier) ==> assembled(pending, data, Fragmentation::Last) == (
            None::<Seq<u8>>,
            Some(earlier + data),
        ),
{
}

/// At first a colour of the palette is grey, as bright as its number, and a colour is given out as red,
/// green, blue.
pub proof fn law_palette_starts_grey(index: u8, entry: PaletteEntry)
    ensures
        grayscale().len() == 256,
        grayscale()[index as int].red == index,
        grayscale()[index as int].green == index,
        grayscale()[index as int].blue == index,
        rgb_of(entry) == seq![entry.red, entry.green, entry.blue],
{
}

/// The three caches have 200, 600 and 2048 entries, all of them empty at first, and an entry exists exactly
/// if its numbers are below these.
pub proof fn law_cache_entries(caches: CacheView, cache_id: u8, cache_index: u16)
    requires
        caches_wf(caches),
    ensures
        entry_check(caches, cache_id, cache_index) is Ok <==> (cache_id == 0 && cache_index < 200) || (cache_id == 1
            && cache_index < 600) || (cache_id == 2 && cache_index < 2048),
        cache_id >= 3 ==> entry_check(caches, cache_id, cache_index) == Err::<(), SessionError>(
            SessionError::InvalidCacheId(cache_id),
        ),
        cache_id < 3 && entry_check(caches, cache_id, cache_index) is Err ==> entry_check(
            caches,
            cache_id,
            cache_index,
        ) == Err::<(), SessionError>(SessionError::InvalidCacheIndex(cache_index)),
        caches_wf(no_bitmaps()),
        entry_check(caches, cache_id, cache_index) is Ok ==> no_bitmaps()[cache_id as int][cache_index as int]
            is None,
{
    if cache_id < 3 {
        assert(caches[cache_id as int].len() == crate::bitmap_cache::cache_size(cache_id as int));
    }
}

/// The four bytes of pixel `i` of a cached bitmap: red, green, blue and opacity. Colours of 15 and 16 bits
/// repeat their highest bits below their lowest.
pub open spec fn cached_pixel(src: Seq<u8>, i: int, bpp: u16, palette: Seq<PaletteEntry>) -> Seq<u8> {
    if bpp == 8 {
        seq![palette[src[i] as int].red, palette[src[i] as int].green, palette[src[i] as int].blue, 255u8]
    } else if bpp == 15 {
        let v = src[2 * i] + 256 * src[2 * i + 1];
        let (r, g, b) = (v / 1024 % 32, v / 32 % 32, v % 32);
        seq![(r * 33 / 4) as u8, (g * 33 / 4) as u8, (b * 33 / 4) as u8, 255u8]
    } else if bpp == 16 {
        let v = src[2 * i] + 256 * src[2 * i + 1];
        let (r, g, b) = (v / 2048, v / 32 % 64, v % 32);
        seq![(r * 33 / 4) as u8, (g * 65 / 16) as u8, (b * 33 / 4) as u8, 255u8]
    } else if bpp == 24 {
        seq![src[3 * i + 2], src[3 * i + 1], src[3 * i], 255u8]
    } else {
        seq![src[4 * i + 2], src[4 * i + 1], src[4 * i], src[4 * i + 3]]
    }
}

/// A cached bitmap has four bytes for each of its pixels, in their order; only 8, 15, 16, 24 and 32 bits
/// per pixel are known.
#[verifier::spinoff_prover]
#[verifier::rlimit(60)]
pub proof fn law_cached_bitmap_by_pixel(
    src: Seq<u8>,
    width: u16,
    height: u16,
    bpp: u16,
    palette: Seq<PaletteEntry>,
    i: int,
    c: int,
)
    requires
        0 <= i < width * height,
        0 <= c < 4,
    ensures
        rgba_bitmap(src, width, height, bpp, palette) is Ok <==> bpp == 8 || bpp == 15 || bpp == 16 || bpp == 24
            || bpp == 32,
        rgba_bitmap(src, width, height, bpp, palette) is Err ==> rgba_bitmap(src, width, height, bpp, palette)
            == Err::<Seq<u8>, SessionError>(SessionError::UnsupportedBpp(bpp)),
        rgba_bitmap(src, width, height, bpp, palette) matches Ok(pixels) ==> pixels.len() == width * height * 4
            && pixels[4 * i + c] == cached_pixel(src, i, bpp, palette)[c],
{
    let k = 4 * i + c;
    assert(k / 4 == i && k % 4 == c);
    assert(0 <= k < width * height * 4);
    if bpp == 15 || bpp == 16 {
        assert(i * 2 == 2 * i);
        let v = src[2 * i] + 256 * src[2 * i + 1];
        assert(crate::cursor::u16_at(src, i * 2) == v);
    }
}

/// The number of bytes per pixel of each depth.
pub proof fn law_bytes_of_depth(bpp: u16)
    ensures
        bpp == 8 ==> bytes_of_depth(bpp) == Some(1int),
        bpp == 15 || bpp == 16 ==> bytes_of_depth(bpp) == Some(2int),
        bpp == 24 ==> bytes_of_depth(bpp) == Some(3int),
        bpp == 32 ==> bytes_of_depth(bpp) == Some(4int),
        bytes_of_depth(bpp) is Some <==> bpp == 8 || bpp == 15 || bpp == 16 || bpp == 24 || bpp == 32,
{
}

/// The data of a bitmap are run-length encoded unless the flag for data without compression is set; then
/// what they stand for is converted, and otherwise the data themselves are.
pub proof fn law_decompressed(
    data: Seq<u8>,
    inflated: Option<Seq<u8>>,
    width: u16,
    height: u16,
    bpp: u16,
    flags: u16,
    palette: Seq<PaletteEntry>,
)
    ensures
        ({
            let r = decompressed(data, inflated, width, height, bpp, flags, palette);
            &&& flags & 0x0400 != 0 ==> r == rgba_bitmap(data, width, height, bpp, palette)
            &&& flags & 0x0400 == 0 && inflated is None ==> r == Err::<Seq<u8>, SessionError>(SessionError::Rle)
            &&& flags & 0x0400 == 0 && inflated is Some ==> r == rgba_bitmap(
                inflated->Some_0,
                width,
                height,
                bpp,
                palette,
            )
        }),
{
    assert((flags & 0x0400 == 0) == (flags / 0x400 % 2 == 0)) by (bit_vector);
}

/// The bytes of an order to cache a bitmap: cache and whether keys follow, entry, keys, width, height, bits
/// per pixel, flags, length of the data, data.
pub open spec fn cache_order_bytes(o: CacheBitmapView, keyed: bool, high: u8, keys: Seq<u8>) -> Seq<u8> {
    seq![
        (high * 8 + (if keyed {
            4int
        } else {
            0
        }) + o.cache_id) as u8,
    ] + word(o.cache_index as int) + keys + word(o.width as int) + word(o.height as int) + word(o.bpp as int) + word(
        o.flags as int,
    ) + word(o.data.len() as int) + o.data
}

/// An order to cache a bitmap is read back, with keys or without.
#[verifier::spinoff_prover]
#[verifier::rlimit(60)]
pub proof fn law_cache_order_is_read_back(o: CacheBitmapView, keyed: bool, high: u8, keys: Seq<u8>, tail: Seq<u8>)
    requires
        o.cache_id < 4,
        high < 32,
        o.data.len() <= 0xFFFF,
        keyed ==> keys.len() == 8,
        !keyed ==> keys.len() == 0,
    ensures
        cache_bitmap_at(cache_order_bytes(o, keyed, high, keys) + tail) == Ok::<CacheBitmapView, SessionError>(o),
        cache_order_ends_well(cache_order_bytes(o, keyed, high, keys) + tail),
{
    let bytes = cache_order_bytes(o, keyed, high, keys) + tail;
    let first = high * 8 + (if keyed {
        4int
    } else {
        0
    }) + o.cache_id;
    assert(bytes[0] == first as u8);
    assert(first % 4 == o.cache_id);
    assert(first / 4 % 2 == 1 <==> keyed);
    assert(stands_at(bytes, 1, word(o.cache_index as int)));
    law_u16_is_read_back(o.cache_index, bytes, 1);
    let at = 3 + keys.len();
    assert(crate::bitmap_caching::bitmap_offset(bytes) == at);
    let body = bytes.skip(at as int);
    assert(stands_at(body, 0, word(o.width as int)));
    assert(stands_at(body, 2, word(o.height as int)));
    assert(stands_at(body, 4, word(o.bpp as int)));
    assert(stands_at(body, 6, word(o.flags as int)));
    assert(stands_at(body, 8, word(o.data.len() as int)));
    law_u16_is_read_back(o.width, body, 0);
    law_u16_is_read_back(o.height, body, 2);
    law_u16_is_read_back(o.bpp, body, 4);
    law_u16_is_read_back(o.flags, body, 6);
    law_u16_is_read_back(o.data.len() as u16, body, 8);
    assert(body.subrange(10, 10 + o.data.len() as int) =~= o.data);
}

/// An order to cache a bitmap puts the converted bitmap under its numbers and leaves every other entry; one
/// that fails changes nothing.
pub proof fn law_cache_order_stores(
    caches: CacheView,
    palette: Seq<PaletteEntry>,
    bytes: Seq<u8>,
    inflated: Option<Seq<u8>>,
    o: CacheBitmapView,
    pixels: Seq<u8>,
    id: int,
    index: int,
)
    requires
        caches_wf(caches),
        cache_bitmap_at(bytes) == Ok::<CacheBitmapView, SessionError>(o),
        decompressed(o.data, inflated, o.width, o.height, o.bpp, o.flags, palette) == Ok::<Seq<u8>, SessionError>(
            pixels,
        ),
        o.cache_id < 3,
        o.cache_index < caches[o.cache_id as int].len(),
        0 <= id < 3,
        0 <= index < caches[id].len(),
    ensures
        ({
            let (after, r) = cached(caches, palette, bytes, inflated);
            &&& r is Ok
            &&& caches_wf(after)
            &&& after[id][index] == (if id == o.cache_id && index == o.cache_index {
                Some(CachedView { width: o.width, height: o.height, data: pixels })
            } else {
                caches[id][index]
            })
        }),
{
}

/// A failing order to cache a bitmap changes nothing.
pub proof fn law_failed_cache_order(
    caches: CacheView,
    palette: Seq<PaletteEntry>,
    bytes: Seq<u8>,
    inflated: Option<Seq<u8>>,
)
    ensures
        cached(caches, palette, bytes, inflated).1 is Err ==> cached(caches, palette, bytes, inflated).0 == caches,
        bytes.len() < 3 ==> cached(caches, palette, bytes, inflated).1 is Err,
        cache_bitmap_at(bytes) matches Ok(o) ==> {
            entry_check(caches, o.cache_id, o.cache_index) is Err ==> cached(caches, palette, bytes, inflated).1
                is Err
        },
{
}

/// Whether `shown` is the intensity of `scaled`, given in parts of 2 to the 21st: the largest that does not
/// exceed it, but at least 0 and at most 255.
pub open spec fn is_intensity(scaled: int, shown: u8) -> bool {
    &&& shown * 2097152 <= scaled || shown == 0
    &&& scaled < (shown + 1) * 2097152 || shown == 255
}

/// Red, green and blue of a point of brightness and colour differences: red grows with one difference, blue
/// with the other, and green falls with both. Every point is opaque.
pub proof fn law_point_color(point: YCbCr)
    ensures
        ({
            let c = point_color(point);
            let y = 65536 * point.y + 268435456;
            &&& is_intensity(y + 91915 * point.cr, c.r)
            &&& is_intensity(y - 22526 * point.cb - 46818 * point.cr, c.g)
            &&& is_intensity(y + 115992 * point.cb, c.b)
            &&& c.a == 255
        }),
{
}

/// Points become pixels in their order, each in four bytes; bytes behind the last pixel stay. That needs
/// room for a pixel, and a point for each pixel that there is room for.
pub proof fn law_points_become_pixels(
    points: Seq<YCbCr>,
    before: Seq<u8>,
    after: Seq<u8>,
    format: PixelFormat,
    r: Result<(), ConversionError>,
    k: int,
    c: int,
)
    requires
        converted(points, before, after, format, r),
        before.len() <= u32::MAX,
        0 <= k,
        0 <= c < 4,
        4 * k + c < before.len(),
    ensures
        r is Ok <==> before.len() >= 4 && before.len() / 4 <= points.len(),
        r is Err ==> after == before,
        r is Ok && k < before.len() / 4 ==> {
            let p = point_color(points[k]);
            after[4 * k + c] == color_bytes(format, p.r, p.g, p.b, 255)[c]
        },
        r is Ok && k >= before.len() / 4 ==> after[4 * k + c] == before[4 * k + c],
        after.len() == before.len(),
{
    let at = 4 * k + c;
    assert(at / 4 == k && at % 4 == c);
    crate::pixel_laws::law_color_is_written(format, point_color(points[k]), c);
}

/// The two conversions of points to pixels put opacity first or last.
pub proof fn law_conversions_of_points(
    input: YCbCrBuffer<'_>,
    argb: &mut [u8],
    rgba: &mut [u8],
    a: Result<(), ConversionError>,
    b: Result<(), ConversionError>,
    k: int,
)
    requires
        call_ensures(ycbcr_to_argb, (input, argb), a),
        call_ensures(ycbcr_to_rgba, (input, rgba), b),
        old(argb)@.len() == old(rgba)@.len(),
        old(argb)@.len() <= u32::MAX,
        0 <= k < old(argb)@.len() / 4,
        old(argb)@.len() / 4 <= input@.len(),
    ensures
        a is Ok && b is Ok,
        ({
            let p = point_color(input@[k]);
            &&& final(argb)@[4 * k] == 255 && final(argb)@[4 * k + 1] == p.r && final(argb)@[4 * k + 2] == p.g
                && final(argb)@[4 * k + 3] == p.b
            &&& final(rgba)@[4 * k] == p.r && final(rgba)@[4 * k + 1] == p.g && final(rgba)@[4 * k + 2] == p.b
                && final(rgba)@[4 * k + 3] == 255
        }),
{
    let (m, n) = (old(argb)@, old(rgba)@);
    let (f, g) = (final(argb)@, final(rgba)@);
    law_points_become_pixels(input@, m, f, PixelFormat::ARgb32, a, k, 0);
    law_points_become_pixels(input@, m, f, PixelFormat::ARgb32, a, k, 1);
    law_points_become_pixels(input@, m, f, PixelFormat::ARgb32, a, k, 2);
    law_points_become_pixels(input@, m, f, PixelFormat::ARgb32, a, k, 3);
    law_points_become_pixels(input@, n, g, PixelFormat::RgbA32, b, k, 0);
    law_points_become_pixels(input@, n, g, PixelFormat::RgbA32, b, k, 1);
    law_points_become_pixels(input@, n, g, PixelFormat::RgbA32, b, k, 2);
    law_points_become_pixels(input@, n, g, PixelFormat::RgbA32, b, k, 3);
}

/// Whether `part` is the whole part of `scaled`, given in parts of 1024.
pub open spec fn is_whole_part(scaled: int, part: int) -> bool {
    part * 1024 <= scaled < (part + 1) * 1024
}

/// Brightness and colour differences of a colour.
pub proof fn law_color_point(color: Rgba)
    ensures
        ({
            let p = color_point(color);
            let (r, g, b) = (color.r as int, color.g as int, color.b as int);
            &&& is_whole_part(9797 * r + 19234 * g + 3735 * b, p.y + 4096)
            &&& is_whole_part(16403 * b - 10867 * g - 5535 * r, p.cb as int)
            &&& is_whole_part(16377 * r - 13714 * g - 2663 * b, p.cr as int)
        }),
{
}

/// A tile takes the points of an area, each from its own pixel, in any order of the channels; its other
/// points stay.
pub proof fn law_tile_takes_its_area(
    area: PixelArea,
    before: (Seq<i16>, Seq<i16>, Seq<i16>),
    y: Seq<i16>,
    cb: Seq<i16>,
    cr: Seq<i16>,
    column: int,
    row: int,
    r: u8,
    g: u8,
    b: u8,
    a: u8,
)
    requires
        area.is_in_tile(before, y, cb, cr),
        0 <= column < 64,
        0 <= row < 64,
        forall|c: int|
            0 <= c < 4 ==> area.bytes[row * area.stride + 4 * column + c] == #[trigger] color_bytes(
                area.format,
                r,
                g,
                b,
                a,
            )[c],
    ensures
        ({
            let k = 64 * row + column;
            if column < area.width && row < area.height {
                let p = color_point(
                    Rgba {
                        r,
                        g,
                        b,
                        a: if tells_opacity(area.format) {
                            a
                        } else {
                            255
                        },
                    },
                );
                y[k] == p.y && cb[k] == p.cb && cr[k] == p.cr
            } else {
                y[k] == before.0[k] && cb[k] == before.1[k] && cr[k] == before.2[k]
            }
        }),
{
    let k = 64 * row + column;
    assert(k % 64 == column && k / 64 == row);
    assert(area.stride * row == row * area.stride) by (nonlinear_arith);
    law_color_is_read_back(area.format, area.bytes, area.stride * row + 4 * column, r, g, b, a);
    assert(y[k] == y[k]);
}

/// A message goes where its channel leads, with its data, and one on a channel that nobody joined is an
/// error.
pub proof fn law_messages_are_routed(
    p: Processor,
    initiator_id: u16,
    channel_id: u16,
    user_data: &[u8],
    r: SessionResult<Route<'_>>,
)
    requires
        call_ensures(
            Processor::process,
            (&p, McsMessage::SendDataIndication { initiator_id, channel_id, user_data }),
            r,
        ),
    ensures
        channel_id == p.io_channel_id ==> (r matches Ok(Route::Io(data)) && data@ == user_data@),
        channel_id != p.io_channel_id && p.message_channel_id == Some(channel_id) ==> (r matches Ok(
            Route::Message(data),
        ) && data@ == user_data@),
        r is Err <==> channel_id != p.io_channel_id && p.message_channel_id != Some(channel_id)
            && !p.static_channels@.contains(channel_id),
        r is Ok && channel_id != p.io_channel_id && p.message_channel_id != Some(channel_id) ==> (r matches Ok(
            Route::StaticChannel { initiator_id: i, channel_id: c, user_data: data },
        ) && i == initiator_id && c == channel_id && data@ == user_data@),
{
}

/// The end of the session by the server is a disconnection for the reason that the server gives.
pub proof fn law_ultimatum_disconnects(p: Processor, reason: DisconnectReason, r: SessionResult<Route<'_>>)
    requires
        call_ensures(Processor::process, (&p, McsMessage::DisconnectProviderUltimatum(reason)), r),
    ensures
        r matches Ok(Route::Done(output)) && output@ == OutputView::Disconnect(
            DisconnectDescription::McsDisconnect(reason),
        ),
{
}

/// A measurement of the time of a round trip is answered with its own number, from the user on the message
/// channel; what the server found out is handed on; without a message channel both are errors.
pub proof fn law_round_trips_are_answered(
    p: Processor,
    request: AutoDetectRequest,
    r: SessionResult<Vec<ProcessorOutput>>,
)
    requires
        call_ensures(Processor::process_message_channel, (&p, request), r),
    ensures
        r is Err <==> p.message_channel_id is None,
        r is Ok && request is Other ==> r->Ok_0@.len() == 0,
        r is Ok && !(request is Other) ==> r->Ok_0@.len() == 1,
        r is Ok && request is RttRequest ==> (r->Ok_0@[0]@ matches OutputView::ResponseFrame(
            ResponseFrame::RttResponse { initiator_id, channel_id, sequence_number },
        ) && initiator_id == p.user_channel_id && p.message_channel_id == Some(channel_id) && sequence_number
            == request->RttRequest_sequence_number),
        r is Ok && request is NetworkCharacteristicsResult ==> r->Ok_0@[0]@ == OutputView::AutoDetect(request),
{
    if r is Ok {
        let views = output_views(r->Ok_0@);
        assert(views.len() == r->Ok_0@.len());
        if !(request is Other) {
            assert(views[0] == r->Ok_0@[0]@);
        }
    }
}

/// Messages of the application go from the user, on their channel and in the share of the session.
pub proof fn law_messages_carry_the_session(
    p: Processor,
    channel: Option<u16>,
    r: SessionResult<(u16, u16)>,
    h: crate::x224::ShareDataHeader,
)
    requires
        call_ensures(Processor::process_svc_processor_messages, (&p, channel), r),
        call_ensures(Processor::encode_static, (&p,), h),
    ensures
        r is Err <==> channel is None,
        r matches Ok(ids) ==> channel == Some(ids.0) && ids.1 == p.user_channel_id,
        h.initiator_id == p.user_channel_id,
        h.channel_id == p.io_channel_id,
        h.share_id == p.share_id,
{
}

/// An error of the server disconnects exactly if it is one; a refused shutdown disconnects at the wish of
/// the user, who tells the server first; a pointer is handed on with its bytes; and messages without a
/// meaning here are errors.
pub proof fn law_share_data(pdu: ShareDataPdu)
    ensures
        ({
            let r = share_data_outputs(pdu);
            &&& r is Err <==> pdu is Other
            &&& pdu is ServerSetErrorInfo && pdu->ServerSetErrorInfo_0.0 == 0 ==> r->Ok_0.len() == 0
            &&& pdu is ServerSetErrorInfo && pdu->ServerSetErrorInfo_0.0 != 0 ==> r->Ok_0 =~= seq![
                OutputView::Disconnect(DisconnectDescription::ErrorInfo(pdu->ServerSetErrorInfo_0)),
            ]
            &&& pdu is Pointer ==> r->Ok_0 =~= seq![OutputView::Pointer(pdu->Pointer_0@)]
            &&& pdu is SaveSessionInfo || pdu is SetKeyboardIndicators ==> r->Ok_0.len() == 0
            &&& pdu is ShutdownDenied ==> {
                &&& r->Ok_0.len() == 2
                &&& r->Ok_0[0] == OutputView::ResponseFrame(
                    ResponseFrame::DisconnectProviderUltimatum(DisconnectReason::UserRequested),
                )
                &&& r->Ok_0[1] == OutputView::Disconnect(
                    DisconnectDescription::McsDisconnect(DisconnectReason::UserRequested),
                )
            }
        }),
{
}

/// Other messages on the I/O channel are handed on as they are.
pub proof fn law_io_channel(pdu: IoChannelPdu)
    ensures
        pdu is DeactivateAll ==> io_outputs(pdu)->Ok_0 =~= seq![OutputView::DeactivateAll] && io_outputs(pdu) is Ok,
        pdu matches IoChannelPdu::MultitransportRequest(m) ==> io_outputs(pdu)->Ok_0 =~= seq![
            OutputView::MultitransportRequest(m),
        ] && io_outputs(pdu) is Ok,
        pdu matches IoChannelPdu::Data(d) ==> io_outputs(pdu) == share_data_outputs(d),
{
}

/// Orders on the slow path are handed on with their number.
pub proof fn law_slow_orders_are_handed_on(pad: u16, pad_behind: u16, count: u16, data: Seq<u8>)
    ensures
        update_outputs(word(0) + word(pad as int) + word(count as int) + word(pad_behind as int) + data) =~= seq![
            OutputView::Orders { number_orders: count, order_data: data },
        ],
{
    law_slow_orders_are_read_back(pad, pad_behind, count, data);
}

/// Bitmaps on the slow path are handed on with the whole update.
pub proof fn law_slow_bitmaps_are_handed_on(list: Seq<crate::bitmap::BitmapView>, tail: Seq<u8>)
    requires
        list.len() <= 0xFFFF,
        forall|k: int| 0 <= k < list.len() ==> bitmap_writes(#[trigger] list[k]),
    ensures
        ({
            let bytes = word(1) + word(list.len() as int) + bitmaps_bytes(list, 0, tail);
            update_outputs(bytes) =~= seq![OutputView::Bitmap(bytes)]
        }),
{
    law_slow_bitmaps_are_read_back(list, tail);
}

/// A palette on the slow path is handed on with its colours.
pub proof fn law_slow_palette_is_handed_on(pad: u16, entries: Seq<PaletteEntry>, tail: Seq<u8>)
    requires
        entries.len() <= 0xFFFF_FFFF,
    ensures
        update_outputs(
            word(2) + word(pad as int) + long(entries.len() as int) + colors_bytes(entries, 0, tail),
        ) =~= seq![OutputView::Palette(entries)],
{
    law_slow_palette_is_read_back(pad, entries, tail);
}

/// A synchronisation and an update of an unknown type ask for nothing.
pub proof fn law_slow_rest_is_ignored(code: u16, tail: Seq<u8>)
    requires
        code >= 3,
    ensures
        update_outputs(word(code as int) + tail).len() == 0,
{
    law_slow_types(code, tail);
}

/// An area can be put into a tile exactly if it has pixels, its rows do not overlap and all of them are
/// there; otherwise the tile stays as it is.
pub proof fn law_area_is_put(
    area: PixelArea,
    before: (Seq<i16>, Seq<i16>, Seq<i16>),
    y: Seq<i16>,
    cb: Seq<i16>,
    cr: Seq<i16>,
    r: Result<(), YuvError>,
)
    requires
        area.is_put(before, y, cb, cr, r),
    ensures
        r is Ok <==> area.width > 0 && area.height > 0 && area.stride >= 4 * area.width && area.bytes.len()
            >= area.stride * (area.height - 1) + 4 * area.width,
        r is Ok ==> area.is_in_tile(before, y, cb, cr),
        r is Err ==> y == before.0 && cb == before.1 && cr == before.2,
{
}

/// An area is put into a tile by the order of the channels that was asked for.
pub proof fn law_areas_of_any_format(
    input: &[u8],
    width: u32,
    height: u32,
    stride: u32,
    format: PixelFormat,
    y: &mut [i16; 4096],
    cb: &mut [i16; 4096],
    cr: &mut [i16; 4096],
    r: Result<(), YuvError>,
)
    requires
        call_ensures(to_64x64_ycbcr_tile, (input, width, height, stride, format, y, cb, cr), r),
    ensures
        (PixelArea { bytes: input@, width, height, stride, format }).is_put(
            (old(y)@, old(cb)@, old(cr)@),
            final(y)@,
            final(cb)@,
            final(cr)@,
            r,
        ),
{
}

/// The error of an order to cache a bitmap is that of its header, or else that of its bitmap, or else that
/// of its entry.
pub proof fn law_errors_of_cache_orders(
    caches: CacheView,
    palette: Seq<PaletteEntry>,
    bytes: Seq<u8>,
    inflated: Option<Seq<u8>>,
)
    ensures
        ({
            let r = cached(caches, palette, bytes, inflated).1;
            match cache_bitmap_at(bytes) {
                Err(e) => r == Err::<(), SessionError>(e),
                Ok(o) => match decompressed(o.data, inflated, o.width, o.height, o.bpp, o.flags, palette) {
                    Err(e) => r == Err::<(), SessionError>(e),
                    Ok(_) => r == entry_check(caches, o.cache_id, o.cache_index),
                },
            }
        }),
        bytes.len() < 3 ==> cache_bitmap_at(bytes) == Err::<CacheBitmapView, SessionError>(
            SessionError::CacheOrderTooShort(bytes.len() as usize),
        ),
        (bytes.len() >= 3 && bytes[0] / 4 % 2 == 0 && bytes.len() < 13) || (bytes.len() >= 11 && bytes[0] / 4 % 2 == 1
            && bytes.len() < 21) ==> cache_bitmap_at(bytes) == Err::<CacheBitmapView, SessionError>(
            SessionError::CachedBitmapTooShort,
        ),
{
}

} // verus!
