//! Surface commands of the server.

use vstd::prelude::*;

use crate::bitmap_updates::{bgrx_encoding, has_room_for_pixels, raw_fits};
use crate::error::{SessionError, SessionResult};
use crate::frame_marker::{FrameAcknowledge, FrameMarkerPdu, FrameMarkerProcessor};
use crate::geometry::InclusiveRectangle;
use crate::image::{joined, DecodedImage, ImageView};
use crate::palette::ColorPalette;
use crate::pixel_format::PixelFormat;
use crate::raster::Encoding;
use crate::zstd_stream::{begins_with, inflate, inflated, seen, stream_step, StreamCall};

verus! {

/// `qoi::Error`: why a QOI image could not be decoded.
#[verifier::external_type_specification]
#[verifier::external_body]
pub struct ExQoiError(qoi::Error);

/// What `qoi::decode_to_vec` makes of some bytes: the number of channels and the pixels, or nothing if
/// it fails.
pub uninterp spec fn qoi_image(data: Seq<u8>) -> Option<(u8, Seq<u8>)>;

/// `qoi::decode_to_vec`, whose result is a function of the bytes. An image has three channels (RGB) or
/// four (RGBA).
#[verifier::external_body]
fn decode_qoi(data: &[u8]) -> (r: Result<(u8, Vec<u8>), qoi::Error>)
    ensures
        match r {
            Ok((channels, pixels)) => {
                &&& qoi_image(data@) == Some((channels, pixels@))
                &&& channels == 3 || channels == 4
            },
            Err(_) => qoi_image(data@) is None,
        },
{
    match qoi::decode_to_vec(data) {
        Ok((header, pixels)) => Ok((header.channels.as_u8(), pixels)),
        Err(e) => Err(e),
    }
}

/// The codecs of surface bits.
#[derive(Debug, Clone, Copy, PartialEq, Eq, Structural)]
pub enum CodecId {
    Uncompressed,
    RemoteFx,
    Qoi,
    Qoiz,
}

/// The codec that a number stands for.
pub open spec fn codec_of(value: u8) -> Option<CodecId> {
    match value {
        0x00 => Some(CodecId::Uncompressed),
        0x03 => Some(CodecId::RemoteFx),
        0x0A => Some(CodecId::Qoi),
        0x0B => Some(CodecId::Qoiz),
        _ => None,
    }
}

impl CodecId {
    pub fn from_u8(value: u8) -> (r: Option<Self>)
        ensures
            r == codec_of(value),
    {
        match value {
            0x00 => Some(CodecId::Uncompressed),
            0x03 => Some(CodecId::RemoteFx),
            0x0A => Some(CodecId::Qoi),
            0x0B => Some(CodecId::Qoiz),
            _ => None,
        }
    }
}

/// A rectangle whose right column and bottom row do not belong to it.
#[derive(Debug, Clone, Copy, PartialEq, Eq, Structural)]
pub struct ExclusiveRectangle {
    pub left: u16,
    pub top: u16,
    pub right: u16,
    pub bottom: u16,
}

impl ExclusiveRectangle {
    /// The same rectangle, told by its last column and row.
    pub open spec fn inclusive(self) -> InclusiveRectangle {
        InclusiveRectangle {
            left: self.left,
            top: self.top,
            right: self.right.wrapping_sub(1),
            bottom: self.bottom.wrapping_sub(1),
        }
    }

    pub fn to_inclusive(self) -> (r: InclusiveRectangle)
        ensures
            r == self.inclusive(),
    {
        InclusiveRectangle {
            left: self.left,
            top: self.top,
            right: self.right.wrapping_sub(1),
            bottom: self.bottom.wrapping_sub(1),
        }
    }
}

/// A tile of a RemoteFX frame.
#[derive(Debug)]
pub struct RfxTile {
    pub output: Vec<u8>,
    pub format: PixelFormat,
    /// The rectangle around everything that is to be seen of the frame.
    pub extents: InclusiveRectangle,
    /// The parts of the tile that are to be seen.
    pub region: Vec<InclusiveRectangle>,
    /// Where the tile is.
    pub place: InclusiveRectangle,
}

/// A RemoteFX frame.
#[derive(Debug)]
pub struct RfxFrame {
    pub tiles: Vec<RfxTile>,
    /// What changes on the screen.
    pub rectangle: InclusiveRectangle,
}

/// The frames of a RemoteFX stream, up to the end or up to what could not be decoded.
#[derive(Debug)]
pub struct RfxStream {
    pub frames: Vec<RfxFrame>,
    pub failed: bool,
}

/// Pixels for a part of the screen. A RemoteFX stream comes decoded.
#[derive(Debug)]
pub struct SurfaceBits<'a> {
    pub destination: ExclusiveRectangle,
    pub bpp: u8,
    pub codec_id: u8,
    pub data: &'a [u8],
    pub frames: RfxStream,
}

#[derive(Debug)]
pub enum SurfaceCommand<'a> {
    SetSurfaceBits(SurfaceBits<'a>),
    StreamSurfaceBits(SurfaceBits<'a>),
    FrameMarker(FrameMarkerPdu),
}

/// The image and the area that changed so far.
#[verifier::ext_equal]
pub struct SurfaceState {
    pub image: ImageView,
    pub area: Option<InclusiveRectangle>,
}

/// The image after uncompressed pixels, and the area that changed; nothing for other depths.
pub open spec fn uncompressed_applied(
    v: ImageView,
    bpp: u8,
    data: Seq<u8>,
    palette: ColorPalette,
    rect: InclusiveRectangle,
) -> (ImageView, Option<InclusiveRectangle>) {
    let (after, area) = if bpp == 8 {
        v.bitmapped(data, Encoding::Indexed8(&palette), rect, true)
    } else if bpp == 15 {
        v.bitmapped_inside(data, Encoding::Rgb15, rect, true)
    } else if bpp == 16 {
        v.bitmapped_inside(data, Encoding::Rgb16, rect, true)
    } else if bpp == 24 {
        v.bitmapped_inside(data, Encoding::Bgr24, rect, true)
    } else {
        v.bitmapped_inside(data, bgrx_encoding(v), rect, true)
    };
    if bpp == 8 || bpp == 15 || bpp == 16 || bpp == 24 || bpp == 32 {
        (after, Some(area))
    } else {
        (v, None)
    }
}

/// The image after the first `n` tiles of a frame.
pub open spec fn tiles_applied(v: ImageView, tiles: Seq<RfxTile>, n: nat) -> ImageView
    decreases n,
{
    if n == 0 {
        v
    } else {
        let t = tiles[n - 1];
        tiles_applied(v, tiles, (n - 1) as nat).tiled(t.output@, t.format, t.extents, t.region@, t.place).0
    }
}

/// The state after the first `n` frames of a RemoteFX stream.
pub open spec fn frames_applied(s: SurfaceState, frames: Seq<RfxFrame>, n: nat) -> SurfaceState
    decreases n,
{
    if n == 0 {
        s
    } else {
        let before = frames_applied(s, frames, (n - 1) as nat);
        let frame = frames[n - 1];
        SurfaceState {
            image: tiles_applied(before.image, frame.tiles@, frame.tiles@.len()),
            area: joined(before.area, Some(frame.rectangle)),
        }
    }
}

/// The state after a decoded QOI image. It has to have the size of its place.
pub open spec fn qoi_applied(s: SurfaceState, rect: InclusiveRectangle, channels: u8, pixels: Seq<u8>) -> (
    SurfaceState,
    SessionResult<()>,
) {
    let expected = rect.columns() * rect.rows() * channels;
    if pixels.len() != expected {
        (s, Err(SessionError::QoiSize { decoded: pixels.len() as usize, expected: expected as u64 }))
    } else {
        let (after, area) = s.image.bitmapped_inside(
            pixels,
            if channels == 3 {
                Encoding::Rgb24
            } else {
                Encoding::Rgba32
            },
            rect,
            false,
        );
        (SurfaceState { image: after, area: joined(s.area, Some(area)) }, Ok(()))
    }
}

/// The state after the bytes of a QOI image.
pub open spec fn qoi_data_applied(s: SurfaceState, rect: InclusiveRectangle, data: Seq<u8>) -> (
    SurfaceState,
    SessionResult<()>,
) {
    match qoi_image(data) {
        Some((channels, pixels)) => qoi_applied(s, rect, channels, pixels),
        None => (s, Err(SessionError::Qoi)),
    }
}

/// Whether the edges of a rectangle are in order.
pub open spec fn in_order(rect: InclusiveRectangle) -> bool {
    rect.left <= rect.right && rect.top <= rect.bottom
}

/// Whether the parts of a tile lie in the image and in the tile.
pub open spec fn tile_fits(v: ImageView, t: RfxTile) -> bool {
    v.fits(t.extents) ==> {
        &&& t.region@.len() > 0 ==> v.width < 0x4000
        &&& forall|k: int|
            0 <= k < t.region@.len() ==> #[trigger] v.has_part(t.region@[k], t.place, t.output@.len())
    }
}

/// Whether the tiles of a frame fit.
pub open spec fn frame_fits(v: ImageView, frame: RfxFrame) -> bool {
    forall|k: int| 0 <= k < frame.tiles@.len() ==> #[trigger] tile_fits(v, frame.tiles@[k])
}

/// Whether the tiles of some frames fit.
pub open spec fn frames_fit(v: ImageView, frames: Seq<RfxFrame>) -> bool {
    forall|k: int| 0 <= k < frames.len() ==> #[trigger] frame_fits(v, frames[k])
}

/// Whether the image has room for surface bits.
pub open spec fn bits_fit(v: ImageView, bits: SurfaceBits<'_>) -> bool {
    let rect = bits.destination.inclusive();
    match codec_of(bits.codec_id) {
        None => true,
        Some(CodecId::Uncompressed) => raw_fits(v, bits.bpp as int, bits.data@.len(), rect),
        Some(CodecId::RemoteFx) => frames_fit(v, bits.frames.frames@),
        Some(CodecId::Qoi) => in_order(rect),
        Some(CodecId::Qoiz) => in_order(rect) && 0 < bits.data@.len() && bits.data@.len() * 4 <= usize::MAX,
    }
}

/// How surface bits change the state. `seen` is what the Zstandard stream has seen before, and `then` what
/// it has seen afterwards: a compressed QOI image begins the data that it goes on with, unless the stream
/// fails.
pub open spec fn bits_step(
    before: SurfaceState,
    seen: Seq<StreamCall>,
    bits: SurfaceBits<'_>,
    palette: ColorPalette,
    after: SurfaceState,
    then: Seq<StreamCall>,
    result: SessionResult<()>,
) -> bool {
    let rect = bits.destination.inclusive();
    &&& codec_of(bits.codec_id) != Some(CodecId::Qoiz) ==> then == seen
    &&& match codec_of(bits.codec_id) {
        None => after == before && result == Err::<(), SessionError>(
            SessionError::UnexpectedCodecId(bits.codec_id),
        ),
        Some(CodecId::Uncompressed) => {
            let (v, area) = uncompressed_applied(before.image, bits.bpp, bits.data@, palette, rect);
            after == (SurfaceState { image: v, area: joined(before.area, area) }) && result is Ok
        },
        Some(CodecId::RemoteFx) => {
            &&& after == frames_applied(before, bits.frames.frames@, bits.frames.frames@.len())
            &&& result == (if bits.frames.failed {
                Err(SessionError::RemoteFx)
            } else {
                Ok(())
            })
        },
        Some(CodecId::Qoi) => (after, result) == qoi_data_applied(before, rect, bits.data@),
        Some(CodecId::Qoiz) => {
            &&& stream_step(seen, bits.data@, then)
            &&& match inflated(bits.data@, then.skip(seen.len() as int)) {
                Ok(plain) => exists|data: Seq<u8>|
                    begins_with(data, plain) && (after, result) == #[trigger] qoi_data_applied(
                        before,
                        rect,
                        data,
                    ),
                Err(code) => after == before && result == Err::<(), SessionError>(SessionError::Zstd(code)),
            }
        },
    }
}

/// How a command changes the state, and what the Zstandard stream has seen.
pub open spec fn command_step(
    before: SurfaceState,
    seen: Seq<StreamCall>,
    command: SurfaceCommand<'_>,
    palette: ColorPalette,
    after: SurfaceState,
    then: Seq<StreamCall>,
    result: SessionResult<()>,
) -> bool {
    match command {
        SurfaceCommand::SetSurfaceBits(bits) => bits_step(before, seen, bits, palette, after, then, result),
        SurfaceCommand::StreamSurfaceBits(bits) => bits_step(before, seen, bits, palette, after, then, result),
        SurfaceCommand::FrameMarker(_) => after == before && then == seen && result is Ok,
    }
}

/// Whether the image has room for what a command draws.
pub open spec fn command_fits(v: ImageView, command: SurfaceCommand<'_>) -> bool {
    match command {
        SurfaceCommand::SetSurfaceBits(bits) => bits_fit(v, bits),
        SurfaceCommand::StreamSurfaceBits(bits) => bits_fit(v, bits),
        SurfaceCommand::FrameMarker(_) => true,
    }
}

/// Whether surface bits fail for what they hold: an unknown codec, a RemoteFX stream that could not be
/// decoded, or a QOI image that cannot be decoded or does not have the size of its place.
pub open spec fn bits_fail(bits: SurfaceBits<'_>) -> bool {
    match codec_of(bits.codec_id) {
        None => true,
        Some(CodecId::RemoteFx) => bits.frames.failed,
        Some(CodecId::Qoi) => qoi_fails(bits.destination.inclusive(), bits.data@),
        _ => false,
    }
}

/// Whether a QOI image cannot be decoded or does not have the size of its place.
pub open spec fn qoi_fails(rect: InclusiveRectangle, data: Seq<u8>) -> bool {
    match qoi_image(data) {
        Some((channels, pixels)) => pixels.len() != rect.columns() * rect.rows() * channels,
        None => true,
    }
}

/// Whether a command fails for what it holds.
pub open spec fn command_fails(command: SurfaceCommand<'_>) -> bool {
    match command {
        SurfaceCommand::SetSurfaceBits(bits) => bits_fail(bits),
        SurfaceCommand::StreamSurfaceBits(bits) => bits_fail(bits),
        SurfaceCommand::FrameMarker(_) => false,
    }
}

/// Whether command `n` may be processed: none of those before it fails for what it holds.
pub open spec fn may_reach(commands: Seq<SurfaceCommand<'_>>, n: int) -> bool {
    forall|k: int| 0 <= k < n ==> !#[trigger] command_fails(commands[k])
}

/// Whether the image has room for what some commands draw, as far as they may be processed.
pub open spec fn commands_fit(v: ImageView, commands: Seq<SurfaceCommand<'_>>) -> bool {
    forall|k: int|
        0 <= k < commands.len() && may_reach(commands, k) ==> #[trigger] command_fits(v, commands[k])
}

/// The answers to the frame markers among the first `n` commands.
pub open spec fn answers(markers: FrameMarkerProcessor, commands: Seq<SurfaceCommand<'_>>, n: nat) -> Seq<
    FrameAcknowledge,
>
    decreases n,
{
    if n == 0 {
        Seq::empty()
    } else {
        let before = answers(markers, commands, (n - 1) as nat);
        match commands[n - 1] {
            SurfaceCommand::FrameMarker(marker) => match markers.answer(marker) {
                Some(a) => before.push(a),
                None => before,
            },
            _ => before,
        }
    }
}

/// Whether `states` are the states before, between and after the first commands, all of which worked,
/// and `calls` what the Zstandard stream has seen by then.
pub open spec fn commands_run(
    states: Seq<SurfaceState>,
    calls: Seq<Seq<StreamCall>>,
    commands: Seq<SurfaceCommand<'_>>,
    palette: ColorPalette,
) -> bool {
    &&& 1 <= states.len() <= commands.len() + 1
    &&& calls.len() == states.len()
    &&& forall|k: int|
        #![trigger states[k + 1]]
        0 <= k < states.len() - 1 ==> command_step(
            states[k],
            calls[k],
            commands[k],
            palette,
            states[k + 1],
            calls[k + 1],
            Ok(()),
        )
}

/// What some commands come to: they all work, or the first one that does not ends the run. `seen` is what
/// the Zstandard stream has seen before, and `then` what it has seen afterwards.
pub open spec fn commands_outcome(
    start: ImageView,
    seen: Seq<StreamCall>,
    commands: Seq<SurfaceCommand<'_>>,
    palette: ColorPalette,
    end: ImageView,
    then: Seq<StreamCall>,
    done: nat,
    result: SessionResult<InclusiveRectangle>,
) -> bool {
    exists|states: Seq<SurfaceState>, calls: Seq<Seq<StreamCall>>|
        {
            &&& #[trigger] commands_run(states, calls, commands, palette)
            &&& states[0] == (SurfaceState { image: start, area: None })
            &&& calls[0] == seen
            &&& done == states.len() - 1
            &&& match result {
                Ok(area) => {
                    &&& done == commands.len()
                    &&& end == states.last().image
                    &&& then == calls.last()
                    &&& area == (match states.last().area {
                        Some(rect) => rect,
                        None => InclusiveRectangle::origin(),
                    })
                },
                Err(e) => done < commands.len() && exists|after: SurfaceState| #[trigger]
                    command_step(
                        states.last(),
                        calls.last(),
                        commands[done as int],
                        palette,
                        after,
                        then,
                        Err(e),
                    ) && end == after.image,
            }
        }
}

/// Number of bytes of an image with this number of channels that has the size of a rectangle.
fn expected_size(rect: &InclusiveRectangle, channels: u8) -> (r: u64)
    requires
        in_order(*rect),
        channels == 3 || channels == 4,
    ensures
        r == rect.columns() * rect.rows() * channels,
{
    let width: u64 = rect.width() as u64;
    let height: u64 = rect.height() as u64;
    assert(0 <= width * height <= 0xFFFF * 0xFFFF) by (nonlinear_arith)
        requires
            0 <= width <= 0xFFFF,
            0 <= height <= 0xFFFF,
    ;
    assert(0 <= width * height * channels <= 0xFFFF * 0xFFFF * 4) by (nonlinear_arith)
        requires
            0 <= width * height <= 0xFFFF * 0xFFFF,
            3 <= channels <= 4,
    ;
    width * height * channels as u64
}

/// Puts a decoded QOI image on the screen.
pub fn apply_qoi_image(
    image: &mut DecodedImage,
    destination: &InclusiveRectangle,
    channels: u8,
    pixels: &[u8],
    update_rectangle: &mut Option<InclusiveRectangle>,
) -> (r: SessionResult<()>)
    requires
        old(image)@.wf(),
        in_order(*destination),
        channels == 3 || channels == 4,
    ensures
        final(image)@.wf(),
        ({
            let before = SurfaceState { image: old(image)@, area: *old(update_rectangle) };
            let after = SurfaceState { image: final(image)@, area: *final(update_rectangle) };
            (after, r) == qoi_applied(before, *destination, channels, pixels@)
        }),
{
    let expected: u64 = expected_size(destination, channels);
    if pixels.len() as u64 != expected {
        return Err(SessionError::QoiSize { decoded: pixels.len(), expected });
    }
    proof {
        if image@.fits(*destination) {
            lemma_exact_image_fits(image@, *destination, channels as int, pixels@.len());
        }
    }
    let rectangle: InclusiveRectangle = if channels == 3 {
        image.apply_rgb24(pixels, destination, false)?
    } else {
        image.apply_rgba32(pixels, destination, false)?
    };
    *update_rectangle = Some(merge(update_rectangle, &rectangle));
    Ok(())
}

/// A bitmap of the size of a rectangle in the image has room.
proof fn lemma_exact_image_fits(v: ImageView, rect: InclusiveRectangle, size: int, len: nat)
    requires
        v.fits(rect),
        in_order(rect),
        1 <= size,
        len == rect.columns() * rect.rows() * size,
    ensures
        v.has_room(rect, len, size),
{
    let c = rect.columns();
    let h = rect.rows();
    assert(c == rect.right - rect.left + 1);
    assert(h == rect.bottom - rect.top + 1);
    assert(len as int / (c * size) == h) by {
        assert(c * h * size == h * (c * size)) by (nonlinear_arith);
        assert(c * size > 0) by (nonlinear_arith)
            requires
                c > 0,
                size > 0,
        ;
        vstd::arithmetic::div_mod::lemma_div_by_multiple(h, c * size);
    }
    let w = v.width as int;
    assert(rect.bottom * w + w <= w * v.height) by (nonlinear_arith)
        requires
            rect.bottom + 1 <= v.height,
            0 <= w,
    ;
}

/// The area around what changed so far and another one.
fn merge(area: &Option<InclusiveRectangle>, other: &InclusiveRectangle) -> (r: InclusiveRectangle)
    ensures
        Some(r) == joined(*area, Some(*other)),
{
    match area {
        Some(rect) => rect.union(other),
        None => *other,
    }
}

/// Decodes a QOI image and puts it on the screen.
pub fn qoi_apply(
    image: &mut DecodedImage,
    destination: &InclusiveRectangle,
    data: &[u8],
    update_rectangle: &mut Option<InclusiveRectangle>,
) -> (r: SessionResult<()>)
    requires
        old(image)@.wf(),
        in_order(*destination),
    ensures
        final(image)@.wf(),
        ({
            let before = SurfaceState { image: old(image)@, area: *old(update_rectangle) };
            let after = SurfaceState { image: final(image)@, area: *final(update_rectangle) };
            (after, r) == qoi_data_applied(before, *destination, data@)
        }),
{
    match decode_qoi(data) {
        Ok((channels, pixels)) => apply_qoi_image(
            image,
            destination,
            channels,
            pixels.as_slice(),
            update_rectangle,
        ),
        Err(_) => Err(SessionError::Qoi),
    }
}

/// Puts uncompressed pixels on the screen.
fn apply_uncompressed(
    image: &mut DecodedImage,
    bpp: u8,
    data: &[u8],
    palette: &ColorPalette,
    rect: &InclusiveRectangle,
) -> (r: SessionResult<Option<InclusiveRectangle>>)
    requires
        old(image)@.wf(),
        raw_fits(old(image)@, bpp as int, data@.len(), *rect),
    ensures
        final(image)@.wf(),
        r is Ok,
        (final(image)@, r->Ok_0) == uncompressed_applied(old(image)@, bpp, data@, *palette, *rect),
{
    let area: InclusiveRectangle = match bpp {
        8 => image.apply_indexed8_bitmap(data, palette, rect)?,
        15 => image.apply_rgb15_bitmap(data, rect)?,
        16 => image.apply_rgb16_bitmap(data, rect)?,
        24 => image.apply_bgr24_bitmap(data, rect)?,
        32 => image.apply_rgb32_bitmap(data, PixelFormat::BgrX32, rect)?,
        _ => {
            return Ok(None);
        },
    };
    Ok(Some(area))
}

/// Puts the tiles of a frame on the screen.
fn apply_tiles(image: &mut DecodedImage, frame: &RfxFrame) -> (r: SessionResult<()>)
    requires
        old(image)@.wf(),
        frame_fits(old(image)@, *frame),
    ensures
        final(image)@.wf(),
        r is Ok,
        final(image)@ == tiles_applied(old(image)@, frame.tiles@, frame.tiles@.len()),
        final(image)@.width == old(image)@.width,
        final(image)@.height == old(image)@.height,
{
    let mut k: usize = 0;
    while k < frame.tiles.len()
        invariant
            k <= frame.tiles@.len(),
            frame_fits(old(image)@, *frame),
            image@.wf(),
            image@.width == old(image)@.width,
            image@.height == old(image)@.height,
            image@ == tiles_applied(old(image)@, frame.tiles@, k as nat),
        decreases frame.tiles@.len() - k,
    {
        let tile: &RfxTile = &frame.tiles[k];
        proof {
            assert(tile_fits(old(image)@, frame.tiles@[k as int]));
            assert forall|n: int|
                0 <= n < tile.region@.len() && image@.fits(tile.extents) implies #[trigger] image@.has_part(
                tile.region@[n],
                tile.place,
                tile.output@.len(),
            ) by {
                assert(old(image)@.has_part(tile.region@[n], tile.place, tile.output@.len()));
            }
        }
        image.apply_tile(
            tile.output.as_slice(),
            tile.format,
            &tile.extents,
            tile.region.as_slice(),
            &tile.place,
        )?;
        k = k + 1;
    }
    Ok(())
}

/// Puts the frames of a RemoteFX stream on the screen.
fn apply_frames(
    image: &mut DecodedImage,
    stream: &RfxStream,
    update_rectangle: &mut Option<InclusiveRectangle>,
) -> (r: SessionResult<()>)
    requires
        old(image)@.wf(),
        frames_fit(old(image)@, stream.frames@),
    ensures
        final(image)@.wf(),
        final(image)@.width == old(image)@.width,
        final(image)@.height == old(image)@.height,
        ({
            let before = SurfaceState { image: old(image)@, area: *old(update_rectangle) };
            let after = SurfaceState { image: final(image)@, area: *final(update_rectangle) };
            after == frames_applied(before, stream.frames@, stream.frames@.len())
        }),
        r == (if stream.failed {
            Err(SessionError::RemoteFx)
        } else {
            Ok(())
        }),
{
    let ghost before = SurfaceState { image: image@, area: *update_rectangle };
    let mut k: usize = 0;
    while k < stream.frames.len()
        invariant
            k <= stream.frames@.len(),
            frames_fit(old(image)@, stream.frames@),
            image@.wf(),
            image@.width == old(image)@.width,
            image@.height == old(image)@.height,
            before == (SurfaceState { image: old(image)@, area: *old(update_rectangle) }),
            (SurfaceState { image: image@, area: *update_rectangle }) == frames_applied(
                before,
                stream.frames@,
                k as nat,
            ),
        decreases stream.frames@.len() - k,
    {
        let frame: &RfxFrame = &stream.frames[k];
        proof {
            assert(frame_fits(old(image)@, stream.frames@[k as int]));
            lemma_frame_fits_same_size(old(image)@, image@, *frame);
        }
        apply_tiles(image, frame)?;
        *update_rectangle = Some(merge(update_rectangle, &frame.rectangle));
        k = k + 1;
    }
    if stream.failed {
        Err(SessionError::RemoteFx)
    } else {
        Ok(())
    }
}

/// Whether a frame fits depends on the size of the image alone.
proof fn lemma_frame_fits_same_size(a: ImageView, b: ImageView, frame: RfxFrame)
    requires
        frame_fits(a, frame),
        a.width == b.width,
        a.height == b.height,
    ensures
        frame_fits(b, frame),
{
    assert forall|k: int| 0 <= k < frame.tiles@.len() implies #[trigger] tile_fits(b, frame.tiles@[k]) by {
        let t = frame.tiles@[k];
        assert(tile_fits(a, t));
        if b.fits(t.extents) {
            assert forall|n: int| 0 <= n < t.region@.len() implies #[trigger] b.has_part(
                t.region@[n],
                t.place,
                t.output@.len(),
            ) by {
                assert(a.has_part(t.region@[n], t.place, t.output@.len()));
            }
        }
    }
}

/// Whether a command fits depends on the size of the image alone.
proof fn lemma_command_fits_same_size(a: ImageView, b: ImageView, command: SurfaceCommand<'_>)
    requires
        command_fits(a, command),
        a.width == b.width,
        a.height == b.height,
    ensures
        command_fits(b, command),
{
    match command {
        SurfaceCommand::SetSurfaceBits(bits) => lemma_bits_fit_same_size(a, b, bits),
        SurfaceCommand::StreamSurfaceBits(bits) => lemma_bits_fit_same_size(a, b, bits),
        SurfaceCommand::FrameMarker(_) => {},
    }
}

proof fn lemma_bits_fit_same_size(a: ImageView, b: ImageView, bits: SurfaceBits<'_>)
    requires
        bits_fit(a, bits),
        a.width == b.width,
        a.height == b.height,
    ensures
        bits_fit(b, bits),
{
    if codec_of(bits.codec_id) == Some(CodecId::RemoteFx) {
        assert forall|k: int| 0 <= k < bits.frames.frames@.len() implies #[trigger] frame_fits(
            b,
            bits.frames.frames@[k],
        ) by {
            assert(frame_fits(a, bits.frames.frames@[k]));
            lemma_frame_fits_same_size(a, b, bits.frames.frames@[k]);
        }
    }
}

/// Puts surface bits on the screen.
pub fn process_surface_bits(
    image: &mut DecodedImage,
    bits: &SurfaceBits<'_>,
    palette: &ColorPalette,
    stream: &mut zstd_safe::DCtx<'static>,
    update_rectangle: &mut Option<InclusiveRectangle>,
) -> (r: SessionResult<()>)
    requires
        old(image)@.wf(),
        bits_fit(old(image)@, *bits),
    ensures
        final(image)@.wf(),
        final(image)@.width == old(image)@.width,
        final(image)@.height == old(image)@.height,
        bits_step(
            (SurfaceState { image: old(image)@, area: *old(update_rectangle) }),
            seen(*old(stream)),
            *bits,
            *palette,
            (SurfaceState { image: final(image)@, area: *final(update_rectangle) }),
            seen(*final(stream)),
            r,
        ),
{
    let codec: CodecId = match CodecId::from_u8(bits.codec_id) {
        Some(c) => c,
        None => {
            return Err(SessionError::UnexpectedCodecId(bits.codec_id));
        },
    };
    let destination: InclusiveRectangle = bits.destination.to_inclusive();
    match codec {
        CodecId::Uncompressed => {
            match apply_uncompressed(image, bits.bpp, bits.data, palette, &destination)? {
                Some(area) => {
                    *update_rectangle = Some(merge(update_rectangle, &area));
                },
                None => {},
            }
            Ok(())
        },
        CodecId::RemoteFx => apply_frames(image, &bits.frames, update_rectangle),
        CodecId::Qoi => qoi_apply(image, &destination, bits.data, update_rectangle),
        CodecId::Qoiz => {
            let data: Vec<u8> = inflate(stream, bits.data)?;
            qoi_apply(image, &destination, data.as_slice(), update_rectangle)
        },
    }
}

/// A command that worked does not fail for what it holds.
proof fn lemma_done_does_not_fail(
    before: SurfaceState,
    seen: Seq<StreamCall>,
    command: SurfaceCommand<'_>,
    palette: ColorPalette,
    after: SurfaceState,
    then: Seq<StreamCall>,
)
    requires
        command_step(before, seen, command, palette, after, then, Ok(())),
    ensures
        !command_fails(command),
{
}

/// Processes surface commands. Gives back the area that changed; the answers to frame markers are
/// appended to `acknowledgements`.
pub fn process_surface_commands(
    image: &mut DecodedImage,
    surface_commands: &Vec<SurfaceCommand<'_>>,
    palette: &ColorPalette,
    stream: &mut zstd_safe::DCtx<'static>,
    markers: &FrameMarkerProcessor,
    acknowledgements: &mut Vec<FrameAcknowledge>,
) -> (r: SessionResult<InclusiveRectangle>)
    requires
        old(image)@.wf(),
        commands_fit(old(image)@, surface_commands@),
    ensures
        final(image)@.wf(),
        exists|done: nat|
            {
                &&& #[trigger] commands_outcome(
                    old(image)@,
                    seen(*old(stream)),
                    surface_commands@,
                    *palette,
                    final(image)@,
                    seen(*final(stream)),
                    done,
                    r,
                )
                &&& final(acknowledgements)@ == old(acknowledgements)@ + answers(
                    *markers,
                    surface_commands@,
                    done,
                )
            },
{
    let mut update_rectangle: Option<InclusiveRectangle> = None;
    let ghost start = image@;
    let ghost commands = surface_commands@;
    let ghost earlier = acknowledgements@;
    let ghost history = seen(*stream);
    let ghost mut calls: Seq<Seq<StreamCall>> = seq![history];
    let ghost mut states: Seq<SurfaceState> = seq![SurfaceState { image: start, area: None }];
    let mut k: usize = 0;
    assert(acknowledgements@ =~= earlier + answers(*markers, commands, 0));
    while k < surface_commands.len()
        invariant
            k <= surface_commands@.len(),
            commands == surface_commands@,
            start == old(image)@,
            earlier == old(acknowledgements)@,
            history == seen(*old(stream)),
            may_reach(commands, k as int),
            commands_fit(start, commands),
            image@.wf(),
            image@.width == start.width,
            image@.height == start.height,
            commands_run(states, calls, commands, *palette),
            states.len() == k + 1,
            calls[0] == history,
            calls.last() == seen(*stream),
            states[0] == (SurfaceState { image: start, area: None }),
            states.last() == (SurfaceState { image: image@, area: update_rectangle }),
            acknowledgements@ == earlier + answers(*markers, commands, k as nat),
        decreases surface_commands@.len() - k,
    {
        let ghost before = SurfaceState { image: image@, area: update_rectangle };
        proof {
            assert(command_fits(start, commands[k as int]));
            lemma_command_fits_same_size(start, image@, commands[k as int]);
        }
        let result: SessionResult<()> = match &surface_commands[k] {
            SurfaceCommand::SetSurfaceBits(bits) => process_surface_bits(
                image,
                bits,
                palette,
                stream,
                &mut update_rectangle,
            ),
            SurfaceCommand::StreamSurfaceBits(bits) => process_surface_bits(
                image,
                bits,
                palette,
                stream,
                &mut update_rectangle,
            ),
            SurfaceCommand::FrameMarker(marker) => {
                match markers.process(marker) {
                    Some(acknowledge) => {
                        acknowledgements.push(acknowledge);
                    },
                    None => {},
                }
                Ok(())
            },
        };
        let ghost after = SurfaceState { image: image@, area: update_rectangle };
        assert(command_step(
            before,
            calls.last(),
            commands[k as int],
            *palette,
            after,
            seen(*stream),
            result,
        ));
        match result {
            Ok(()) => {},
            Err(e) => {
                assert(command_step(
                    states.last(),
                    calls.last(),
                    commands[k as int],
                    *palette,
                    after,
                    seen(*stream),
                    Err(e),
                ));
                assert(commands_outcome(
                    start,
                    history,
                    commands,
                    *palette,
                    image@,
                    seen(*stream),
                    k as nat,
                    Err(e),
                ));
                return Err(e);
            },
        }
        proof {
            lemma_done_does_not_fail(
                before,
                calls.last(),
                commands[k as int],
                *palette,
                after,
                seen(*stream),
            );
            let longer = states.push(after);
            let more = calls.push(seen(*stream));
            assert forall|n: int|
                #![trigger longer[n + 1]]
                0 <= n < longer.len() - 1 implies command_step(
                longer[n],
                more[n],
                commands[n],
                *palette,
                longer[n + 1],
                more[n + 1],
                Ok(()),
            ) by {
                if n < states.len() - 1 {
                    assert(longer[n + 1] == states[n + 1]);
                }
            }
            states = longer;
            calls = more;
            assert(acknowledgements@ =~= earlier + answers(*markers, commands, (k + 1) as nat));
        }
        k = k + 1;
    }
    let area: InclusiveRectangle = match update_rectangle {
        Some(rect) => rect,
        None => InclusiveRectangle::empty(),
    };
    assert(commands_outcome(
        start,
        history,
        commands,
        *palette,
        image@,
        seen(*stream),
        k as nat,
        Ok(area),
    ));
    Ok(area)
}

/// Whether the parts of a tile lie in the image and in the tile.
fn has_room_for_tile(image: &DecodedImage, tile: &RfxTile) -> (r: bool)
    ensures
        r == tile_fits(image@, *tile),
{
    if !image.rect_fits(&tile.extents) {
        return true;
    }
    if tile.region.len() > 0 && image.width() >= 0x4000 {
        return false;
    }
    let mut k: usize = 0;
    while k < tile.region.len()
        invariant
            k <= tile.region@.len(),
            image@.fits(tile.extents),
            forall|n: int|
                0 <= n < k ==> #[trigger] image@.has_part(tile.region@[n], tile.place, tile.output@.len()),
        decreases tile.region@.len() - k,
    {
        if !image.has_room_for_part(&tile.region[k], &tile.place, tile.output.len()) {
            assert(!image@.has_part(tile.region@[k as int], tile.place, tile.output@.len()));
            return false;
        }
        k = k + 1;
    }
    true
}

/// Whether the tiles of a frame fit.
fn has_room_for_frame(image: &DecodedImage, frame: &RfxFrame) -> (r: bool)
    ensures
        r == frame_fits(image@, *frame),
{
    let mut k: usize = 0;
    while k < frame.tiles.len()
        invariant
            k <= frame.tiles@.len(),
            forall|n: int| 0 <= n < k ==> #[trigger] tile_fits(image@, frame.tiles@[n]),
        decreases frame.tiles@.len() - k,
    {
        if !has_room_for_tile(image, &frame.tiles[k]) {
            assert(!tile_fits(image@, frame.tiles@[k as int]));
            return false;
        }
        k = k + 1;
    }
    true
}

/// Whether the image has room for surface bits.
fn has_room_for_bits(image: &DecodedImage, bits: &SurfaceBits<'_>) -> (r: bool)
    ensures
        r == bits_fit(image@, *bits),
{
    let rect: InclusiveRectangle = bits.destination.to_inclusive();
    let ordered: bool = rect.left <= rect.right && rect.top <= rect.bottom;
    match CodecId::from_u8(bits.codec_id) {
        None => true,
        Some(CodecId::Uncompressed) => has_room_for_pixels(image, bits.bpp as u16, bits.data.len(), &rect),
        Some(CodecId::RemoteFx) => {
            let mut k: usize = 0;
            while k < bits.frames.frames.len()
                invariant
                    k <= bits.frames.frames@.len(),
                    forall|n: int| 0 <= n < k ==> #[trigger] frame_fits(image@, bits.frames.frames@[n]),
                    codec_of(bits.codec_id) == Some(CodecId::RemoteFx),
                decreases bits.frames.frames@.len() - k,
            {
                if !has_room_for_frame(image, &bits.frames.frames[k]) {
                    assert(!frame_fits(image@, bits.frames.frames@[k as int]));
                    return false;
                }
                k = k + 1;
            }
            true
        },
        Some(CodecId::Qoi) => ordered,
        Some(CodecId::Qoiz) => ordered && bits.data.len() > 0 && bits.data.len() <= usize::MAX / 4,
    }
}

/// Whether surface bits will fail for what they hold.
fn will_bits_fail(bits: &SurfaceBits<'_>) -> (r: bool)
    requires
        codec_of(bits.codec_id) == Some(CodecId::Qoi) ==> in_order(bits.destination.inclusive()),
    ensures
        r == bits_fail(*bits),
{
    match CodecId::from_u8(bits.codec_id) {
        None => true,
        Some(CodecId::RemoteFx) => bits.frames.failed,
        Some(CodecId::Qoi) => match decode_qoi(bits.data) {
            Ok((channels, pixels)) => pixels.len() as u64 != expected_size(
                &bits.destination.to_inclusive(),
                channels,
            ),
            Err(_) => true,
        },
        _ => false,
    }
}

/// Whether a command will fail for what it holds.
fn will_command_fail(command: &SurfaceCommand<'_>) -> (r: bool)
    requires
        exists|v: ImageView| command_fits(v, *command),
    ensures
        r == command_fails(*command),
{
    match command {
        SurfaceCommand::SetSurfaceBits(bits) => will_bits_fail(bits),
        SurfaceCommand::StreamSurfaceBits(bits) => will_bits_fail(bits),
        SurfaceCommand::FrameMarker(_) => false,
    }
}

/// Whether the image has room for what a command draws.
fn has_room_for_command(image: &DecodedImage, command: &SurfaceCommand<'_>) -> (r: bool)
    ensures
        r == command_fits(image@, *command),
{
    match command {
        SurfaceCommand::SetSurfaceBits(bits) => has_room_for_bits(image, bits),
        SurfaceCommand::StreamSurfaceBits(bits) => has_room_for_bits(image, bits),
        SurfaceCommand::FrameMarker(_) => true,
    }
}

/// Whether the image has room for what some commands draw, as far as they may be processed.
pub fn has_room_for_commands(image: &DecodedImage, commands: &Vec<SurfaceCommand<'_>>) -> (r: bool)
    ensures
        r == commands_fit(image@, commands@),
{
    let mut k: usize = 0;
    while k < commands.len() && has_room_for_command(image, &commands[k])
        invariant
            k <= commands@.len(),
            forall|n: int| 0 <= n < k ==> #[trigger] command_fits(image@, commands@[n]),
        decreases commands@.len() - k,
    {
        k = k + 1;
    }
    if k == commands.len() {
        return true;
    }
    let mut j: usize = 0;
    while j < k
        invariant
            j <= k < commands@.len(),
            forall|n: int| 0 <= n < k ==> #[trigger] command_fits(image@, commands@[n]),
            may_reach(commands@, j as int),
        decreases k - j,
    {
        assert(command_fits(image@, commands@[j as int]));
        if will_command_fail(&commands[j]) {
            assert forall|n: int| 0 <= n < commands@.len() && may_reach(commands@, n) implies #[trigger] command_fits(
                image@,
                commands@[n],
            ) by {
                if n >= k {
                    assert(command_fails(commands@[j as int]));
                }
            }
            return true;
        }
        j = j + 1;
    }
    assert(!command_fits(image@, commands@[k as int]));
    false
}

} // verus!
