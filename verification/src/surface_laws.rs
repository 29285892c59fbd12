//! What surface commands do to the image, and how the server is answered.

use vstd::prelude::*;

use crate::bitmap_laws::{bitmap_pixel, is_free, lemma_bitmapped, plain_writing, row_len, Written};
use crate::drawing_laws::around;
use crate::error::{SessionError, SessionResult};
use crate::frame_marker::{FrameAcknowledge, FrameMarkerProcessor};
use crate::geometry::InclusiveRectangle;
use crate::image::{joined, ImageView};
use crate::palette::ColorPalette;
use crate::pixel_laws::{bytes_of, on_screen};
use crate::surface_commands::{
    answers, bits_fail, bits_step, codec_of, command_step, commands_outcome, frames_applied, qoi_applied,
    qoi_image, tiles_applied, uncompressed_applied, CodecId, ExclusiveRectangle, RfxFrame, RfxTile,
    SurfaceBits, SurfaceCommand, SurfaceState,
};
use crate::zstd_stream::StreamCall;

verus! {

/// The codecs have the numbers 0, 3, 10 and 11.
pub proof fn law_codecs(value: u8)
    ensures
        codec_of(value) == Some(CodecId::Uncompressed) <==> value == 0,
        codec_of(value) == Some(CodecId::RemoteFx) <==> value == 3,
        codec_of(value) == Some(CodecId::Qoi) <==> value == 10,
        codec_of(value) == Some(CodecId::Qoiz) <==> value == 11,
        codec_of(value) is None <==> value != 0 && value != 3 && value != 10 && value != 11,
{
}

/// A pixel belongs to a destination that ends before its right and bottom edges exactly if it belongs to
/// the rectangle that is drawn.
pub proof fn law_destination(d: ExclusiveRectangle, x: int, y: int)
    requires
        d.right > 0,
        d.bottom > 0,
    ensures
        ({
            let r = d.inclusive();
            (r.left <= x <= r.right && r.top <= y <= r.bottom) <==> (d.left <= x < d.right && d.top <= y < d.bottom)
        }),
{
}

/// The area so far and the one that is new, as one.
pub proof fn law_area_grows(area: Option<InclusiveRectangle>, r: InclusiveRectangle)
    ensures
        joined(area, Some(r)) == Some(around(area, r)),
        joined(area, None) == area,
{
}

/// Uncompressed surface bits of any known depth stand on their head; those of other depths draw nothing.
pub proof fn law_uncompressed_bits_by_pixel(
    v: ImageView,
    bpp: u8,
    data: Seq<u8>,
    palette: ColorPalette,
    rect: InclusiveRectangle,
    rows: int,
    x: int,
    y: int,
)
    requires
        v.wf(),
        is_free(v, rect, rows),
        plain_writing(bpp as u16) matches Some(written) ==> rows * row_len(rect, written) <= data.len() < (rows + 1)
            * row_len(rect, written),
        on_screen(v, x, y),
    ensures
        ({
            let (after, area) = uncompressed_applied(v, bpp, data, palette, rect);
            match plain_writing(bpp as u16) {
                Some(written) => {
                    &&& bytes_of(after, x, y) == bitmap_pixel(
                        v,
                        written,
                        palette,
                        data,
                        row_len(rect, written),
                        rect,
                        rows,
                        false,
                        x,
                        y,
                    )
                    &&& area == Some(rect)
                },
                None => after == v && area is None,
            }
        }),
{
    if plain_writing(bpp as u16) is Some {
        lemma_bitmapped(v, plain_writing(bpp as u16)->Some_0, &palette, data, rect, rows, false, x, y);
    }
}

/// A QOI image of the size of its place is drawn with its first row at the top, with three bytes per pixel
/// or with four.
pub proof fn law_qoi_by_pixel(
    s: SurfaceState,
    rect: InclusiveRectangle,
    channels: u8,
    pixels: Seq<u8>,
    palette: ColorPalette,
    x: int,
    y: int,
)
    requires
        s.image.wf(),
        channels == 3 || channels == 4,
        rect.top <= rect.bottom,
        is_free(s.image, rect, rect.bottom - rect.top + 1),
        pixels.len() == (rect.bottom - rect.top + 1) * ((rect.right - rect.left + 1) * channels),
        on_screen(s.image, x, y),
    ensures
        ({
            let (after, r) = qoi_applied(s, rect, channels, pixels);
            let written = if channels == 3 {
                Written::RedGreenBlue
            } else {
                Written::RedGreenBlueOpacity
            };
            &&& r is Ok
            &&& after.area == Some(around(s.area, rect))
            &&& bytes_of(after.image, x, y) == bitmap_pixel(
                s.image,
                written,
                palette,
                pixels,
                row_len(rect, written),
                rect,
                rect.bottom - rect.top + 1,
                true,
                x,
                y,
            )
        }),
{
    let rows = rect.bottom - rect.top + 1;
    let cols = rect.right - rect.left + 1;
    let written = if channels == 3 {
        Written::RedGreenBlue
    } else {
        Written::RedGreenBlueOpacity
    };
    let n = channels as int;
    assert(rect.columns() == cols && rect.rows() == rows);
    assert(cols * rows * n == rows * (cols * n)) by (nonlinear_arith);
    assert(rows * (cols * n) < (rows + 1) * (cols * n)) by (nonlinear_arith)
        requires
            cols > 0,
            n > 0,
    ;
    assert(row_len(rect, written) == cols * n);
    lemma_bitmapped(s.image, written, &palette, pixels, rect, rows, true, x, y);
}

/// A QOI image that does not have the size of its place is refused, and nothing is drawn.
pub proof fn law_qoi_of_another_size(s: SurfaceState, rect: InclusiveRectangle, channels: u8, pixels: Seq<u8>)
    requires
        rect.left <= rect.right < 0xFFFF,
        rect.top <= rect.bottom < 0xFFFF,
        pixels.len() != (rect.bottom - rect.top + 1) * ((rect.right - rect.left + 1) * channels),
    ensures
        qoi_applied(s, rect, channels, pixels).0 == s,
        qoi_applied(s, rect, channels, pixels).1 is Err,
{
    let (cols, rows, n) = (rect.right - rect.left + 1, rect.bottom - rect.top + 1, channels as int);
    assert(rect.columns() == cols && rect.rows() == rows);
    assert(cols * rows * n == rows * (cols * n)) by (nonlinear_arith);
}

/// The tiles of a frame are laid on the image one after the other.
pub proof fn law_tiles_are_laid_in_turn(v: ImageView, tiles: Seq<RfxTile>, n: nat)
    requires
        n < tiles.len(),
    ensures
        tiles_applied(v, tiles, 0) == v,
        ({
            let t = tiles[n as int];
            tiles_applied(v, tiles, n + 1) == tiles_applied(v, tiles, n).tiled(
                t.output@,
                t.format,
                t.extents,
                t.region@,
                t.place,
            ).0
        }),
{
}

/// The frames of a stream are drawn one after the other, with all their tiles, and the area grows by the
/// rectangle of each.
pub proof fn law_frames_are_drawn_in_turn(s: SurfaceState, frames: Seq<RfxFrame>, n: nat)
    requires
        n < frames.len(),
    ensures
        frames_applied(s, frames, 0) == s,
        ({
            let before = frames_applied(s, frames, n);
            let after = frames_applied(s, frames, n + 1);
            let f = frames[n as int];
            &&& after.image == tiles_applied(before.image, f.tiles@, f.tiles@.len())
            &&& after.area == Some(around(before.area, f.rectangle))
        }),
{
}

/// What becomes of surface bits goes by the number of their codec. Those of an unknown codec change
/// nothing and fail, a RemoteFX stream is drawn as far as it could be decoded and fails if it could not be
/// decoded to its end, and a QOI image that cannot be decoded fails. Only a compressed QOI image goes
/// through the Zstandard stream.
pub proof fn law_bits_go_by_codec(
    before: SurfaceState,
    seen: Seq<StreamCall>,
    bits: SurfaceBits<'_>,
    palette: ColorPalette,
    after: SurfaceState,
    then: Seq<StreamCall>,
    result: SessionResult<()>,
)
    requires
        bits_step(before, seen, bits, palette, after, then, result),
    ensures
        bits.codec_id != 11 ==> then == seen,
        bits.codec_id == 0 ==> {
            let (v, area) = uncompressed_applied(
                before.image,
                bits.bpp,
                bits.data@,
                palette,
                bits.destination.inclusive(),
            );
            &&& result is Ok
            &&& after.image == v
            &&& area is None ==> after.area == before.area
            &&& area is Some ==> after.area == Some(around(before.area, area->Some_0))
        },
        bits.codec_id == 3 ==> {
            &&& after == frames_applied(before, bits.frames.frames@, bits.frames.frames@.len())
            &&& result is Err <==> bits.frames.failed
        },
        bits.codec_id == 10 && qoi_image(bits.data@) is Some ==> (after, result) == qoi_applied(
            before,
            bits.destination.inclusive(),
            qoi_image(bits.data@)->Some_0.0,
            qoi_image(bits.data@)->Some_0.1,
        ),
        bits.codec_id == 10 && qoi_image(bits.data@) is None ==> after == before && result == Err::<
            (),
            SessionError,
        >(SessionError::Qoi),
        bits.codec_id != 0 && bits.codec_id != 3 && bits.codec_id != 10 && bits.codec_id != 11 ==> after == before
            && result == Err::<(), SessionError>(SessionError::UnexpectedCodecId(bits.codec_id)),
{
}

/// Surface bits are drawn alike, whether they are set or streamed, and a frame marker draws nothing.
pub proof fn law_commands_draw_their_bits(
    before: SurfaceState,
    seen: Seq<StreamCall>,
    command: SurfaceCommand<'_>,
    palette: ColorPalette,
    after: SurfaceState,
    then: Seq<StreamCall>,
    result: SessionResult<()>,
)
    requires
        command_step(before, seen, command, palette, after, then, result),
    ensures
        command is SetSurfaceBits ==> bits_step(
            before,
            seen,
            command->SetSurfaceBits_0,
            palette,
            after,
            then,
            result,
        ),
        command is StreamSurfaceBits ==> bits_step(
            before,
            seen,
            command->StreamSurfaceBits_0,
            palette,
            after,
            then,
            result,
        ),
        command is FrameMarker ==> after == before && then == seen && result is Ok,
{
}

/// Surface bits that fail for what they hold fail whenever they are drawn.
pub proof fn law_bad_bits_fail(
    before: SurfaceState,
    seen: Seq<StreamCall>,
    bits: SurfaceBits<'_>,
    palette: ColorPalette,
    after: SurfaceState,
    then: Seq<StreamCall>,
    result: SessionResult<()>,
)
    requires
        bits_step(before, seen, bits, palette, after, then, result),
        bits.codec_id != 11,
    ensures
        result is Err <==> bits_fail(bits),
{
}

/// The server is answered for the end of each frame, in the order of the frames, and for nothing else.
pub proof fn law_answers_in_turn(markers: FrameMarkerProcessor, commands: Seq<SurfaceCommand<'_>>, n: nat)
    requires
        n < commands.len(),
    ensures
        answers(markers, commands, 0).len() == 0,
        ({
            let before = answers(markers, commands, n);
            let after = answers(markers, commands, n + 1);
            let c = commands[n as int];
            let ends = c is FrameMarker && c->FrameMarker_0.frame_action is End;
            &&& !ends ==> after == before
            &&& ends ==> after == before.push(
                FrameAcknowledge {
                    user_channel_id: markers.user_channel_id,
                    io_channel_id: markers.io_channel_id,
                    share_id: markers.share_id,
                    frame_id: if c->FrameMarker_0.frame_id is Some {
                        c->FrameMarker_0.frame_id->Some_0
                    } else {
                        0
                    },
                },
            )
        }),
{
}

/// One command more makes an answer more, or none.
pub proof fn law_no_more_answers_than_commands(
    markers: FrameMarkerProcessor,
    commands: Seq<SurfaceCommand<'_>>,
    n: nat,
)
    requires
        n <= commands.len(),
    ensures
        answers(markers, commands, n).len() <= n,
    decreases n,
{
    if n > 0 {
        law_no_more_answers_than_commands(markers, commands, (n - 1) as nat);
    }
}

/// No commands draw nothing and report the empty rectangle.
pub proof fn law_no_commands(
    start: ImageView,
    seen: Seq<StreamCall>,
    palette: ColorPalette,
    end: ImageView,
    then: Seq<StreamCall>,
    done: nat,
    result: SessionResult<InclusiveRectangle>,
)
    requires
        commands_outcome(start, seen, Seq::empty(), palette, end, then, done, result),
    ensures
        end == start,
        then == seen,
        done == 0,
        result == Ok::<InclusiveRectangle, SessionError>(
            InclusiveRectangle { left: 0, top: 0, right: 0, bottom: 0 },
        ),
{
}

/// One command that works draws what it draws, and reports its area; one that fails reports its error.
pub proof fn law_one_command(
    start: ImageView,
    seen: Seq<StreamCall>,
    command: SurfaceCommand<'_>,
    palette: ColorPalette,
    end: ImageView,
    then: Seq<StreamCall>,
    done: nat,
    result: SessionResult<InclusiveRectangle>,
)
    requires
        commands_outcome(start, seen, seq![command], palette, end, then, done, result),
    ensures
        result is Ok <==> done == 1,
        result is Err <==> done == 0,
        exists|after: SurfaceState|
            #![trigger after.image]
            {
                &&& after.image == end
                &&& command_step(
                    SurfaceState { image: start, area: None },
                    seen,
                    command,
                    palette,
                    after,
                    then,
                    match result {
                        Ok(_) => Ok(()),
                        Err(e) => Err(e),
                    },
                )
                &&& result is Ok && after.area is Some ==> result->Ok_0 == after.area->Some_0
            },
{
    let commands = seq![command];
    let (states, calls) = choose|states: Seq<SurfaceState>, calls: Seq<Seq<StreamCall>>|
        {
            &&& #[trigger] crate::surface_commands::commands_run(states, calls, commands, palette)
            &&& states[0] == (SurfaceState { image: start, area: None })
            &&& calls[0] == seen
            &&& done == states.len() - 1
            &&& match result {
                Ok(area) => {
                    &&& done == commands.len()
                    &&& end == states.last().image
                    &&& then == calls.last()
                    &&& area == (match states.last().area {
                        Some(rect) => rect,
                        None => InclusiveRectangle::origin(),
                    })
                },
                Err(e) => done < commands.len() && exists|after: SurfaceState| #[trigger]
                    command_step(
                        states.last(),
                        calls.last(),
                        commands[done as int],
                        palette,
                        after,
                        then,
                        Err(e),
                    ) && end == after.image,
            }
        };
    match result {
        Ok(_) => {
            let k: int = 0;
            let after = states[k + 1];
            assert(after.image == end);
        },
        Err(e) => {
            let after = choose|after: SurfaceState| #[trigger]
                command_step(
                    states.last(),
                    calls.last(),
                    commands[done as int],
                    palette,
                    after,
                    then,
                    Err(e),
                ) && end == after.image;
            assert(after.image == end);
        },
    }
}

} // verus!
