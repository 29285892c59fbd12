use rdp_session::error::SessionError;
use rdp_session::fast_path::{CompleteUpdate, Processor, ProcessorBuilder};
use rdp_session::frame_marker::{FrameAcknowledge, FrameAction, FrameMarkerPdu};
use rdp_session::geometry::InclusiveRectangle;
use rdp_session::image::DecodedImage;
use rdp_session::pixel_format::PixelFormat;
use rdp_session::pointer_updates::UpdateKind;
use rdp_session::surface_commands::{
    apply_qoi_image, has_room_for_commands, qoi_apply, CodecId, ExclusiveRectangle, RfxFrame, RfxStream,
    RfxTile, SurfaceBits, SurfaceCommand,
};
use rdp_session::zstd_stream::{next_buffer, BufferStep};

fn processor() -> Processor {
    ProcessorBuilder {
        io_channel_id: 1003,
        user_channel_id: 1004,
        share_id: 7,
        enable_server_pointer: false,
        pointer_software_rendering: false,
        bulk_compression: false,
    }
    .build()
}

fn image() -> DecodedImage {
    DecodedImage::new(PixelFormat::RgbA32, 8, 8)
}

fn no_frames() -> RfxStream {
    RfxStream { frames: Vec::new(), failed: false }
}

fn bits<'a>(codec_id: u8, bpp: u8, right: u16, bottom: u16, data: &'a [u8]) -> SurfaceCommand<'a> {
    SurfaceCommand::SetSurfaceBits(SurfaceBits {
        destination: ExclusiveRectangle { left: 0, top: 0, right, bottom },
        bpp,
        codec_id,
        data,
        frames: no_frames(),
    })
}

fn run(
    processor: &mut Processor,
    image: &mut DecodedImage,
    commands: Vec<SurfaceCommand<'_>>,
) -> (Result<Vec<UpdateKind>, SessionError>, Vec<FrameAcknowledge>) {
    let update = CompleteUpdate::SurfaceCommands(commands);
    assert!(processor.can_process_update(image, &update));
    let mut acknowledged = Vec::new();
    let result = processor.process_update(image, update, &mut acknowledged);
    (result, acknowledged)
}

fn region(updates: &[UpdateKind]) -> InclusiveRectangle {
    match updates {
        [UpdateKind::Region(rect)] => *rect,
        other => panic!("unexpected updates {:?}", other),
    }
}

const PIXELS: [u8; 12] = [10, 20, 30, 40, 50, 60, 70, 80, 90, 100, 110, 120];

#[test]
fn a_qoi_image_is_drawn_top_down() {
    let data = qoi::encode_to_vec(PIXELS, 2, 2).unwrap();
    let mut image = image();
    let (result, _) = run(&mut processor(), &mut image, vec![bits(0x0A, 24, 2, 2, &data)]);
    assert_eq!(region(&result.unwrap()), InclusiveRectangle { left: 0, top: 0, right: 1, bottom: 1 });
    assert_eq!(image.data()[..8], [10, 20, 30, 255, 40, 50, 60, 255]);
    assert_eq!(image.data()[32..40], [70, 80, 90, 255, 100, 110, 120, 255]);
    assert_eq!(image.data()[8..12], [0, 0, 0, 0]);
}

#[test]
fn a_qoi_image_with_opacity_is_drawn() {
    let data = qoi::encode_to_vec([1u8, 2, 3, 4, 5, 6, 7, 8], 2, 1).unwrap();
    let mut image = image();
    let (result, _) = run(&mut processor(), &mut image, vec![bits(0x0A, 32, 2, 1, &data)]);
    assert!(result.is_ok());
    assert_eq!(image.data()[..3], [1, 2, 3]);
    assert_eq!(image.data()[4..7], [5, 6, 7]);
}

#[test]
fn a_compressed_qoi_image_is_drawn() {
    let data = qoi::encode_to_vec(PIXELS, 2, 2).unwrap();
    let mut compressed = Vec::with_capacity(zstd_safe::compress_bound(data.len()));
    zstd_safe::compress(&mut compressed, &data, 3).unwrap();
    let mut image = image();
    let (result, _) = run(&mut processor(), &mut image, vec![bits(0x0B, 24, 2, 2, &compressed)]);
    assert_eq!(region(&result.unwrap()), InclusiveRectangle { left: 0, top: 0, right: 1, bottom: 1 });
    assert_eq!(image.data()[..8], [10, 20, 30, 255, 40, 50, 60, 255]);
}

#[test]
fn a_large_compressed_qoi_image_is_drawn() {
    let mut image = DecodedImage::new(PixelFormat::RgbA32, 64, 64);
    let mut row = Vec::new();
    let mut seed = 1u32;
    for _ in 0..64 * 3 {
        seed = seed.wrapping_mul(1664525).wrapping_add(1013904223);
        row.push((seed >> 24) as u8);
    }
    let data = qoi::encode_to_vec(row.repeat(64), 64, 64).unwrap();
    let mut compressed = Vec::with_capacity(zstd_safe::compress_bound(data.len()));
    zstd_safe::compress(&mut compressed, &data, 3).unwrap();
    assert!(data.len() > compressed.len() * 4);
    let (result, _) = run(&mut processor(), &mut image, vec![bits(0x0B, 24, 64, 64, &compressed)]);
    assert!(result.is_ok());
    assert_eq!(image.data()[64 * 64 * 4 - 4..], [row[189], row[190], row[191], 255]);
}

fn flushed(stream: &mut zstd_safe::CCtx<'_>, data: &[u8]) -> Vec<u8> {
    let mut compressed = vec![0u8; 1024];
    let mut input = zstd_safe::InBuffer::around(data);
    let len = {
        let mut output = zstd_safe::OutBuffer::around(compressed.as_mut_slice());
        stream.compress_stream(&mut output, &mut input).unwrap();
        stream.flush_stream(&mut output).unwrap();
        output.pos()
    };
    assert_eq!(input.pos, data.len());
    compressed.truncate(len);
    compressed
}

#[test]
fn a_stream_goes_on_from_image_to_image() {
    let mut other = PIXELS;
    other[0] = 200;
    let mut stream = zstd_safe::CCtx::default();
    let first = flushed(&mut stream, &qoi::encode_to_vec(PIXELS, 2, 2).unwrap());
    let second = flushed(&mut stream, &qoi::encode_to_vec(other, 2, 2).unwrap());

    let mut whole = processor();
    let mut drawn = image();
    assert!(run(&mut whole, &mut drawn, vec![bits(0x0B, 24, 2, 2, &first)]).0.is_ok());
    assert_eq!(drawn.data()[..4], [10, 20, 30, 255]);
    assert!(run(&mut whole, &mut drawn, vec![bits(0x0B, 24, 2, 2, &second)]).0.is_ok());
    assert_eq!(drawn.data()[..4], [200, 20, 30, 255]);

    let mut halved = image();
    let (result, _) = run(&mut processor(), &mut halved, vec![bits(0x0B, 24, 2, 2, &second)]);
    assert!(matches!(result, Err(SessionError::Zstd(_))));
    assert!(halved.data().iter().all(|b| *b == 0));
}

#[test]
fn a_broken_stream_is_an_error() {
    let mut image = image();
    let (result, _) = run(&mut processor(), &mut image, vec![bits(0x0B, 24, 2, 2, &[1, 2, 3, 4, 5, 6])]);
    assert!(matches!(result, Err(SessionError::Zstd(_))));
    assert!(image.data().iter().all(|b| *b == 0));
}

#[test]
fn broken_and_ill_sized_qoi_images_are_errors() {
    let mut image = image();
    let place = InclusiveRectangle { left: 0, top: 0, right: 2, bottom: 1 };
    let mut area = None;
    assert_eq!(qoi_apply(&mut image, &place, &[1, 2, 3], &mut area), Err(SessionError::Qoi));
    let data = qoi::encode_to_vec(PIXELS, 2, 2).unwrap();
    assert_eq!(
        qoi_apply(&mut image, &place, &data, &mut area),
        Err(SessionError::QoiSize { decoded: 12, expected: 18 })
    );
    assert_eq!(area, None);
    assert!(image.data().iter().all(|b| *b == 0));
}

#[test]
fn a_decoded_qoi_image_joins_the_area() {
    let mut image = image();
    let mut area = Some(InclusiveRectangle { left: 4, top: 4, right: 5, bottom: 5 });
    let place = InclusiveRectangle { left: 1, top: 1, right: 1, bottom: 1 };
    assert_eq!(apply_qoi_image(&mut image, &place, 3, &[7, 8, 9], &mut area), Ok(()));
    assert_eq!(area, Some(InclusiveRectangle { left: 1, top: 1, right: 5, bottom: 5 }));
    assert_eq!(image.data()[36..40], [7, 8, 9, 255]);
}

#[test]
fn unknown_codecs_are_errors() {
    let (result, _) = run(&mut processor(), &mut image(), vec![bits(0x01, 24, 1, 1, &[])]);
    assert_eq!(result.unwrap_err(), SessionError::UnexpectedCodecId(1));
    assert_eq!(CodecId::from_u8(0x03), Some(CodecId::RemoteFx));
    assert_eq!(CodecId::from_u8(0x04), None);
}

#[test]
fn uncompressed_bits_are_drawn_bottom_up() {
    let mut image = image();
    let (result, _) = run(
        &mut processor(),
        &mut image,
        vec![
            bits(0x00, 24, 1, 2, &[1, 2, 3, 4, 5, 6]),
            bits(0x00, 7, 1, 1, &[1]),
            bits(0x00, 32, 2, 1, &[11, 12, 13, 0, 21, 22, 23, 0]),
        ],
    );
    assert_eq!(region(&result.unwrap()), InclusiveRectangle { left: 0, top: 0, right: 1, bottom: 1 });
    assert_eq!(image.data()[..8], [13, 12, 11, 255, 23, 22, 21, 255]);
    assert_eq!(image.data()[32..36], [3, 2, 1, 255]);
}

#[test]
fn no_commands_draw_nothing() {
    let (result, acknowledged) = run(&mut processor(), &mut image(), Vec::new());
    assert_eq!(region(&result.unwrap()), InclusiveRectangle { left: 0, top: 0, right: 0, bottom: 0 });
    assert!(acknowledged.is_empty());
}

#[test]
fn ends_of_frames_are_acknowledged() {
    let marker = |frame_action, frame_id| SurfaceCommand::FrameMarker(FrameMarkerPdu { frame_action, frame_id });
    let (result, acknowledged) = run(
        &mut processor(),
        &mut image(),
        vec![
            marker(FrameAction::Begin, Some(5)),
            marker(FrameAction::End, Some(5)),
            marker(FrameAction::End, None),
            bits(0x07, 24, 1, 1, &[]),
            marker(FrameAction::End, Some(6)),
        ],
    );
    assert_eq!(result.unwrap_err(), SessionError::UnexpectedCodecId(7));
    let answer = |frame_id| FrameAcknowledge { user_channel_id: 1004, io_channel_id: 1003, share_id: 7, frame_id };
    assert_eq!(acknowledged, [answer(5), answer(0)]);
}

fn remote_fx(failed: bool) -> SurfaceCommand<'static> {
    let mut output = vec![0u8; 64 * 64 * 4];
    output[..4].copy_from_slice(&[1, 2, 3, 4]);
    let place = InclusiveRectangle { left: 0, top: 0, right: 63, bottom: 63 };
    let part = InclusiveRectangle { left: 0, top: 0, right: 1, bottom: 0 };
    let tile = RfxTile { output, format: PixelFormat::RgbA32, extents: part, region: vec![part], place };
    SurfaceCommand::StreamSurfaceBits(SurfaceBits {
        destination: ExclusiveRectangle { left: 0, top: 0, right: 8, bottom: 8 },
        bpp: 32,
        codec_id: 0x03,
        data: &[],
        frames: RfxStream { frames: vec![RfxFrame { tiles: vec![tile], rectangle: part }], failed },
    })
}

#[test]
fn tiles_are_drawn() {
    let mut image = image();
    let (result, _) = run(&mut processor(), &mut image, vec![remote_fx(false)]);
    assert_eq!(region(&result.unwrap()), InclusiveRectangle { left: 0, top: 0, right: 1, bottom: 0 });
    assert_eq!(image.data()[..3], [1, 2, 3]);
}

#[test]
fn frames_before_a_failure_are_drawn() {
    let mut image = image();
    let (result, _) = run(&mut processor(), &mut image, vec![remote_fx(true)]);
    assert_eq!(result.unwrap_err(), SessionError::RemoteFx);
    assert_eq!(image.data()[..3], [1, 2, 3]);
}

#[test]
fn bits_without_room_are_found() {
    let image = image();
    assert!(!has_room_for_commands(&image, &vec![bits(0x00, 24, 8, 8, &[0; 24 * 9])]));
    assert!(has_room_for_commands(&image, &vec![bits(0x00, 24, 8, 8, &[0; 24 * 8])]));
    assert!(!has_room_for_commands(&image, &vec![bits(0x0B, 24, 1, 1, &[])]));
    assert!(has_room_for_commands(&image, &vec![remote_fx(false)]));
}

#[test]
fn full_buffers_are_doubled() {
    assert_eq!(next_buffer(24, 23), BufferStep::Done);
    assert_eq!(next_buffer(24, 0), BufferStep::Done);
    assert_eq!(next_buffer(24, 24), BufferStep::Grow(48));
    assert_eq!(next_buffer(usize::MAX / 2, usize::MAX / 2), BufferStep::Grow(usize::MAX - 1));
    assert_eq!(next_buffer(usize::MAX / 2 + 1, usize::MAX / 2 + 1), BufferStep::TooLong);
}

#[test]
fn a_stream_that_failed_goes_on_failing() {
    let data = qoi::encode_to_vec(PIXELS, 2, 2).unwrap();
    let mut compressed = Vec::with_capacity(zstd_safe::compress_bound(data.len()));
    zstd_safe::compress(&mut compressed, &data, 3).unwrap();
    let mut processor = processor();
    let mut image = image();
    let (first, _) = run(&mut processor, &mut image, vec![bits(0x0B, 24, 2, 2, &[1, 2, 3, 4, 5, 6])]);
    let (second, _) = run(&mut processor, &mut image, vec![bits(0x0B, 24, 2, 2, &compressed)]);
    let error = first.unwrap_err();
    assert!(matches!(error, SessionError::Zstd(code) if code != 0));
    assert_eq!(second.unwrap_err(), error);
    assert!(image.data().iter().all(|b| *b == 0));
}

#[test]
fn only_commands_that_may_be_processed_need_room() {
    let large = [0; 24 * 9];
    let without_room = || bits(0x00, 24, 8, 8, &large);
    let good = qoi::encode_to_vec(PIXELS, 2, 2).unwrap();
    let mut fails = |command, error| {
        let (result, _) = run(&mut processor(), &mut image(), vec![command, without_room()]);
        assert_eq!(result.unwrap_err(), error);
    };
    fails(bits(0x77, 24, 8, 8, &large), SessionError::UnexpectedCodecId(0x77));
    fails(remote_fx(true), SessionError::RemoteFx);
    fails(bits(0x0A, 24, 2, 2, &[1, 2, 3]), SessionError::Qoi);
    fails(bits(0x0A, 24, 3, 2, &good), SessionError::QoiSize { decoded: 12, expected: 18 });

    let mut image = image();
    let update = CompleteUpdate::SurfaceCommands(vec![bits(0x0A, 24, 2, 2, &good), without_room()]);
    let mut acknowledged = Vec::new();
    assert!(processor().process_if_accepted(&mut image, update, &mut acknowledged).is_none());
    assert!(image.data().iter().all(|b| *b == 0));
    let update = CompleteUpdate::SurfaceCommands(vec![bits(0x0A, 24, 2, 2, &good)]);
    let result = processor().process_if_accepted(&mut image, update, &mut acknowledged).unwrap();
    assert_eq!(region(&result.unwrap()), InclusiveRectangle { left: 0, top: 0, right: 1, bottom: 1 });
    assert_eq!(image.data()[..4], [10, 20, 30, 255]);
}
