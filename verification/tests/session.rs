use rdp_session::bitmap_updates::{Inflated, RlePixelFormat};
use rdp_session::complete_data::CompleteData;
use rdp_session::cursor::ReadCursor;
use rdp_session::error::{DecodeError, EncodeError, SessionError};
use rdp_session::fast_path::{CompleteUpdate, Processor, ProcessorBuilder};
use rdp_session::fast_path_pdu::{
    CompressionFlags, CompressionType, EncryptionFlags, FastPathHeader, FastPathUpdatePdu, Fragmentation,
    UpdateCode,
};
use rdp_session::fast_path_update::{FastPathOrdersUpdate, FastPathPaletteUpdate, FastPathUpdate, PointerCode};
use rdp_session::geometry::InclusiveRectangle;
use rdp_session::image::DecodedImage;
use rdp_session::palette::PaletteEntry;
use rdp_session::pixel_format::PixelFormat;
use rdp_session::pointer_updates::UpdateKind;

fn processor(bulk_compression: bool) -> Processor {
    ProcessorBuilder {
        io_channel_id: 1003,
        user_channel_id: 1004,
        share_id: 0,
        enable_server_pointer: false,
        pointer_software_rendering: false,
        bulk_compression,
    }
    .build()
}

fn image() -> DecodedImage {
    DecodedImage::new(PixelFormat::RgbA32, 16, 16)
}

fn part<'a>(fragmentation: Fragmentation, flags: Option<u8>, data: &'a [u8]) -> FastPathUpdatePdu<'a> {
    FastPathUpdatePdu {
        fragmentation,
        update_code: UpdateCode::Orders,
        compression_flags: flags.map(CompressionFlags),
        compression_type: flags.map(|_| CompressionType::K64),
        data,
    }
}

fn white_rectangle() -> Vec<u8> {
    vec![0x09, 0x0A, 0x7F, 2, 0, 3, 0, 4, 0, 5, 0, 255, 255, 255]
}

#[test]
fn a_packet_with_fragments_is_processed() {
    let mut processor = processor(false);
    let mut image = image();
    let mut update = vec![1, 0];
    update.extend(white_rectangle());
    let mut packet = Vec::new();
    let parts = [
        part(Fragmentation::First, None, &update[..5]),
        part(Fragmentation::Next, None, &update[5..9]),
        part(Fragmentation::Last, None, &update[9..]),
    ];
    let size = parts.iter().map(|p| p.size()).sum::<usize>();
    let header = FastPathHeader { flags: EncryptionFlags(0), data_length: size, forced_long_length: false };
    header.encode(&mut packet).unwrap();
    for p in &parts {
        p.encode(&mut packet).unwrap();
    }

    let mut input = ReadCursor::new(&packet);
    assert!(processor.can_begin_packet(&image));
    assert!(processor.begin_packet(&mut image, &mut input).unwrap().is_empty());
    let mut updates = Vec::new();
    let mut acknowledged = Vec::new();
    while !input.is_empty() {
        let (pdu, bulk) = processor.next_part(&mut input).unwrap();
        assert_eq!(bulk, None);
        if let Some(data) = processor.complete_update(pdu.data, pdu.fragmentation) {
            assert_eq!(data, update);
            match FastPathUpdate::decode_with_code(&data, pdu.update_code).unwrap() {
                FastPathUpdate::Orders(orders) => {
                    let whole = CompleteUpdate::Orders(orders, Vec::new());
                    assert!(processor.can_process_update(&image, &whole));
                    updates.extend(processor.process_update(&mut image, whole, &mut acknowledged).unwrap());
                }
                other => panic!("unexpected update {:?}", other),
            }
        }
    }
    assert!(matches!(updates[..], [UpdateKind::Region(InclusiveRectangle { left: 2, top: 3, right: 5, bottom: 7 })]));
    assert_eq!(image.data()[(3 * 16 + 2) * 4..][..4], [255, 255, 255, 255]);
    assert!(acknowledged.is_empty());
}

#[test]
fn bulk_compression_is_recognised() {
    let flags = |bulk: bool, flags: Option<u8>| {
        let mut bytes = Vec::new();
        part(Fragmentation::Single, flags, &[1, 2]).encode(&mut bytes).unwrap();
        let mut input = ReadCursor::new(&bytes);
        processor(bulk).next_part(&mut input).unwrap().1
    };
    let k64 = u32::from(CompressionType::K64.as_u8());
    assert_eq!(flags(true, Some(CompressionFlags::COMPRESSED)), Some(0x20 | k64));
    assert_eq!(flags(true, Some(CompressionFlags::FLUSHED)), Some(0x80 | k64));
    assert_eq!(flags(true, Some(CompressionFlags::AT_FRONT)), None);
    assert_eq!(flags(true, None), None);
    assert_eq!(flags(false, Some(CompressionFlags::COMPRESSED)), None);
}

#[test]
fn packets_that_end_too_early_are_errors() {
    let mut processor = processor(false);
    let missing = processor.begin_packet(&mut image(), &mut ReadCursor::new(&[])).unwrap_err();
    assert!(matches!(missing, SessionError::Decode(DecodeError::NotEnoughBytes { received: 0, .. })));
    let missing = processor.next_part(&mut ReadCursor::new(&[0x04])).unwrap_err();
    assert!(matches!(missing, SessionError::Decode(DecodeError::NotEnoughBytes { .. })));
}

#[test]
fn updates_that_cannot_be_decoded_are_reported() {
    let mut processor = processor(false);
    let mut output = Vec::new();
    let invalid = DecodeError::InvalidField { field: "updateCode", reason: "unknown" };
    let updates = processor.process_update(&mut image(), CompleteUpdate::Invalid(invalid), &mut output).unwrap();
    assert!(matches!(updates[..], [UpdateKind::Nothing]));
    let short = DecodeError::NotEnoughBytes { received: 1, expected: 2 };
    let error = processor.process_update(&mut image(), CompleteUpdate::Invalid(short), &mut output).unwrap_err();
    assert_eq!(error, SessionError::Decode(short));
}

#[test]
fn other_updates_are_processed() {
    let mut processor = processor(false);
    let mut image = image();
    let mut output = Vec::new();
    let palette = FastPathPaletteUpdate { entries: vec![PaletteEntry { red: 9, green: 8, blue: 7 }] };
    let updates = processor.process_update(&mut image, CompleteUpdate::Palette(palette), &mut output).unwrap();
    assert!(updates.is_empty());
    assert_eq!(processor.palette().get(0), [9, 8, 7]);
    assert_eq!(processor.palette().to_pointer_palette()[0], [9, 8, 7]);
    assert_eq!(processor.palette().to_pointer_palette()[5], [5, 5, 5]);
    let updates = processor.process_update(&mut image, CompleteUpdate::Synchronize, &mut output).unwrap();
    assert!(updates.is_empty());
    let broken = FastPathOrdersUpdate { number_orders: 1, order_data: &[0x09] };
    let whole = CompleteUpdate::Orders(broken, Vec::new());
    let error = processor.process_update(&mut image, whole, &mut output).unwrap_err();
    assert!(matches!(error, SessionError::Decode(DecodeError::NotEnoughBytes { .. })));
}

fn compressed_bitmap(bpp: u8) -> Vec<u8> {
    vec![
        1, 0, 1, 0, // one bitmap
        0, 0, 0, 0, 0, 0, 0, 0, // at the origin
        1, 0, 1, 0, // one pixel
        bpp, 0, 0x01, 0x04, // compressed, without a header
        1, 0, 0xAA, // data
    ]
}

#[test]
fn compressed_bitmaps_are_drawn_once_decompressed() {
    let mut draw = |bpp, inflated: Option<Inflated>| {
        let mut image = image();
        let data = compressed_bitmap(bpp);
        let result = processor(false).process_slow_path_bitmap(&mut image, &data, &[inflated]);
        (result.unwrap().len(), image.data()[..4].to_vec())
    };
    let rle = |format, data: &[u8]| Some(Inflated { format, data: data.to_vec() });
    assert_eq!(draw(24, rle(RlePixelFormat::Rgb24, &[1, 2, 3])), (1, vec![3, 2, 1, 255]));
    assert_eq!(draw(16, rle(RlePixelFormat::Rgb16, &[0xE0, 0x07])), (1, vec![0, 255, 0, 255]));
    assert_eq!(draw(15, rle(RlePixelFormat::Rgb15, &[0xE0, 0x03])), (1, vec![0, 255, 0, 255]));
    assert_eq!(draw(8, rle(RlePixelFormat::Rgb8, &[6])), (1, vec![6, 6, 6, 255]));
    assert_eq!(draw(32, rle(RlePixelFormat::Rgb24, &[1, 2, 3])), (1, vec![1, 2, 3, 255]));
    assert_eq!(draw(24, None).1, vec![0, 0, 0, 0]);
}

#[test]
fn uncompressed_pixels_with_three_bytes_are_blue_first() {
    let mut data = compressed_bitmap(24);
    data[18] = 0;
    data[19] = 0;
    data.splice(20..23, [3u8, 0, 10, 20, 30]);
    let mut image = image();
    processor(false).process_slow_path_bitmap(&mut image, &data, &[]).unwrap();
    assert_eq!(image.data()[..4], [30, 20, 10, 255]);
}

#[test]
fn orders_draw_the_same_on_both_paths() {
    let mut data = white_rectangle();
    data.extend([0x01, 0x0F, 1, 0, 1, 0, 3, 0, 3, 0]);
    data.extend([0x09, 0x00, 0x1F, 0, 0, 0, 0, 8, 0, 8, 0, 0x55]);
    let (mut slow, mut fast) = (processor(false), processor(false));
    let (mut slow_image, mut fast_image) = (image(), image());
    let slow_updates = slow.process_slow_path_orders(&mut slow_image, 3, &data, &[]).unwrap();
    let orders = FastPathOrdersUpdate { number_orders: 3, order_data: &data };
    let update = CompleteUpdate::Orders(orders, Vec::new());
    let fast_updates = fast.process_update(&mut fast_image, update, &mut Vec::new()).unwrap();
    assert_eq!(slow_image.data(), fast_image.data());
    assert_eq!(slow_updates.len(), 3);
    for (a, b) in slow_updates.iter().zip(&fast_updates) {
        assert!(matches!((a, b), (UpdateKind::Region(a), UpdateKind::Region(b)) if a == b));
    }
    // The next order starts from the same values.
    let again = [0x01, 0x00];
    slow.process_slow_path_orders(&mut slow_image, 1, &again, &[]).unwrap();
    fast.process_slow_path_orders(&mut fast_image, 1, &again, &[]).unwrap();
    assert_eq!(slow_image.data(), fast_image.data());
}

#[test]
fn orders_that_need_a_decoder_are_found() {
    let mut data = white_rectangle();
    data.extend([0x03, 29, 0, 0, 0, 2, 0, 5, 0, 2, 0, 1, 0, 24, 0, 0, 0, 6, 0, 1, 2, 3, 4, 5, 6]);
    let requests = processor(false).orders_to_inflate(9, &data);
    assert_eq!(requests.len(), 2);
    assert!(requests[0].is_none());
    let request = requests[1].unwrap();
    assert_eq!((request.data, request.width, request.height, request.bpp), (&[1, 2, 3, 4, 5, 6][..], 2, 1, 24));
}

#[test]
fn orders_can_be_tried_in_advance() {
    let processor = processor(false);
    assert!(processor.can_process_orders(1, &white_rectangle(), &[]));
    // A bitmap for the cache without its pixels
    let short = [0x03, 23, 0, 0, 0, 2, 0, 0, 0, 2, 0, 1, 0, 24, 0, 0, 4, 6, 0];
    assert!(!processor.can_process_orders(1, &short, &[]));
    assert!(processor.can_process_orders(0, &short, &[]));
}

#[test]
fn only_orders_that_are_processed_have_to_be_complete() {
    // A bitmap for the cache with seven bits per pixel, then one without its pixels
    let mut data = vec![0x03, 23, 0, 0, 0, 2, 0, 0, 0, 2, 0, 1, 0, 7, 0, 0, 4, 0, 0];
    data.extend([0x03, 23, 0, 0, 0, 2, 0, 0, 0, 2, 0, 1, 0, 24, 0, 0, 4, 6, 0]);
    let mut slow = processor(false);
    assert!(slow.can_process_orders(2, &data, &[]));
    let result = slow.process_slow_path_orders(&mut image(), 2, &data, &[]);
    assert_eq!(result.unwrap_err(), SessionError::UnsupportedBpp(7));
    let orders = FastPathOrdersUpdate { number_orders: 2, order_data: &data };
    let update = CompleteUpdate::Orders(orders, Vec::new());
    let result = processor(false).process_if_accepted(&mut image(), update, &mut Vec::new());
    assert_eq!(result.unwrap().unwrap_err(), SessionError::UnsupportedBpp(7));

    // There is no fourth cache.
    data[6] = 3;
    data[13] = 24;
    data[17] = 6;
    data.splice(19..19, [1, 2, 3, 4, 5, 6]);
    data[1] = 29;
    assert!(slow.can_process_orders(2, &data, &[]));
    let result = slow.process_slow_path_orders(&mut image(), 2, &data, &[]);
    assert_eq!(result.unwrap_err(), SessionError::InvalidCacheId(3));
    data[6] = 0;
    assert!(!slow.can_process_orders(2, &data, &[]));
}

#[test]
fn a_bad_order_ends_the_update() {
    let mut good = white_rectangle();
    good.extend([0x01, 0x0F, 1, 0, 1, 0, 3, 0, 3, 0]);
    let mut all = good.clone();
    all.extend([0x09, 0x77, 1, 2, 3]);
    let (mut alone_image, mut all_image) = (image(), image());
    let alone = processor(false).process_slow_path_orders(&mut alone_image, 2, &good, &[]).unwrap();
    let updates = processor(false).process_slow_path_orders(&mut all_image, 9, &all, &[]).unwrap();
    assert_eq!(updates.len(), 2);
    for (a, b) in updates.iter().zip(&alone) {
        assert!(matches!((a, b), (UpdateKind::Region(a), UpdateKind::Region(b)) if a == b));
    }
    assert_eq!(all_image.data(), alone_image.data());
}

#[test]
fn the_parts_of_an_update_make_the_whole() {
    let mut data = CompleteData::new();
    assert_eq!(data.process_data(&[1], Fragmentation::Next), None);
    assert_eq!(data.process_data(&[2], Fragmentation::Last), None);
    assert_eq!(data.process_data(&[1], Fragmentation::First), None);
    assert_eq!(data.process_data(&[2], Fragmentation::Next), None);
    assert_eq!(data.process_data(&[3], Fragmentation::Last), Some(vec![1, 2, 3]));
    assert_eq!(data.process_data(&[4], Fragmentation::First), None);
    assert_eq!(data.process_data(&[5], Fragmentation::Single), Some(vec![5]));
    assert_eq!(data.process_data(&[6], Fragmentation::Last), None);
}

#[test]
fn headers_are_read_as_they_were_written() {
    for data_length in [0, 1, 125, 126, 484, 16380] {
        for forced_long_length in [false, true] {
            let header = FastPathHeader { flags: EncryptionFlags(3), data_length, forced_long_length };
            let mut bytes = Vec::new();
            header.encode(&mut bytes).unwrap();
            assert_eq!(bytes.len(), header.size());
            let back = FastPathHeader::decode(&mut ReadCursor::new(&bytes)).unwrap();
            assert_eq!((back.flags, back.data_length), (header.flags, header.data_length));
        }
    }
    let long = FastPathHeader { flags: EncryptionFlags(0), data_length: 0x10000, forced_long_length: false };
    assert_eq!(long.encode(&mut Vec::new()), Err(EncodeError::LengthTooLarge));
}

#[test]
fn updates_have_their_codes() {
    let decode = |data: &'static [u8], code| FastPathUpdate::decode_with_code(data, code).unwrap();
    assert!(matches!(decode(&[7], UpdateCode::SurfaceCommands), FastPathUpdate::SurfaceCommands([7])));
    assert!(matches!(decode(&[8], UpdateCode::CachedPointer), FastPathUpdate::Pointer(PointerCode::Cached, [8])));
    let bitmap = decode(&[1, 0, 0, 0], UpdateCode::Bitmap);
    assert!(matches!(&bitmap, FastPathUpdate::Bitmap(b) if b.rectangles.is_empty()));
    assert_eq!(UpdateCode::from(&bitmap), UpdateCode::Bitmap);
    let orders = decode(&[2, 0, 9], UpdateCode::Orders);
    assert!(matches!(&orders, FastPathUpdate::Orders(o) if o.number_orders == 2 && o.order_data == [9]));
}
