use rdp_session::color_conversion::{rdp_15bit_to_rgb, rdp_16bit_to_rgb};
use rdp_session::cursor::ReadCursor;
use rdp_session::drawing_orders::{DrawingOrder, DrawingOrderState, PrimaryOrderData, PrimaryOrderType};
use rdp_session::error::DecodeError;
use rdp_session::fast_path_pdu::UpdateCode;
use rdp_session::fast_path_update::FastPathUpdate;
use rdp_session::geometry::InclusiveRectangle;
use rdp_session::image::DecodedImage;
use rdp_session::order_decoding::decode_order;
use rdp_session::order_rendering::combine_rectangles;
use rdp_session::palette::{ColorPalette, PaletteEntry, PaletteUpdate};
use rdp_session::pixel_format::PixelFormat;
use rdp_session::pointer::DecodedPointer;

const RECT: InclusiveRectangle = InclusiveRectangle { left: 2, top: 3, right: 6, bottom: 4 };

/// An image whose pixels all differ.
fn image() -> DecodedImage {
    let mut image = DecodedImage::new(PixelFormat::RgbA32, 9, 9);
    for y in 0..9 {
        for x in 0..9 {
            let dot = InclusiveRectangle { left: x, top: y, right: x, bottom: y };
            image.fill_rectangle(&dot, [x as u8, y as u8, 7, 255]).unwrap();
        }
    }
    image
}

fn pixel(image: &DecodedImage, x: u16, y: u16) -> [u8; 4] {
    let at = (usize::from(y) * usize::from(image.width()) + usize::from(x)) * 4;
    image.data()[at..at + 4].try_into().unwrap()
}

fn inside(rect: &InclusiveRectangle, x: u16, y: u16) -> bool {
    rect.left <= x && x <= rect.right && rect.top <= y && y <= rect.bottom
}

#[test]
fn inverting_twice_changes_nothing() {
    let mut twice = image();
    twice.invert_rectangle(&RECT).unwrap();
    assert_ne!(twice.data(), image().data());
    twice.invert_rectangle(&RECT).unwrap();
    assert_eq!(twice.data(), image().data());
}

#[test]
fn filling_sets_the_rectangle_and_nothing_else() {
    let before = image();
    let mut after = image();
    after.fill_rectangle(&RECT, [1, 2, 3, 4]).unwrap();
    for y in 0..9 {
        for x in 0..9 {
            let expected = if inside(&RECT, x, y) { [1, 2, 3, 4] } else { pixel(&before, x, y) };
            assert_eq!(pixel(&after, x, y), expected);
        }
    }
}

#[test]
fn copying_moves_what_was_there_before() {
    let before = image();
    let mut after = image();
    after.copy_rectangle(1, 2, &RECT).unwrap();
    for y in 0..9 {
        for x in 0..9 {
            let expected = if inside(&RECT, x, y) { pixel(&before, x - 1, y - 1) } else { pixel(&before, x, y) };
            assert_eq!(pixel(&after, x, y), expected);
        }
    }
}

#[test]
fn copies_are_cut_off_at_the_edges() {
    let before = image();
    let mut after = image();
    let rect = InclusiveRectangle { left: 1, top: 2, right: 5, bottom: 6 };
    after.copy_rectangle(6, 7, &rect).unwrap();
    for y in 0..9 {
        for x in 0..9 {
            let moved = (1..4).contains(&x) && (2..4).contains(&y);
            let expected = if moved { pixel(&before, x + 5, y + 5) } else { pixel(&before, x, y) };
            assert_eq!(pixel(&after, x, y), expected);
        }
    }
    let mut from_the_edge = image();
    from_the_edge.copy_rectangle(-3, 0, &rect).unwrap();
    assert_eq!(pixel(&from_the_edge, 1, 2), pixel(&before, 0, 0));
    let mut nothing = image();
    nothing.copy_rectangle(9, 0, &rect).unwrap();
    assert_eq!(nothing.data(), before.data());
}

#[test]
fn bytes_in_the_order_of_the_image_are_taken_over() {
    let mut image = image();
    let rect = InclusiveRectangle { left: 3, top: 4, right: 3, bottom: 5 };
    image.apply_rgb32_bitmap(&[1, 2, 3, 4, 5, 6, 7, 8], PixelFormat::RgbA32, &rect).unwrap();
    assert_eq!(pixel(&image, 3, 5), [1, 2, 3, 4]);
    assert_eq!(pixel(&image, 3, 4), [5, 6, 7, 8]);
}

#[test]
fn operations_keep_the_shape_of_the_image() {
    let mut image = DecodedImage::new(PixelFormat::BgrA32, 9, 5);
    let pointer = || {
        let bitmap_data = vec![255; 16];
        std::sync::Arc::new(DecodedPointer { width: 2, height: 2, hotspot_x: 0, hotspot_y: 0, bitmap_data })
    };
    image.fill_rectangle(&RECT, [1, 2, 3, 4]).unwrap();
    image.update_pointer(pointer()).unwrap();
    image.invert_rectangle(&RECT).unwrap();
    image.move_pointer(2, 3).unwrap();
    image.copy_rectangle(1, 1, &RECT).unwrap();
    image.draw_line(-3, 0, 20, 30, [9, 9, 9, 9]).unwrap();
    image.hide_pointer().unwrap();
    image.apply_rgb24(&[7; 30], &RECT, true).unwrap();
    image.apply_indexed8_bitmap(&[7; 10], &ColorPalette::new(), &RECT).unwrap();
    image.show_pointer().unwrap();
    assert_eq!((image.width(), image.height()), (9, 5));
    assert_eq!(image.pixel_format(), PixelFormat::BgrA32);
    assert_eq!(image.stride(), 9 * image.bytes_per_pixel());
    assert_eq!(image.data().len(), image.stride() * 5);
}

#[test]
fn combined_rectangles_are_tight() {
    let a = InclusiveRectangle { left: 2, top: 9, right: 4, bottom: 11 };
    let b = InclusiveRectangle { left: 3, top: 1, right: 8, bottom: 2 };
    let all = InclusiveRectangle { left: 2, top: 1, right: 8, bottom: 11 };
    assert_eq!(combine_rectangles(&[a, b]), Some(all));
    assert_eq!(combine_rectangles(&[]), None);
}

#[test]
fn a_row_beyond_the_edge_goes_on_in_the_next() {
    let before = image();
    let mut after = image();
    let wide = InclusiveRectangle { left: 5, top: 5, right: 9, bottom: 8 };
    after.fill_rectangle(&wide, [1, 1, 1, 1]).unwrap();
    for y in 0..9 {
        for x in 0..9 {
            let painted = inside(&wide, x, y) || (x == 0 && y >= 6);
            let expected = if painted { [1, 1, 1, 1] } else { pixel(&before, x, y) };
            assert_eq!(pixel(&after, x, y), expected);
        }
    }
}

#[test]
fn lines_connect_their_ends_without_gaps() {
    for (x0, y0, x1, y1) in [(1, 1, 7, 3), (7, 8, 2, 0), (4, 4, 4, 4), (0, 6, 8, 6)] {
        let mut image = DecodedImage::new(PixelFormat::RgbA32, 9, 9);
        image.draw_line(x0, y0, x1, y1, [255, 255, 255, 255]).unwrap();
        let white = |x: i16, y: i16| pixel(&image, x as u16, y as u16) == [255; 4];
        assert!(white(x0, y0) && white(x1, y1));
        let steps = (x1 - x0).abs().max((y1 - y0).abs());
        let count = (0..9).map(|y| (0..9).filter(|x| white(*x, y)).count()).sum::<usize>();
        assert_eq!(count, steps as usize + 1);
        for y in 0..9 {
            for x in 0..9 {
                if white(x, y) {
                    assert!(x0.min(x1) <= x && x <= x0.max(x1) && y0.min(y1) <= y && y <= y0.max(y1));
                }
            }
        }
    }
}

#[test]
fn intensities_keep_their_order() {
    for i in 0..31u16 {
        assert!(rdp_15bit_to_rgb(i)[2] < rdp_15bit_to_rgb(i + 1)[2]);
    }
    for i in 0..63u16 {
        assert!(rdp_16bit_to_rgb(i << 5)[1] < rdp_16bit_to_rgb((i + 1) << 5)[1]);
    }
}

#[test]
fn palette_updates_are_bounded() {
    let mut palette = ColorPalette::new();
    let entries = (0..300u16).map(|i| PaletteEntry { red: (i % 256) as u8, green: 1, blue: 2 }).collect();
    let update = PaletteUpdate { entries };
    palette.update(&update);
    let once: Vec<[u8; 3]> = (0..=255).map(|i| palette.get(i)).collect();
    assert_eq!(once[255], [255, 1, 2]);
    palette.update(&update);
    let again: Vec<[u8; 3]> = (0..=255).map(|i| palette.get(i)).collect();
    assert_eq!(once, again);
}

fn dstblt(order: &DrawingOrder<'_>) -> (i16, i16, u8) {
    match order {
        DrawingOrder::Primary(primary) => match &primary.data {
            PrimaryOrderData::DstBlt(o) => (o.x, o.y, o.rop),
            other => panic!("unexpected data {:?}", other),
        },
        other => panic!("unexpected order {:?}", other),
    }
}

#[test]
fn orders_repeat_what_they_do_not_tell() {
    let mut state = DrawingOrderState::new();
    // A rectangle, another order, a secondary order, and the rectangle over again
    let data = [
        0x09, 0x00, 0x13, 5, 0, 6, 0, 0x55, // type, x, y, raster operation
        0x09, 0x02, 0x01, 9, 0, // another type, x
        0x03, 10, 0, 0, 0, 0x07, // an empty secondary order
        0x09, 0x00, 0x00, // the first type, without fields
        0x01, 0x01, 8, 0, // the same type, with another x
    ];
    let mut cursor = ReadCursor::new(&data);
    let first = decode_order(&mut cursor, &mut state).unwrap();
    assert_eq!(dstblt(&first), (5, 6, 0x55));
    assert_eq!(cursor.len(), 18);
    decode_order(&mut cursor, &mut state).unwrap();
    assert_eq!(state.primary_order_type, Some(PrimaryOrderType::ScrBlt));
    assert_eq!((state.scrblt.x, state.dstblt.x), (9, 5));
    assert_eq!(cursor.len(), 13);
    assert!(matches!(decode_order(&mut cursor, &mut state), Ok(DrawingOrder::Secondary(s)) if s.data.is_empty()));
    assert_eq!(state.primary_order_type, Some(PrimaryOrderType::ScrBlt));
    let again = decode_order(&mut cursor, &mut state).unwrap();
    assert_eq!(dstblt(&again), (5, 6, 0x55));
    let last = decode_order(&mut cursor, &mut state).unwrap();
    assert_eq!(dstblt(&last), (8, 6, 0x55));
    assert_eq!(state.scrblt.x, 9);
    assert!(cursor.is_empty());
    assert!(decode_order(&mut cursor, &mut state).is_err());
}

#[test]
fn orders_without_meaning_are_errors() {
    let decode = |data: &[u8]| decode_order(&mut ReadCursor::new(data), &mut DrawingOrderState::new()).map(|_| ()).unwrap_err();
    assert!(matches!(decode(&[]), DecodeError::NotEnoughBytes { received: 0, expected: 1 }));
    assert!(matches!(decode(&[0x01, 0x00]), DecodeError::InvalidField { .. }));
    assert!(matches!(decode(&[0x09, 0xFF]), DecodeError::InvalidField { .. }));
    assert!(matches!(decode(&[0x03, 10, 0, 0, 0, 0xFF]), DecodeError::InvalidField { .. }));
    assert!(matches!(decode(&[0x09, 0x00, 0x1F, 1]), DecodeError::NotEnoughBytes { .. }));
}

#[test]
fn decoded_updates_keep_their_code() {
    for code in [
        UpdateCode::SurfaceCommands,
        UpdateCode::HiddenPointer,
        UpdateCode::DefaultPointer,
        UpdateCode::PositionPointer,
        UpdateCode::ColorPointer,
        UpdateCode::CachedPointer,
        UpdateCode::NewPointer,
        UpdateCode::LargePointer,
        UpdateCode::Synchronize,
    ] {
        let update = FastPathUpdate::decode_with_code(&[], code).unwrap();
        assert_eq!(UpdateCode::from(&update), code);
    }
}
