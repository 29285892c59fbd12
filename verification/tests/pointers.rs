use std::sync::Arc;

use rdp_session::error::SessionError;
use rdp_session::fast_path::{CompleteUpdate, Processor, ProcessorBuilder};
use rdp_session::geometry::InclusiveRectangle;
use rdp_session::image::DecodedImage;
use rdp_session::pixel_format::PixelFormat;
use rdp_session::pointer::{DecodedPointer, PointerCache};
use rdp_session::pointer_updates::{PointerUpdateData, UpdateKind};

fn processor(enable_server_pointer: bool, pointer_software_rendering: bool) -> Processor {
    ProcessorBuilder {
        io_channel_id: 1003,
        user_channel_id: 1004,
        share_id: 0,
        enable_server_pointer,
        pointer_software_rendering,
        bulk_compression: false,
    }
    .build()
}

fn image() -> DecodedImage {
    DecodedImage::new(PixelFormat::RgbA32, 10, 10)
}

/// Two by two opaque pixels of one colour.
fn pointer(color: [u8; 3]) -> Arc<DecodedPointer> {
    let pixel = [color[0], color[1], color[2], 255];
    Arc::new(DecodedPointer {
        width: 2,
        height: 2,
        hotspot_x: 0,
        hotspot_y: 0,
        bitmap_data: pixel.repeat(4),
    })
}

fn pixel(image: &DecodedImage, x: usize, y: usize) -> [u8; 4] {
    let at = (y * usize::from(image.width()) + x) * 4;
    image.data()[at..at + 4].try_into().unwrap()
}

fn update(processor: &mut Processor, image: &mut DecodedImage, update: PointerUpdateData) -> Vec<UpdateKind> {
    assert!(processor.can_process_pointer(image, &update));
    processor.process_pointer_update(image, update).unwrap()
}

#[test]
fn pointers_of_the_server_can_be_ignored() {
    let mut processor = processor(false, true);
    let mut image = image();
    let new = PointerUpdateData::New { cache_index: 1, pointer: Some(pointer([9, 9, 9])) };
    assert!(update(&mut processor, &mut image, new).is_empty());
    assert!(image.data().iter().all(|b| *b == 0));
}

#[test]
fn pointers_are_handed_to_the_user_interface() {
    let mut processor = processor(true, false);
    let mut image = image();
    let shape = pointer([9, 9, 9]);
    let color = PointerUpdateData::Color { cache_index: 4, pointer: Some(Arc::clone(&shape)) };
    assert!(matches!(&update(&mut processor, &mut image, color)[..],
        [UpdateKind::PointerBitmap(p)] if Arc::ptr_eq(p, &shape)));
    let cached = PointerUpdateData::Cached { cache_index: 4 };
    assert!(matches!(&update(&mut processor, &mut image, cached)[..],
        [UpdateKind::PointerHidden, UpdateKind::PointerBitmap(p)] if Arc::ptr_eq(p, &shape)));
    assert!(update(&mut processor, &mut image, PointerUpdateData::Cached { cache_index: 5 }).is_empty());
    assert!(matches!(update(&mut processor, &mut image, PointerUpdateData::SetHidden)[..], [UpdateKind::PointerHidden]));
    assert!(matches!(update(&mut processor, &mut image, PointerUpdateData::SetDefault)[..], [UpdateKind::PointerDefault]));
    assert!(matches!(
        update(&mut processor, &mut image, PointerUpdateData::SetPosition { x: 3, y: 4 })[..],
        [UpdateKind::PointerPosition { x: 3, y: 4 }]
    ));
    assert!(image.data().iter().all(|b| *b == 0));
}

#[test]
fn a_pointer_that_cannot_be_decoded_is_an_error() {
    let mut processor = processor(true, false);
    let large = PointerUpdateData::Large { cache_index: 0, pointer: None };
    assert_eq!(processor.process_pointer_update(&mut image(), large).unwrap_err(), SessionError::Pointer);
}

#[test]
fn pointers_are_drawn_and_taken_away() {
    let mut processor = processor(true, true);
    let mut image = image();
    image.fill_rectangle(&InclusiveRectangle { left: 0, top: 0, right: 9, bottom: 9 }, [5, 6, 7, 255]).unwrap();
    let before = image.data().to_vec();
    let new = PointerUpdateData::New { cache_index: 1, pointer: Some(pointer([200, 100, 50])) };
    update(&mut processor, &mut image, new);
    update(&mut processor, &mut image, PointerUpdateData::Cached { cache_index: 1 });
    assert_eq!(pixel(&image, 1, 1), [200, 100, 50, 255]);
    assert_eq!(pixel(&image, 2, 2), [5, 6, 7, 255]);

    // The server moves the pointer.
    let moved = update(&mut processor, &mut image, PointerUpdateData::SetPosition { x: 4, y: 5 });
    assert!(matches!(moved[..], [UpdateKind::Region(InclusiveRectangle { left: 0, top: 0, right: 5, bottom: 6 })]));
    assert_eq!(pixel(&image, 1, 1), [5, 6, 7, 255]);
    assert_eq!(pixel(&image, 5, 6), [200, 100, 50, 255]);

    // Updates below and beside the pointer are not lost.
    let below = InclusiveRectangle { left: 5, top: 0, right: 5, bottom: 9 };
    let area = image.fill_rectangle(&below, [1, 1, 1, 255]).unwrap();
    assert_eq!(area, InclusiveRectangle { left: 4, top: 0, right: 5, bottom: 9 });
    let beside = InclusiveRectangle { left: 7, top: 7, right: 8, bottom: 8 };
    assert_eq!(image.invert_rectangle(&beside).unwrap(), beside);
    assert_eq!(pixel(&image, 5, 6), [200, 100, 50, 255]);

    let hidden = update(&mut processor, &mut image, PointerUpdateData::SetHidden);
    assert!(matches!(
        hidden[..],
        [
            UpdateKind::PointerHidden,
            UpdateKind::Region(InclusiveRectangle { left: 4, top: 5, right: 5, bottom: 6 })
        ]
    ));
    assert_eq!(pixel(&image, 4, 5), [5, 6, 7, 255]);
    assert_eq!(pixel(&image, 5, 6), [1, 1, 1, 255]);
    assert_eq!(pixel(&image, 7, 7), [250, 249, 248, 255]);
    image.fill_rectangle(&below, [5, 6, 7, 255]).unwrap();
    image.fill_rectangle(&beside, [5, 6, 7, 255]).unwrap();
    assert_eq!(image.data(), before);
}

#[test]
fn software_rendering_hands_out_no_bitmap() {
    let mut processor = processor(true, true);
    let mut image = image();
    let sent = |cache_index| (cache_index, Some(pointer([1, 2, 3])));
    let (color, new, large) = (sent(1), sent(2), sent(3));
    let updates = vec![
        PointerUpdateData::Color { cache_index: color.0, pointer: color.1 },
        PointerUpdateData::New { cache_index: new.0, pointer: new.1 },
        PointerUpdateData::Large { cache_index: large.0, pointer: large.1 },
        PointerUpdateData::Cached { cache_index: 1 },
        PointerUpdateData::SetPosition { x: 3, y: 3 },
        PointerUpdateData::SetHidden,
        PointerUpdateData::Cached { cache_index: 2 },
        PointerUpdateData::SetDefault,
    ];
    for sent in updates {
        for kind in update(&mut processor, &mut image, sent) {
            assert!(!matches!(kind, UpdateKind::PointerBitmap(_)));
        }
    }
    assert!(processor.pointer_software_rendering());
}

#[test]
fn the_mouse_moves_the_pointer_with_the_next_packet() {
    let mut processor = processor(true, true);
    let mut image = image();
    let new = PointerUpdateData::New { cache_index: 1, pointer: Some(pointer([200, 100, 50])) };
    update(&mut processor, &mut image, new);
    update(&mut processor, &mut image, PointerUpdateData::Cached { cache_index: 1 });
    processor.update_mouse_pos(8, 8);
    assert_eq!(pixel(&image, 8, 8), [0, 0, 0, 0]);
    assert!(processor.can_begin_packet(&image));
    let mut input = rdp_session::cursor::ReadCursor::new(&[0x00, 0x02]);
    let updates = processor.begin_packet(&mut image, &mut input).unwrap();
    assert!(matches!(updates[..], [UpdateKind::Region(InclusiveRectangle { left: 0, top: 0, right: 9, bottom: 9 })]));
    assert_eq!(pixel(&image, 8, 8), [200, 100, 50, 0]);
    assert!(input.is_empty());
}

#[test]
fn pointers_that_cannot_be_drawn_are_found() {
    let processor = processor(true, true);
    let short = Arc::new(DecodedPointer { width: 2, height: 2, hotspot_x: 0, hotspot_y: 0, bitmap_data: vec![0; 15] });
    let new = PointerUpdateData::New { cache_index: 1, pointer: Some(short) };
    assert!(!processor.can_process_pointer(&image(), &new));
    let update = CompleteUpdate::Pointer(new);
    assert!(!processor.can_process_update(&image(), &update));
}

#[test]
fn cached_pointers_are_shared() {
    let mut cache = PointerCache::new();
    let shape = pointer([1, 2, 3]);
    assert!(cache.get(7).is_none());
    cache.insert(7, Arc::clone(&shape));
    let recalled = cache.get(7).unwrap();
    assert!(Arc::ptr_eq(&recalled, &shape));
    assert_eq!(recalled.bitmap_data[..4], [1, 2, 3, 255]);
}
