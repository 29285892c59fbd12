use rdp_session::fast_path::{Processor, ProcessorBuilder};
use rdp_session::image::DecodedImage;
use rdp_session::palette::{ColorPalette, PaletteEntry, PaletteUpdate};
use rdp_session::pixel_format::PixelFormat;
use rdp_session::pointer_updates::UpdateKind;

fn create_test_processor() -> Processor {
    ProcessorBuilder {
        io_channel_id: 1003,
        user_channel_id: 1004,
        share_id: 0,
        enable_server_pointer: false,
        pointer_software_rendering: false,
        bulk_compression: false,
    }
    .build()
}

fn create_test_image() -> DecodedImage {
    DecodedImage::new(PixelFormat::RgbA32, 800, 600)
}

#[test]
fn test_process_slow_path_bitmap_synchronize() {
    let mut processor = create_test_processor();
    let mut image = create_test_image();

    // Synchronize update type
    let data = [0x03, 0x00];
    let result = processor.process_slow_path_bitmap(&mut image, &data, &[]);

    assert!(result.is_ok());
    let updates = result.unwrap();
    // Synchronize should return UpdateKind::Nothing
    assert_eq!(updates.len(), 1);
    assert!(matches!(updates[0], UpdateKind::Nothing));
}

#[test]
fn test_process_slow_path_bitmap_orders() {
    let mut processor = create_test_processor();
    let mut image = create_test_image();

    // Orders update type (not implemented, should return None)
    let data = [
        0x00, 0x00, // updateType = Orders
        0x00, 0x00, // pad2OctetsA
        0x01, 0x00, // numberOrders = 1
        0x00, 0x00, // pad2OctetsB
    ];
    let result = processor.process_slow_path_bitmap(&mut image, &data, &[]);

    assert!(result.is_ok());
    let updates = result.unwrap();
    assert_eq!(updates.len(), 1);
    assert!(matches!(updates[0], UpdateKind::Nothing));
}

#[test]
fn test_process_slow_path_bitmap_palette() {
    let mut processor = create_test_processor();
    let mut image = create_test_image();

    // Palette update type (not implemented, should return None)
    let data = [
        0x02, 0x00, // updateType = Palette
        0x00, 0x00, // pad2Octets
        0x01, 0x00, 0x00, 0x00, // numberColors = 1
        0xFF, 0x00, 0x00, // One red entry
    ];
    let result = processor.process_slow_path_bitmap(&mut image, &data, &[]);

    assert!(result.is_ok());
    let updates = result.unwrap();
    assert_eq!(updates.len(), 1);
    assert!(matches!(updates[0], UpdateKind::Nothing));
}

#[test]
fn test_process_slow_path_bitmap_with_uncompressed_16bpp() {
    let mut processor = create_test_processor();
    let mut image = create_test_image();

    // Bitmap update with uncompressed 16bpp data
    // Create a 4x4 pixel rectangle
    let mut data = vec![
        0x01, 0x00, // updateType = Bitmap

        0x01, 0x00, // Number of rectangles = 1
        // Rectangle data (TS_BITMAP_DATA)
        0x00, 0x00, // destLeft = 0
        0x00, 0x00, // destTop = 0
        0x03, 0x00, // destRight = 3
        0x03, 0x00, // destBottom = 3
        0x04, 0x00, // width = 4
        0x04, 0x00, // height = 4
        0x10, 0x00, // bitsPerPixel = 16
        0x00, 0x00, // flags = 0 (uncompressed)
        0x20, 0x00, // bitmapLength = 32 (4x4 pixels * 2 bytes)
    ];
    // Add 32 bytes of uncompressed 16bpp bitmap data
    data.extend_from_slice(&[0x00u8; 32]);

    let result = processor.process_slow_path_bitmap(&mut image, &data, &[]);

    assert!(result.is_ok());
    let updates = result.unwrap();
    assert_eq!(updates.len(), 1);
    // Should have a region update
    if let UpdateKind::Region(rect) = &updates[0] {
        assert_eq!(rect.left, 0);
        assert_eq!(rect.top, 0);
        assert_eq!(rect.right, 3);
        assert_eq!(rect.bottom, 3);
    } else {
        panic!("Expected Region update, got {:?}", updates[0]);
    }
}

#[test]
fn test_process_slow_path_bitmap_invalid_data() {
    let mut processor = create_test_processor();
    let mut image = create_test_image();

    // Too short data
    let data = [0x01];
    let result = processor.process_slow_path_bitmap(&mut image, &data, &[]);
    assert!(result.is_err());
}

#[test]
fn test_process_slow_path_bitmap_unknown_type() {
    let mut processor = create_test_processor();
    let mut image = create_test_image();

    // Unknown update type
    let data = [0xFF, 0xFF];
    let result = processor.process_slow_path_bitmap(&mut image, &data, &[]);
    assert!(result.is_err());
}

#[test]
fn test_process_bitmap_update_multiple_rectangles() {
    let mut processor = create_test_processor();
    let mut image = create_test_image();

    // Two rectangles in one bitmap update
    let mut data = vec![
        0x01, 0x00, // updateType = Bitmap

        0x02, 0x00, // Number of rectangles = 2
        // First rectangle (4x4 at 0,0)
        0x00, 0x00, // destLeft = 0
        0x00, 0x00, // destTop = 0
        0x03, 0x00, // destRight = 3
        0x03, 0x00, // destBottom = 3
        0x04, 0x00, // width = 4
        0x04, 0x00, // height = 4
        0x10, 0x00, // bitsPerPixel = 16
        0x00, 0x00, // flags = 0 (uncompressed)
        0x20, 0x00, // bitmapLength = 32
    ];
    data.extend_from_slice(&[0x00u8; 32]); // First rectangle bitmap data

    // Second rectangle (4x4 at 100,100)
    data.extend_from_slice(&[
        0x64, 0x00, // destLeft = 100
        0x64, 0x00, // destTop = 100
        0x67, 0x00, // destRight = 103
        0x67, 0x00, // destBottom = 103
        0x04, 0x00, // width = 4
        0x04, 0x00, // height = 4
        0x10, 0x00, // bitsPerPixel = 16
        0x00, 0x00, // flags = 0 (uncompressed)
        0x20, 0x00, // bitmapLength = 32
    ]);
    data.extend_from_slice(&[0x00u8; 32]); // Second rectangle bitmap data

    let result = processor.process_slow_path_bitmap(&mut image, &data, &[]);

    assert!(result.is_ok());
    let updates = result.unwrap();
    assert_eq!(updates.len(), 1);
    // Should have a union of both rectangles
    if let UpdateKind::Region(rect) = &updates[0] {
        // Union should cover from (0,0) to (103,103)
        assert_eq!(rect.left, 0);
        assert_eq!(rect.top, 0);
        assert_eq!(rect.right, 103);
        assert_eq!(rect.bottom, 103);
    } else {
        panic!("Expected Region update, got {:?}", updates[0]);
    }
}

#[test]
fn test_process_slow_path_bitmap_with_uncompressed_15bpp() {
    let mut processor = create_test_processor();
    let mut image = create_test_image();

    // Bitmap update with uncompressed 15bpp data
    let mut data = vec![
        0x01, 0x00, // updateType = Bitmap

        0x01, 0x00, // Number of rectangles = 1
        // Rectangle data (TS_BITMAP_DATA)
        0x00, 0x00, // destLeft = 0
        0x00, 0x00, // destTop = 0
        0x03, 0x00, // destRight = 3
        0x03, 0x00, // destBottom = 3
        0x04, 0x00, // width = 4
        0x04, 0x00, // height = 4
        0x0F, 0x00, // bitsPerPixel = 15
        0x00, 0x00, // flags = 0 (uncompressed)
        0x20, 0x00, // bitmapLength = 32 (4x4 pixels * 2 bytes)
    ];
    // Add 32 bytes of uncompressed 15bpp bitmap data (all white = 0x7FFF)
    for _ in 0..16 {
        data.extend_from_slice(&[0xFF, 0x7F]); // Little-endian 0x7FFF
    }

    let result = processor.process_slow_path_bitmap(&mut image, &data, &[]);

    assert!(result.is_ok());
    let updates = result.unwrap();
    assert_eq!(updates.len(), 1);
    if let UpdateKind::Region(rect) = &updates[0] {
        assert_eq!(rect.left, 0);
        assert_eq!(rect.top, 0);
        assert_eq!(rect.right, 3);
        assert_eq!(rect.bottom, 3);
    } else {
        panic!("Expected Region update, got {:?}", updates[0]);
    }
}

#[test]
fn test_process_slow_path_bitmap_with_uncompressed_24bpp() {
    let mut processor = create_test_processor();
    let mut image = create_test_image();

    // Bitmap update with uncompressed 24bpp data
    let mut data = vec![
        0x01, 0x00, // updateType = Bitmap

        0x01, 0x00, // Number of rectangles = 1
        // Rectangle data (TS_BITMAP_DATA)
        0x00, 0x00, // destLeft = 0
        0x00, 0x00, // destTop = 0
        0x03, 0x00, // destRight = 3
        0x03, 0x00, // destBottom = 3
        0x04, 0x00, // width = 4
        0x04, 0x00, // height = 4
        0x18, 0x00, // bitsPerPixel = 24
        0x00, 0x00, // flags = 0 (uncompressed)
        0x30, 0x00, // bitmapLength = 48 (4x4 pixels * 3 bytes)
    ];
    // Add 48 bytes of uncompressed 24bpp bitmap data (red pixels in BGR)
    for _ in 0..16 {
        data.extend_from_slice(&[0x00, 0x00, 0xFF]); // BGR: Blue=0, Green=0, Red=255
    }

    let result = processor.process_slow_path_bitmap(&mut image, &data, &[]);

    assert!(result.is_ok());
    let updates = result.unwrap();
    assert_eq!(updates.len(), 1);
    if let UpdateKind::Region(rect) = &updates[0] {
        assert_eq!(rect.left, 0);
        assert_eq!(rect.top, 0);
        assert_eq!(rect.right, 3);
        assert_eq!(rect.bottom, 3);
    } else {
        panic!("Expected Region update, got {:?}", updates[0]);
    }
}

#[test]
fn test_process_slow_path_bitmap_with_uncompressed_32bpp() {
    let mut processor = create_test_processor();
    let mut image = create_test_image();

    // Bitmap update with uncompressed 32bpp data
    let mut data = vec![
        0x01, 0x00, // updateType = Bitmap

        0x01, 0x00, // Number of rectangles = 1
        // Rectangle data (TS_BITMAP_DATA)
        0x00, 0x00, // destLeft = 0
        0x00, 0x00, // destTop = 0
        0x03, 0x00, // destRight = 3
        0x03, 0x00, // destBottom = 3
        0x04, 0x00, // width = 4
        0x04, 0x00, // height = 4
        0x20, 0x00, // bitsPerPixel = 32
        0x00, 0x00, // flags = 0 (uncompressed)
        0x40, 0x00, // bitmapLength = 64 (4x4 pixels * 4 bytes)
    ];
    // Add 64 bytes of uncompressed 32bpp bitmap data (green pixels in BGRX)
    for _ in 0..16 {
        data.extend_from_slice(&[0x00, 0xFF, 0x00, 0x00]); // BGRX: Blue=0, Green=255, Red=0, X=0
    }

    let result = processor.process_slow_path_bitmap(&mut image, &data, &[]);

    assert!(result.is_ok());
    let updates = result.unwrap();
    assert_eq!(updates.len(), 1);
    if let UpdateKind::Region(rect) = &updates[0] {
        assert_eq!(rect.left, 0);
        assert_eq!(rect.top, 0);
        assert_eq!(rect.right, 3);
        assert_eq!(rect.bottom, 3);
    } else {
        panic!("Expected Region update, got {:?}", updates[0]);
    }
}

#[test]
fn test_process_slow_path_bitmap_verifies_pixel_data_15bpp() {
    let mut processor = create_test_processor();
    let mut image = create_test_image();

    // Create a 2x2 bitmap with specific colors
    let mut data = vec![
        0x01, 0x00, // updateType = Bitmap

        0x01, 0x00, // Number of rectangles = 1
        0x00, 0x00, // destLeft = 0
        0x00, 0x00, // destTop = 0
        0x01, 0x00, // destRight = 1
        0x01, 0x00, // destBottom = 1
        0x02, 0x00, // width = 2
        0x02, 0x00, // height = 2
        0x0F, 0x00, // bitsPerPixel = 15
        0x00, 0x00, // flags = 0 (uncompressed)
        0x08, 0x00, // bitmapLength = 8 (2x2 pixels * 2 bytes)
    ];
    // Bottom row first (bitmap is bottom-up): pure red (0x7C00) and pure green (0x03E0)
    data.extend_from_slice(&[0x00, 0x7C]); // Red (0x7C00 in LE)
    data.extend_from_slice(&[0xE0, 0x03]); // Green (0x03E0 in LE)
                                           // Top row: pure blue (0x001F) and white (0x7FFF)
    data.extend_from_slice(&[0x1F, 0x00]); // Blue (0x001F in LE)
    data.extend_from_slice(&[0xFF, 0x7F]); // White (0x7FFF in LE)

    let result = processor.process_slow_path_bitmap(&mut image, &data, &[]);
    assert!(result.is_ok());

    // Verify the pixel data in the image
    // Note: Image is stored as RGBA32, top-to-bottom
    let data = image.data();
    let stride = image.stride();

    // Top-left pixel should be blue (after flip)
    let idx = 0;
    assert_eq!(data[idx], 0); // R
    assert_eq!(data[idx + 1], 0); // G
    assert_eq!(data[idx + 2], 255); // B
    assert_eq!(data[idx + 3], 255); // A

    // Top-right pixel should be white
    let idx = 4;
    assert_eq!(data[idx], 255); // R
    assert_eq!(data[idx + 1], 255); // G
    assert_eq!(data[idx + 2], 255); // B
    assert_eq!(data[idx + 3], 255); // A

    // Bottom-left pixel should be red (after flip)
    let idx = stride;
    assert_eq!(data[idx], 255); // R
    assert_eq!(data[idx + 1], 0); // G
    assert_eq!(data[idx + 2], 0); // B
    assert_eq!(data[idx + 3], 255); // A

    // Bottom-right pixel should be green
    let idx = stride + 4;
    assert_eq!(data[idx], 0); // R
    assert_eq!(data[idx + 1], 255); // G
    assert_eq!(data[idx + 2], 0); // B
    assert_eq!(data[idx + 3], 255); // A
}

#[test]
fn test_color_palette_default() {
    let palette = ColorPalette::new();
    // Default palette should be grayscale
    assert_eq!(palette.get(0), [0, 0, 0]); // Black
    assert_eq!(palette.get(128), [128, 128, 128]); // Mid gray
    assert_eq!(palette.get(255), [255, 255, 255]); // White
}

#[test]
fn test_color_palette_update() {
    let mut palette = ColorPalette::new();

    // Create a palette update with specific colors
    let update = PaletteUpdate {
        entries: vec![
            PaletteEntry {
                red: 255,
                green: 0,
                blue: 0,
            }, // Index 0: Red
            PaletteEntry {
                red: 0,
                green: 255,
                blue: 0,
            }, // Index 1: Green
            PaletteEntry {
                red: 0,
                green: 0,
                blue: 255,
            }, // Index 2: Blue
        ],
    };

    palette.update(&update);

    assert_eq!(palette.get(0), [255, 0, 0]); // Red
    assert_eq!(palette.get(1), [0, 255, 0]); // Green
    assert_eq!(palette.get(2), [0, 0, 255]); // Blue
                                             // Remaining entries should still be grayscale
    assert_eq!(palette.get(3), [3, 3, 3]);
    assert_eq!(palette.get(255), [255, 255, 255]);
}

#[test]
fn test_process_slow_path_bitmap_with_uncompressed_8bpp() {
    let mut processor = create_test_processor();
    let mut image = create_test_image();

    // First, set up a palette with specific colors
    let palette_update = PaletteUpdate {
        entries: vec![
            PaletteEntry {
                red: 255,
                green: 0,
                blue: 0,
            }, // Index 0: Red
            PaletteEntry {
                red: 0,
                green: 255,
                blue: 0,
            }, // Index 1: Green
            PaletteEntry {
                red: 0,
                green: 0,
                blue: 255,
            }, // Index 2: Blue
            PaletteEntry {
                red: 255,
                green: 255,
                blue: 255,
            }, // Index 3: White
        ],
    };
    processor.update_palette(&palette_update);

    // Bitmap update with uncompressed 8bpp data
    let mut data = vec![
        0x01, 0x00, // updateType = Bitmap

        0x01, 0x00, // Number of rectangles = 1
        // Rectangle data (TS_BITMAP_DATA)
        0x00, 0x00, // destLeft = 0
        0x00, 0x00, // destTop = 0
        0x01, 0x00, // destRight = 1
        0x01, 0x00, // destBottom = 1
        0x02, 0x00, // width = 2
        0x02, 0x00, // height = 2
        0x08, 0x00, // bitsPerPixel = 8
        0x00, 0x00, // flags = 0 (uncompressed)
        0x08, 0x00, // bitmapLength = 8 (2 rows * 4 padded bytes per row)
    ];
    // 8bpp pixel data: palette indices, rows padded to 4-byte boundary.
    // Bottom row first (RDP bitmaps are bottom-up).
    data.extend_from_slice(&[0, 1, 0, 0]); // Bottom row: Red, Green, pad, pad
    data.extend_from_slice(&[2, 3, 0, 0]); // Top row:    Blue, White, pad, pad

    let result = processor.process_slow_path_bitmap(&mut image, &data, &[]);

    assert!(result.is_ok());
    let updates = result.unwrap();
    assert_eq!(updates.len(), 1);

    // Verify the pixel colors in the image
    let image_data = image.data();
    let stride = image.stride();

    // Top-left should be Blue (index 2, after flip)
    assert_eq!(image_data[0], 0); // R
    assert_eq!(image_data[1], 0); // G
    assert_eq!(image_data[2], 255); // B
    assert_eq!(image_data[3], 255); // A

    // Top-right should be White (index 3)
    assert_eq!(image_data[4], 255); // R
    assert_eq!(image_data[5], 255); // G
    assert_eq!(image_data[6], 255); // B
    assert_eq!(image_data[7], 255); // A

    // Bottom-left should be Red (index 0, after flip)
    let idx = stride;
    assert_eq!(image_data[idx], 255); // R
    assert_eq!(image_data[idx + 1], 0); // G
    assert_eq!(image_data[idx + 2], 0); // B
    assert_eq!(image_data[idx + 3], 255); // A

    // Bottom-right should be Green (index 1)
    let idx = stride + 4;
    assert_eq!(image_data[idx], 0); // R
    assert_eq!(image_data[idx + 1], 255); // G
    assert_eq!(image_data[idx + 2], 0); // B
    assert_eq!(image_data[idx + 3], 255); // A
}

#[test]
fn test_processor_palette_update() {
    let mut processor = create_test_processor();

    // Initial palette should be grayscale
    assert_eq!(processor.palette().get(0), [0, 0, 0]);
    assert_eq!(processor.palette().get(255), [255, 255, 255]);

    // Update palette
    let update = PaletteUpdate {
        entries: vec![PaletteEntry {
            red: 100,
            green: 150,
            blue: 200,
        }],
    };
    processor.update_palette(&update);

    // First entry should be updated
    assert_eq!(processor.palette().get(0), [100, 150, 200]);
    // Other entries should remain grayscale
    assert_eq!(processor.palette().get(1), [1, 1, 1]);
}

#[test]
fn test_process_slow_path_orders_dstblt() {
    let mut processor = create_test_processor();
    let mut image = create_test_image();

    // DstBlt order with BLACKNESS ROP (0x00)
    // Order format: controlFlags, orderType, fieldFlags, fields...
    let order_data = [
        0x09, // controlFlags: STANDARD | TYPE_CHANGE
        0x00, // orderType: DstBlt
        0x1F, // field flags: all 5 fields
        0x0A, 0x00, // x = 10
        0x14, 0x00, // y = 20
        0x64, 0x00, // width = 100
        0x32, 0x00, // height = 50
        0x00, // rop = BLACKNESS
    ];

    let result = processor.process_slow_path_orders(&mut image, 1, &order_data, &[]);
    assert!(result.is_ok());

    let updates = result.unwrap();
    assert_eq!(updates.len(), 1);

    if let UpdateKind::Region(rect) = &updates[0] {
        assert_eq!(rect.left, 10);
        assert_eq!(rect.top, 20);
        assert_eq!(rect.right, 109);
        assert_eq!(rect.bottom, 69);
    } else {
        panic!("Expected Region update");
    }

    // Verify the rectangle was filled with black
    let image_data = image.data();
    let stride = image.stride();
    let idx = (20 * stride) + (10 * 4);
    assert_eq!(image_data[idx], 0); // R
    assert_eq!(image_data[idx + 1], 0); // G
    assert_eq!(image_data[idx + 2], 0); // B
    assert_eq!(image_data[idx + 3], 255); // A
}

#[test]
fn test_process_slow_path_orders_opaque_rect() {
    let mut processor = create_test_processor();
    let mut image = create_test_image();

    // OpaqueRect order
    let order_data = [
        0x09, // controlFlags: STANDARD | TYPE_CHANGE
        0x0A, // orderType: OpaqueRect
        0x7F, // field flags: all 7 fields
        0x0A, 0x00, // x = 10
        0x0A, 0x00, // y = 10
        0x14, 0x00, // width = 20
        0x14, 0x00, // height = 20
        0xFF, // Red
        0x80, // Green
        0x00, // Blue
    ];

    let result = processor.process_slow_path_orders(&mut image, 1, &order_data, &[]);
    assert!(result.is_ok());

    let updates = result.unwrap();
    assert_eq!(updates.len(), 1);

    // Verify the rectangle was filled with the color
    let image_data = image.data();
    let stride = image.stride();
    let idx = (10 * stride) + (10 * 4);
    assert_eq!(image_data[idx], 255); // R
    assert_eq!(image_data[idx + 1], 128); // G
    assert_eq!(image_data[idx + 2], 0); // B
    assert_eq!(image_data[idx + 3], 255); // A
}

#[test]
fn test_process_slow_path_orders_multiple() {
    let mut processor = create_test_processor();
    let mut image = create_test_image();

    // Two DstBlt orders
    let order_data = [
        // First order: DstBlt with BLACKNESS
        0x09, // controlFlags: STANDARD | TYPE_CHANGE
        0x00, // orderType: DstBlt
        0x1F, // field flags: all 5 fields
        0x00, 0x00, // x = 0
        0x00, 0x00, // y = 0
        0x0A, 0x00, // width = 10
        0x0A, 0x00, // height = 10
        0x00, // rop = BLACKNESS
        // Second order: DstBlt with WHITENESS (same type, no TYPE_CHANGE)
        0x01, // controlFlags: STANDARD only
        0x1F, // field flags: all 5 fields
        0x14, 0x00, // x = 20
        0x14, 0x00, // y = 20
        0x0A, 0x00, // width = 10
        0x0A, 0x00, // height = 10
        0xFF, // rop = WHITENESS
    ];

    let result = processor.process_slow_path_orders(&mut image, 2, &order_data, &[]);
    assert!(result.is_ok());

    let updates = result.unwrap();
    assert_eq!(updates.len(), 2);
}

#[test]
fn test_process_slow_path_orders_empty() {
    let mut processor = create_test_processor();
    let mut image = create_test_image();

    let result = processor.process_slow_path_orders(&mut image, 0, &[], &[]);
    assert!(result.is_ok());

    let updates = result.unwrap();
    assert!(updates.is_empty());
}

#[test]
fn test_process_slow_path_orders_line_to() {
    let mut processor = create_test_processor();
    let mut image = create_test_image();

    // LineTo order
    let order_data = [
        0x09, // controlFlags: STANDARD | TYPE_CHANGE
        0x09, // orderType: LineTo
        0xFF, 0x03, // field flags: all 10 fields
        0x00, 0x00, // BackMode
        0x00, 0x00, // start_x = 0
        0x00, 0x00, // start_y = 0
        0x32, 0x00, // end_x = 50
        0x32, 0x00, // end_y = 50
        0x00, 0x00, 0x00, // BackColor (BGR)
        0x01, // ROP2
        0x00, // PenStyle
        0x01, // PenWidth
        0x00, 0x00, 0xFF, // PenColor (BGR = red)
    ];

    let result = processor.process_slow_path_orders(&mut image, 1, &order_data, &[]);
    assert!(result.is_ok());

    let updates = result.unwrap();
    assert_eq!(updates.len(), 1);

    if let UpdateKind::Region(rect) = &updates[0] {
        // Line from (0,0) to (50,50)
        assert_eq!(rect.left, 0);
        assert_eq!(rect.top, 0);
        assert_eq!(rect.right, 50);
        assert_eq!(rect.bottom, 50);
    } else {
        panic!("Expected Region update");
    }
}

#[test]
fn test_process_slow_path_orders_scrblt() {
    let mut processor = create_test_processor();
    let mut image = create_test_image();

    // First, fill a region with red
    let opaque_rect_data = [
        0x09, // controlFlags: STANDARD | TYPE_CHANGE
        0x0A, // orderType: OpaqueRect
        0x7F, // field flags: all 7 fields
        0x00, 0x00, // x = 0
        0x00, 0x00, // y = 0
        0x0A, 0x00, // width = 10
        0x0A, 0x00, // height = 10
        0xFF, // Red
        0x00, // Green
        0x00, // Blue
    ];

    processor
        .process_slow_path_orders(&mut image, 1, &opaque_rect_data, &[])
        .unwrap();

    // Now copy it to another location with ScrBlt
    let scrblt_data = [
        0x09, // controlFlags: STANDARD | TYPE_CHANGE
        0x02, // orderType: ScrBlt
        0x7F, // field flags: all 7 fields
        0x14, 0x00, // x = 20 (destination)
        0x14, 0x00, // y = 20 (destination)
        0x0A, 0x00, // width = 10
        0x0A, 0x00, // height = 10
        0xCC, // rop = SRCCOPY
        0x00, 0x00, // src_x = 0
        0x00, 0x00, // src_y = 0
    ];

    let result = processor.process_slow_path_orders(&mut image, 1, &scrblt_data, &[]);
    assert!(result.is_ok());

    // Verify the copy worked
    let image_data = image.data();
    let stride = image.stride();

    // Check destination pixel at (20, 20) - should be red
    let idx = (20 * stride) + (20 * 4);
    assert_eq!(image_data[idx], 255); // R
    assert_eq!(image_data[idx + 1], 0); // G
    assert_eq!(image_data[idx + 2], 0); // B
    assert_eq!(image_data[idx + 3], 255); // A
}

#[test]
fn test_process_slow_path_orders_dstinvert() {
    let mut processor = create_test_processor();
    let mut image = create_test_image();

    // First, fill a region with a known color
    let opaque_rect_data = [
        0x09, // controlFlags: STANDARD | TYPE_CHANGE
        0x0A, // orderType: OpaqueRect
        0x7F, // field flags: all 7 fields
        0x00, 0x00, // x = 0
        0x00, 0x00, // y = 0
        0x0A, 0x00, // width = 10
        0x0A, 0x00, // height = 10
        0x64, // Red = 100
        0x96, // Green = 150
        0xC8, // Blue = 200
    ];

    processor
        .process_slow_path_orders(&mut image, 1, &opaque_rect_data, &[])
        .unwrap();

    // Now invert with DstBlt DSTINVERT
    let dstblt_data = [
        0x09, // controlFlags: STANDARD | TYPE_CHANGE
        0x00, // orderType: DstBlt
        0x1F, // field flags: all 5 fields
        0x00, 0x00, // x = 0
        0x00, 0x00, // y = 0
        0x0A, 0x00, // width = 10
        0x0A, 0x00, // height = 10
        0x55, // rop = DSTINVERT
    ];

    let result = processor.process_slow_path_orders(&mut image, 1, &dstblt_data, &[]);
    assert!(result.is_ok());

    // Verify the invert worked: 100->155, 150->105, 200->55
    let image_data = image.data();
    assert_eq!(image_data[0], 155); // R: 255 - 100
    assert_eq!(image_data[1], 105); // G: 255 - 150
    assert_eq!(image_data[2], 55); // B: 255 - 200
    assert_eq!(image_data[3], 255); // A unchanged
}
