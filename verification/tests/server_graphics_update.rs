use rdp_session::cursor::ReadCursor;
use rdp_session::palette::PaletteEntry;
use rdp_session::server_graphics_update::{ServerGraphicsUpdate, UpdateType};

#[test]
fn test_parse_synchronize_update() {
    let data = [0x03, 0x00]; // updateType = Synchronize
    let mut cursor = ReadCursor::new(&data);
    let update = ServerGraphicsUpdate::decode(&mut cursor).unwrap();
    assert!(matches!(update, ServerGraphicsUpdate::Synchronize));
}

#[test]
fn test_parse_synchronize_update_with_padding() {
    // Some servers send padding after the synchronize type
    let data = [0x03, 0x00, 0x00, 0x00]; // updateType = Synchronize + padding
    let mut cursor = ReadCursor::new(&data);
    let update = ServerGraphicsUpdate::decode(&mut cursor).unwrap();
    assert!(matches!(update, ServerGraphicsUpdate::Synchronize));
}

#[test]
fn test_parse_orders_update() {
    let data = [
        0x00, 0x00, // updateType = Orders
        0x00, 0x00, // pad2OctetsA
        0x05, 0x00, // numberOrders = 5
        0x00, 0x00, // pad2OctetsB
        0xAA, 0xBB, // order data
    ];
    let mut cursor = ReadCursor::new(&data);
    let update = ServerGraphicsUpdate::decode(&mut cursor).unwrap();
    if let ServerGraphicsUpdate::Orders(orders) = update {
        assert_eq!(orders.number_orders, 5);
        assert_eq!(orders.order_data, &[0xAA, 0xBB]);
    } else {
        panic!("Expected Orders");
    }
}

#[test]
fn test_parse_orders_update_empty_data() {
    let data = [
        0x00, 0x00, // updateType = Orders
        0x00, 0x00, // pad2OctetsA
        0x00, 0x00, // numberOrders = 0
        0x00, 0x00, // pad2OctetsB
    ];
    let mut cursor = ReadCursor::new(&data);
    let update = ServerGraphicsUpdate::decode(&mut cursor).unwrap();
    if let ServerGraphicsUpdate::Orders(orders) = update {
        assert_eq!(orders.number_orders, 0);
        assert!(orders.order_data.is_empty());
    } else {
        panic!("Expected Orders");
    }
}

#[test]
fn test_parse_palette_update() {
    let data = [
        0x02, 0x00, // updateType = Palette
        0x00, 0x00, // pad2Octets
        0x03, 0x00, 0x00, 0x00, // numberColors = 3
        0xFF, 0x00, 0x00, // Red
        0x00, 0xFF, 0x00, // Green
        0x00, 0x00, 0xFF, // Blue
    ];
    let mut cursor = ReadCursor::new(&data);
    let update = ServerGraphicsUpdate::decode(&mut cursor).unwrap();
    if let ServerGraphicsUpdate::Palette(palette) = update {
        assert_eq!(palette.entries.len(), 3);
        assert_eq!(palette.entries[0].red, 0xFF);
        assert_eq!(palette.entries[0].green, 0x00);
        assert_eq!(palette.entries[0].blue, 0x00);
        assert_eq!(palette.entries[1].red, 0x00);
        assert_eq!(palette.entries[1].green, 0xFF);
        assert_eq!(palette.entries[1].blue, 0x00);
        assert_eq!(palette.entries[2].red, 0x00);
        assert_eq!(palette.entries[2].green, 0x00);
        assert_eq!(palette.entries[2].blue, 0xFF);
    } else {
        panic!("Expected Palette");
    }
}

#[test]
fn test_parse_palette_update_empty() {
    let data = [
        0x02, 0x00, // updateType = Palette
        0x00, 0x00, // pad2Octets
        0x00, 0x00, 0x00, 0x00, // numberColors = 0
    ];
    let mut cursor = ReadCursor::new(&data);
    let update = ServerGraphicsUpdate::decode(&mut cursor).unwrap();
    if let ServerGraphicsUpdate::Palette(palette) = update {
        assert!(palette.entries.is_empty());
    } else {
        panic!("Expected Palette");
    }
}

#[test]
fn test_parse_bitmap_update() {
    // This is a minimal bitmap update with one rectangle
    // Note: Slow-path Update PDU has only ONE updateType field (not duplicated)
    let data = [
        0x01, 0x00, // updateType = Bitmap
        0x01, 0x00, // Number of rectangles = 1
        // Rectangle data (TS_BITMAP_DATA)
        0x00, 0x00, // destLeft = 0
        0x00, 0x00, // destTop = 0
        0x03, 0x00, // destRight = 3
        0x03, 0x00, // destBottom = 3
        0x04, 0x00, // width = 4
        0x04, 0x00, // height = 4
        0x10, 0x00, // bitsPerPixel = 16
        0x00, 0x00, // flags = 0 (uncompressed)
        0x20, 0x00, // bitmapLength = 32 (4x4 pixels * 2 bytes)
        // 32 bytes of uncompressed bitmap data (4x4 @ 16bpp)
        0x00, 0x00, 0x00, 0x00, 0x00, 0x00, 0x00, 0x00, 0x00, 0x00, 0x00, 0x00, 0x00, 0x00, 0x00, 0x00, 0x00, 0x00,
        0x00, 0x00, 0x00, 0x00, 0x00, 0x00, 0x00, 0x00, 0x00, 0x00, 0x00, 0x00, 0x00, 0x00,
    ];
    let mut cursor = ReadCursor::new(&data);
    let update = ServerGraphicsUpdate::decode(&mut cursor).unwrap();
    if let ServerGraphicsUpdate::Bitmap(bitmap_data) = update {
        assert_eq!(bitmap_data.rectangles.len(), 1);
        let rect = &bitmap_data.rectangles[0];
        assert_eq!(rect.width, 4);
        assert_eq!(rect.height, 4);
        assert_eq!(rect.bits_per_pixel, 16);
        assert_eq!(rect.bitmap_data.len(), 32);
    } else {
        panic!("Expected Bitmap");
    }
}

#[test]
fn test_parse_unknown_update_type() {
    let data = [0xFF, 0xFF]; // unknown updateType
    let mut cursor = ReadCursor::new(&data);
    let result = ServerGraphicsUpdate::decode(&mut cursor);
    assert!(result.is_err());
}

#[test]
fn test_parse_insufficient_data() {
    let data = [0x03]; // only 1 byte, need at least 2
    let mut cursor = ReadCursor::new(&data);
    let result = ServerGraphicsUpdate::decode(&mut cursor);
    assert!(result.is_err());
}

#[test]
fn test_parse_orders_insufficient_header() {
    let data = [
        0x00, 0x00, // updateType = Orders
        0x00, 0x00, // only pad2OctetsA, missing rest
    ];
    let mut cursor = ReadCursor::new(&data);
    let result = ServerGraphicsUpdate::decode(&mut cursor);
    assert!(result.is_err());
}

#[test]
fn test_parse_palette_insufficient_colors() {
    let data = [
        0x02, 0x00, // updateType = Palette
        0x00, 0x00, // pad2Octets
        0x02, 0x00, 0x00, 0x00, // numberColors = 2
        0xFF, 0x00, 0x00, // Only 1 color (Red), but claimed 2
    ];
    let mut cursor = ReadCursor::new(&data);
    let result = ServerGraphicsUpdate::decode(&mut cursor);
    assert!(result.is_err());
}

#[test]
fn test_update_type_values() {
    assert_eq!(UpdateType::Orders.as_u16(), 0x0000);
    assert_eq!(UpdateType::Bitmap.as_u16(), 0x0001);
    assert_eq!(UpdateType::Palette.as_u16(), 0x0002);
    assert_eq!(UpdateType::Synchronize.as_u16(), 0x0003);
}

#[test]
fn test_parse_palette_full_256_colors() {
    // Test a full 256-color palette
    let mut data = vec![
        0x02, 0x00, // updateType = Palette
        0x00, 0x00, // pad2Octets
        0x00, 0x01, 0x00, 0x00, // numberColors = 256
    ];
    // Add 256 color entries
    for i in 0..=255u8 {
        data.push(i); // Red
        data.push(255 - i); // Green
        data.push(i / 2); // Blue
    }

    let mut cursor = ReadCursor::new(&data);
    let update = ServerGraphicsUpdate::decode(&mut cursor).unwrap();
    if let ServerGraphicsUpdate::Palette(palette) = update {
        assert_eq!(palette.entries.len(), 256);
        // Check first entry
        assert_eq!(palette.entries[0].red, 0);
        assert_eq!(palette.entries[0].green, 255);
        assert_eq!(palette.entries[0].blue, 0);
        // Check last entry
        assert_eq!(palette.entries[255].red, 255);
        assert_eq!(palette.entries[255].green, 0);
        assert_eq!(palette.entries[255].blue, 127);
    } else {
        panic!("Expected Palette");
    }
}

#[test]
fn test_parse_orders_with_large_data() {
    // Test orders with a larger data payload
    let mut data = vec![
        0x00, 0x00, // updateType = Orders
        0x00, 0x00, // pad2OctetsA
        0x10, 0x00, // numberOrders = 16
        0x00, 0x00, // pad2OctetsB
    ];
    // Add 100 bytes of order data
    data.extend_from_slice(&[0xAA; 100]);

    let mut cursor = ReadCursor::new(&data);
    let update = ServerGraphicsUpdate::decode(&mut cursor).unwrap();
    if let ServerGraphicsUpdate::Orders(orders) = update {
        assert_eq!(orders.number_orders, 16);
        assert_eq!(orders.order_data.len(), 100);
        assert!(orders.order_data.iter().all(|&b| b == 0xAA));
    } else {
        panic!("Expected Orders");
    }
}

#[test]
fn test_palette_entry_equality() {
    let entry1 = PaletteEntry {
        red: 100,
        green: 150,
        blue: 200,
    };
    let entry2 = PaletteEntry {
        red: 100,
        green: 150,
        blue: 200,
    };
    let entry3 = PaletteEntry {
        red: 100,
        green: 150,
        blue: 201,
    };

    assert_eq!(entry1, entry2);
    assert_ne!(entry1, entry3);
}

#[test]
fn test_palette_entry_copy() {
    let entry1 = PaletteEntry {
        red: 100,
        green: 150,
        blue: 200,
    };
    let entry2 = entry1; // Copy
    assert_eq!(entry1, entry2);
}

#[test]
fn test_parse_palette_insufficient_header() {
    // Only updateType, missing pad and numberColors
    let data = [0x02, 0x00, 0x00, 0x00];
    let mut cursor = ReadCursor::new(&data);
    let result = ServerGraphicsUpdate::decode(&mut cursor);
    assert!(result.is_err());
}

#[test]
fn test_synchronize_consumes_padding_when_present() {
    // Test that synchronize correctly handles extra padding bytes
    let data = [0x03, 0x00, 0xFF, 0xFF]; // updateType = Synchronize + 2 bytes padding
    let mut cursor = ReadCursor::new(&data);
    let update = ServerGraphicsUpdate::decode(&mut cursor).unwrap();
    assert!(matches!(update, ServerGraphicsUpdate::Synchronize));
    // Cursor should have consumed the padding
    assert!(cursor.is_empty() || cursor.len() == 2); // Depends on implementation
}
