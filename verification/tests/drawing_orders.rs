use rdp_session::cursor::ReadCursor;
use rdp_session::drawing_orders::{
    AlternateSecondaryOrderType, ControlFlags, DrawingOrder, DrawingOrderState, DstBltOrder, LineToOrder,
    MultiOpaqueRectOrder, OpaqueRectOrder, PatBltOrder, PolylineOrder, PrimaryOrderData, PrimaryOrderType,
    ScrBltOrder, SecondaryOrderType,
};
use rdp_session::order_decoding::{
    decode_delta_points, decode_delta_rects, decode_dstblt_order, decode_line_to_order,
    decode_multi_opaque_rect_order, decode_opaque_rect_order, decode_order, decode_patblt_order,
    decode_polyline_order, decode_scrblt_order, field_flag_bytes,
};

#[test]
fn test_control_flags() {
    let flags = ControlFlags::from_bits_truncate(ControlFlags::STANDARD | ControlFlags::TYPE_CHANGE);
    assert!(flags.contains(ControlFlags::STANDARD));
    assert!(flags.contains(ControlFlags::TYPE_CHANGE));
    assert!(!flags.contains(ControlFlags::BOUNDS));
}

#[test]
fn test_primary_order_type_values() {
    assert_eq!(PrimaryOrderType::DstBlt.as_u8(), 0x00);
    assert_eq!(PrimaryOrderType::PatBlt.as_u8(), 0x01);
    assert_eq!(PrimaryOrderType::ScrBlt.as_u8(), 0x02);
    assert_eq!(PrimaryOrderType::LineTo.as_u8(), 0x09);
    assert_eq!(PrimaryOrderType::OpaqueRect.as_u8(), 0x0A);
}

#[test]
fn test_drawing_order_state_default() {
    let state = DrawingOrderState::new();
    assert!(state.primary_order_type.is_none());
    assert_eq!(state.bounds.left, 0);
    assert_eq!(state.bounds.top, 0);
}

#[test]
fn test_secondary_order_type_values() {
    assert_eq!(SecondaryOrderType::CacheBitmap.as_u8(), 0x00);
    assert_eq!(SecondaryOrderType::CacheBrush.as_u8(), 0x07);
}

#[test]
fn test_alternate_secondary_order_type_values() {
    assert_eq!(AlternateSecondaryOrderType::FrameMarker.as_u8(), 0x0D);
}

#[test]
fn test_decode_dstblt_all_fields() {
    let mut order = DstBltOrder::default();
    // All 5 fields present: x, y, width, height, rop
    let data = [
        0x0A, 0x00, // x = 10
        0x14, 0x00, // y = 20
        0x64, 0x00, // width = 100
        0x32, 0x00, // height = 50
        0xCC, // rop = 0xCC (SRCCOPY)
    ];
    let mut cursor = ReadCursor::new(&data);
    decode_dstblt_order(&mut cursor, &mut order, 0x1F).unwrap();

    assert_eq!(order.x, 10);
    assert_eq!(order.y, 20);
    assert_eq!(order.width, 100);
    assert_eq!(order.height, 50);
    assert_eq!(order.rop, 0xCC);
}

#[test]
fn test_decode_dstblt_partial_fields() {
    let mut order = DstBltOrder {
        x: 5,
        y: 10,
        width: 50,
        height: 25,
        rop: 0x00,
    };
    // Only x and rop present (flags 0x11)
    let data = [
        0x14, 0x00, // x = 20
        0xAA, // rop = 0xAA
    ];
    let mut cursor = ReadCursor::new(&data);
    decode_dstblt_order(&mut cursor, &mut order, 0x11).unwrap();

    assert_eq!(order.x, 20); // Updated
    assert_eq!(order.y, 10); // Unchanged
    assert_eq!(order.width, 50); // Unchanged
    assert_eq!(order.height, 25); // Unchanged
    assert_eq!(order.rop, 0xAA); // Updated
}

#[test]
fn test_decode_scrblt_all_fields() {
    let mut order = ScrBltOrder::default();
    // All 7 fields: x, y, width, height, rop, src_x, src_y
    let data = [
        0x10, 0x00, // x = 16
        0x20, 0x00, // y = 32
        0x40, 0x00, // width = 64
        0x30, 0x00, // height = 48
        0xCC, // rop
        0x00, 0x01, // src_x = 256
        0x80, 0x00, // src_y = 128
    ];
    let mut cursor = ReadCursor::new(&data);
    decode_scrblt_order(&mut cursor, &mut order, 0x7F).unwrap();

    assert_eq!(order.x, 16);
    assert_eq!(order.y, 32);
    assert_eq!(order.width, 64);
    assert_eq!(order.height, 48);
    assert_eq!(order.rop, 0xCC);
    assert_eq!(order.src_x, 256);
    assert_eq!(order.src_y, 128);
}

#[test]
fn test_decode_opaque_rect_with_color() {
    let mut order = OpaqueRectOrder::default();
    // All 7 fields: x, y, width, height, R, G, B
    let data = [
        0x0A, 0x00, // x = 10
        0x14, 0x00, // y = 20
        0x64, 0x00, // width = 100
        0x32, 0x00, // height = 50
        0xFF, // Red
        0x80, // Green
        0x00, // Blue
    ];
    let mut cursor = ReadCursor::new(&data);
    decode_opaque_rect_order(&mut cursor, &mut order, 0x7F).unwrap();

    assert_eq!(order.x, 10);
    assert_eq!(order.y, 20);
    assert_eq!(order.width, 100);
    assert_eq!(order.height, 50);
    // Color is stored as 0xRRGGBB
    assert_eq!(order.color, 0xFF8000);
}

#[test]
fn test_decode_opaque_rect_partial_color() {
    let mut order = OpaqueRectOrder {
        x: 0,
        y: 0,
        width: 0,
        height: 0,
        color: 0x112233, // Initial color
    };
    // Only update green (flag 0x20)
    let data = [0xAA]; // Green = 0xAA
    let mut cursor = ReadCursor::new(&data);
    decode_opaque_rect_order(&mut cursor, &mut order, 0x20).unwrap();

    // Red and Blue should be preserved, only Green updated
    assert_eq!(order.color, 0x11AA33);
}

#[test]
fn test_decode_patblt_with_brush() {
    let mut order = PatBltOrder::default();
    // Fields: x, y, width, height, rop, back_color, fore_color, brush fields
    let data = [
        0x10, 0x00, // x = 16
        0x20, 0x00, // y = 32
        0x40, 0x00, // width = 64
        0x30, 0x00, // height = 48
        0xF0, // rop (PATCOPY)
        0x00, 0x00, 0xFF, // back_color (red in BGR)
        0xFF, 0x00, 0x00, // fore_color (blue in BGR)
        0x05, // brush org_x
        0x03, // brush org_y
        0x02, // brush style (BS_HATCHED)
        0x01, // brush hatch (HS_HORIZONTAL)
    ];
    let mut cursor = ReadCursor::new(&data);
    // Flags for all fields up to hatch (0x07FF)
    decode_patblt_order(&mut cursor, &mut order, 0x07FF).unwrap();

    assert_eq!(order.x, 16);
    assert_eq!(order.y, 32);
    assert_eq!(order.width, 64);
    assert_eq!(order.height, 48);
    assert_eq!(order.rop, 0xF0);
    assert_eq!(order.back_color, 0xFF0000); // Red
    assert_eq!(order.fore_color, 0x0000FF); // Blue
    assert_eq!(order.brush.org_x, 5);
    assert_eq!(order.brush.org_y, 3);
    assert_eq!(order.brush.style, 2);
    assert_eq!(order.brush.hatch, 1);
}

#[test]
fn test_decode_primary_order_dstblt() {
    let mut state = DrawingOrderState::new();
    // STANDARD | TYPE_CHANGE flags, DstBlt type, all fields
    let data = [
        0x09, // controlFlags: STANDARD | TYPE_CHANGE
        0x00, // orderType: DstBlt
        0x1F, // field flags: all 5 fields
        0x0A, 0x00, // x = 10
        0x14, 0x00, // y = 20
        0x64, 0x00, // width = 100
        0x32, 0x00, // height = 50
        0xCC, // rop
    ];
    let mut cursor = ReadCursor::new(&data);
    let order = decode_order(&mut cursor, &mut state).unwrap();

    if let DrawingOrder::Primary(primary) = order {
        assert_eq!(primary.order_type, PrimaryOrderType::DstBlt);
        if let PrimaryOrderData::DstBlt(dstblt) = primary.data {
            assert_eq!(dstblt.x, 10);
            assert_eq!(dstblt.y, 20);
            assert_eq!(dstblt.width, 100);
            assert_eq!(dstblt.height, 50);
            assert_eq!(dstblt.rop, 0xCC);
        } else {
            panic!("Expected DstBlt data");
        }
    } else {
        panic!("Expected Primary order");
    }

    // State should be updated
    assert_eq!(state.primary_order_type, Some(PrimaryOrderType::DstBlt));
}

#[test]
fn test_decode_primary_order_uses_previous_type() {
    let mut state = DrawingOrderState::new();
    state.primary_order_type = Some(PrimaryOrderType::DstBlt);
    state.dstblt = DstBltOrder {
        x: 10,
        y: 20,
        width: 100,
        height: 50,
        rop: 0xCC,
    };

    // STANDARD flag only (no TYPE_CHANGE), update only x and y
    let data = [
        0x01, // controlFlags: STANDARD only
        0x03, // field flags: x and y
        0x14, 0x00, // x = 20
        0x28, 0x00, // y = 40
    ];
    let mut cursor = ReadCursor::new(&data);
    let order = decode_order(&mut cursor, &mut state).unwrap();

    if let DrawingOrder::Primary(primary) = order {
        assert_eq!(primary.order_type, PrimaryOrderType::DstBlt);
        if let PrimaryOrderData::DstBlt(dstblt) = primary.data {
            assert_eq!(dstblt.x, 20); // Updated
            assert_eq!(dstblt.y, 40); // Updated
            assert_eq!(dstblt.width, 100); // From previous state
            assert_eq!(dstblt.height, 50); // From previous state
            assert_eq!(dstblt.rop, 0xCC); // From previous state
        } else {
            panic!("Expected DstBlt data");
        }
    } else {
        panic!("Expected Primary order");
    }
}

#[test]
fn test_field_flag_bytes() {
    assert_eq!(field_flag_bytes(PrimaryOrderType::DstBlt), 1);
    assert_eq!(field_flag_bytes(PrimaryOrderType::PatBlt), 2);
    assert_eq!(field_flag_bytes(PrimaryOrderType::ScrBlt), 1);
    assert_eq!(field_flag_bytes(PrimaryOrderType::OpaqueRect), 1);
    assert_eq!(field_flag_bytes(PrimaryOrderType::LineTo), 2);
    assert_eq!(field_flag_bytes(PrimaryOrderType::MultiDstBlt), 1);
    assert_eq!(field_flag_bytes(PrimaryOrderType::MultiOpaqueRect), 2);
    assert_eq!(field_flag_bytes(PrimaryOrderType::Polyline), 1);
}

#[test]
fn test_decode_line_to_order() {
    let mut order = LineToOrder::default();
    // All 10 fields: BackMode, start_x, start_y, end_x, end_y, BackColor, ROP2, PenStyle, PenWidth, PenColor
    let data = [
        0x01, 0x00, // BackMode = 1 (TRANSPARENT)
        0x0A, 0x00, // start_x = 10
        0x14, 0x00, // start_y = 20
        0x64, 0x00, // end_x = 100
        0x32, 0x00, // end_y = 50
        0x00, 0x00, 0xFF, // BackColor (BGR = red)
        0x0D, // ROP2
        0x00, // PenStyle
        0x01, // PenWidth
        0x00, 0xFF, 0x00, // PenColor (BGR = green)
    ];
    let mut cursor = ReadCursor::new(&data);
    decode_line_to_order(&mut cursor, &mut order, 0x03FF).unwrap();

    assert_eq!(order.back_mode, 1);
    assert_eq!(order.start_x, 10);
    assert_eq!(order.start_y, 20);
    assert_eq!(order.end_x, 100);
    assert_eq!(order.end_y, 50);
    assert_eq!(order.back_color, 0xFF0000); // Red in RGB
    assert_eq!(order.rop2, 0x0D);
    assert_eq!(order.pen_style, 0);
    assert_eq!(order.pen_width, 1);
    assert_eq!(order.pen_color, 0x00FF00); // Green in RGB
}

#[test]
fn test_decode_line_to_partial() {
    let mut order = LineToOrder {
        back_mode: 1,
        start_x: 10,
        start_y: 20,
        end_x: 100,
        end_y: 50,
        back_color: 0,
        rop2: 0x0D,
        pen_style: 0,
        pen_width: 1,
        pen_color: 0xFF0000,
    };
    // Update only end coordinates (fields 4 and 5)
    let data = [
        0xC8, 0x00, // end_x = 200
        0x96, 0x00, // end_y = 150
    ];
    let mut cursor = ReadCursor::new(&data);
    decode_line_to_order(&mut cursor, &mut order, 0x0018).unwrap(); // Only bits 3,4 set

    assert_eq!(order.start_x, 10); // Unchanged
    assert_eq!(order.start_y, 20); // Unchanged
    assert_eq!(order.end_x, 200); // Updated
    assert_eq!(order.end_y, 150); // Updated
    assert_eq!(order.pen_color, 0xFF0000); // Unchanged
}

#[test]
fn test_decode_multi_opaque_rect_order() {
    let mut order = MultiOpaqueRectOrder::default();
    // Basic fields plus 2 delta rectangles
    let data = [
        0x00, 0x00, // x = 0
        0x00, 0x00, // y = 0
        0x64, 0x00, // width = 100
        0x64, 0x00, // height = 100
        0xFF, // Red
        0x00, // Green
        0x00, // Blue
        0x02, // nDeltaEntries = 2
        // zeroBits for 2 rectangles (1 byte)
        0x00, // All deltas are 1-byte
        // Rectangle 1
        10, 20, 30, 40, // left, top, width, height
        // Rectangle 2 (delta from prev)
        10, 10, 30, 40, // left, top, width, height
    ];
    let mut cursor = ReadCursor::new(&data);
    decode_multi_opaque_rect_order(&mut cursor, &mut order, 0x01FF).unwrap();

    assert_eq!(order.x, 0);
    assert_eq!(order.y, 0);
    assert_eq!(order.width, 100);
    assert_eq!(order.height, 100);
    assert_eq!(order.color, 0xFF0000); // Red in RGB
    assert_eq!(order.rectangles.len(), 2);
    assert_eq!(order.rectangles[0].left, 10);
    assert_eq!(order.rectangles[0].top, 20);
    assert_eq!(order.rectangles[0].width, 30);
    assert_eq!(order.rectangles[0].height, 40);
    // Second rectangle: left = 10 + 10 = 20, top = 20 + 10 = 30
    assert_eq!(order.rectangles[1].left, 20);
    assert_eq!(order.rectangles[1].top, 30);
}

#[test]
fn test_decode_polyline_order() {
    let mut order = PolylineOrder::default();
    // Basic fields plus 3 points
    let data = [
        0x32, 0x00, // x = 50 (start)
        0x32, 0x00, // y = 50 (start)
        0x0D, // ROP2
        0x00, 0x00, // BrushCacheEntry
        0x00, 0x00, 0xFF, // PenColor (BGR = red)
        0x03, // nDeltaEntries = 3
        // zeroBits for 3 points (1 byte = 4 points capacity)
        0x00, // All deltas are 1-byte
        // Point 1: delta (10, 0)
        10, 0, // Point 2: delta (0, 10)
        0, 10, // Point 3: delta (-10, -10)
        246, 246, // -10 as unsigned byte
    ];
    let mut cursor = ReadCursor::new(&data);
    decode_polyline_order(&mut cursor, &mut order, 0x7F).unwrap();

    assert_eq!(order.x, 50);
    assert_eq!(order.y, 50);
    assert_eq!(order.rop2, 0x0D);
    assert_eq!(order.pen_color, 0xFF0000); // Red in RGB
    assert_eq!(order.points.len(), 3);
    assert_eq!(order.points[0].x, 10);
    assert_eq!(order.points[0].y, 0);
    assert_eq!(order.points[1].x, 0);
    assert_eq!(order.points[1].y, 10);
    assert_eq!(order.points[2].x, -10); // Sign extended
    assert_eq!(order.points[2].y, -10);
}

#[test]
fn test_delta_point_decoding() {
    // Test the delta point decoding directly
    let data = [
        0x00, // zeroBits: all 1-byte deltas
        10, 20, // Point 0: (10, 20)
        246, 236, // Point 1: (-10 as u8, -20 as u8)
    ];
    let mut cursor = ReadCursor::new(&data);
    let points = decode_delta_points(&mut cursor, 2).unwrap();

    assert_eq!(points.len(), 2);
    assert_eq!(points[0].x, 10);
    assert_eq!(points[0].y, 20);
    assert_eq!(points[1].x, -10);
    assert_eq!(points[1].y, -20);
}

#[test]
fn test_delta_rect_decoding() {
    // Test the delta rect decoding directly
    let data = [
        0x00, // zeroBits: all 1-byte deltas
        10, 20, 30, 40, // Rect 0
    ];
    let mut cursor = ReadCursor::new(&data);
    let rects = decode_delta_rects(&mut cursor, 1).unwrap();

    assert_eq!(rects.len(), 1);
    assert_eq!(rects[0].left, 10);
    assert_eq!(rects[0].top, 20);
    assert_eq!(rects[0].width, 30);
    assert_eq!(rects[0].height, 40);
}

#[test]
fn test_new_order_types_in_state() {
    // Ensure all new order types are present in DrawingOrderState
    let state = DrawingOrderState::default();

    // These should all exist and be default
    assert_eq!(state.line_to.start_x, 0);
    assert_eq!(state.multi_opaque_rect.rectangles.len(), 0);
    assert_eq!(state.multi_dstblt.rectangles.len(), 0);
    assert_eq!(state.multi_patblt.rectangles.len(), 0);
    assert_eq!(state.multi_scrblt.rectangles.len(), 0);
    assert_eq!(state.polyline.points.len(), 0);
}
