use rdp_session::geometry::InclusiveRectangle;
use rdp_session::image::DecodedImage;
use rdp_session::pixel_format::PixelFormat;

fn create_test_image(width: u16, height: u16) -> DecodedImage {
    DecodedImage::new(PixelFormat::RgbA32, width, height)
}

#[test]
fn test_fill_rectangle() {
    let mut image = create_test_image(100, 100);

    let rect = InclusiveRectangle {
        left: 10,
        top: 10,
        right: 19,
        bottom: 19,
    };

    let result = image.fill_rectangle(&rect, [255, 128, 64, 255]);
    assert!(result.is_ok());

    // Check a pixel inside the rectangle
    let idx = (10 * 100 + 10) * 4;
    assert_eq!(image.data()[idx], 255); // R
    assert_eq!(image.data()[idx + 1], 128); // G
    assert_eq!(image.data()[idx + 2], 64); // B
    assert_eq!(image.data()[idx + 3], 255); // A

    // Check a pixel outside the rectangle is still black (default)
    let idx = (0 * 100 + 0) * 4;
    assert_eq!(image.data()[idx], 0); // R
    assert_eq!(image.data()[idx + 1], 0); // G
    assert_eq!(image.data()[idx + 2], 0); // B
    assert_eq!(image.data()[idx + 3], 0); // A
}

#[test]
fn test_copy_rectangle() {
    let mut image = create_test_image(100, 100);

    // First fill a source rectangle with a color
    let src_rect = InclusiveRectangle {
        left: 0,
        top: 0,
        right: 9,
        bottom: 9,
    };
    image.fill_rectangle(&src_rect, [255, 0, 0, 255]).unwrap();

    // Copy to a different location
    let dst_rect = InclusiveRectangle {
        left: 50,
        top: 50,
        right: 59,
        bottom: 59,
    };

    let result = image.copy_rectangle(0, 0, &dst_rect);
    assert!(result.is_ok());

    // Check destination has the copied color
    let idx = (50 * 100 + 50) * 4;
    assert_eq!(image.data()[idx], 255); // R
    assert_eq!(image.data()[idx + 1], 0); // G
    assert_eq!(image.data()[idx + 2], 0); // B
    assert_eq!(image.data()[idx + 3], 255); // A
}

#[test]
fn test_copy_rectangle_overlapping() {
    let mut image = create_test_image(100, 100);

    // Fill first 10 columns with different colors per column
    for x in 0..10u16 {
        let rect = InclusiveRectangle {
            left: x,
            top: 0,
            right: x,
            bottom: 9,
        };
        let color = (x * 25) as u8;
        image.fill_rectangle(&rect, [color, color, color, 255]).unwrap();
    }

    // Copy overlapping: shift right by 5 pixels
    let dst_rect = InclusiveRectangle {
        left: 5,
        top: 0,
        right: 14,
        bottom: 9,
    };

    let result = image.copy_rectangle(0, 0, &dst_rect);
    assert!(result.is_ok());

    // The copy should work correctly even with overlap
    // At x=5, we should see what was at x=0 (color 0)
    let idx = (0 * 100 + 5) * 4;
    assert_eq!(image.data()[idx], 0); // Was at x=0

    // At x=10, we should see what was at x=5 (color 125)
    let idx = (0 * 100 + 10) * 4;
    assert_eq!(image.data()[idx], 125); // Was at x=5
}

#[test]
fn test_invert_rectangle() {
    let mut image = create_test_image(100, 100);

    // Fill with a known color
    let rect = InclusiveRectangle {
        left: 0,
        top: 0,
        right: 9,
        bottom: 9,
    };
    image.fill_rectangle(&rect, [100, 150, 200, 255]).unwrap();

    // Invert
    let result = image.invert_rectangle(&rect);
    assert!(result.is_ok());

    // Check inverted values: 255 - original
    let idx = (0 * 100 + 0) * 4;
    assert_eq!(image.data()[idx], 155); // 255 - 100
    assert_eq!(image.data()[idx + 1], 105); // 255 - 150
    assert_eq!(image.data()[idx + 2], 55); // 255 - 200
    assert_eq!(image.data()[idx + 3], 255); // Alpha unchanged
}

#[test]
fn test_draw_line_horizontal() {
    let mut image = create_test_image(100, 100);

    let result = image.draw_line(10, 50, 90, 50, [255, 0, 0, 255]);
    assert!(result.is_ok());

    let rect = result.unwrap();
    assert_eq!(rect.left, 10);
    assert_eq!(rect.right, 90);
    assert_eq!(rect.top, 50);
    assert_eq!(rect.bottom, 50);

    // Check some pixels on the line
    let idx = (50 * 100 + 50) * 4;
    assert_eq!(image.data()[idx], 255);
    assert_eq!(image.data()[idx + 1], 0);
    assert_eq!(image.data()[idx + 2], 0);
}

#[test]
fn test_draw_line_vertical() {
    let mut image = create_test_image(100, 100);

    let result = image.draw_line(50, 10, 50, 90, [0, 255, 0, 255]);
    assert!(result.is_ok());

    let rect = result.unwrap();
    assert_eq!(rect.left, 50);
    assert_eq!(rect.right, 50);
    assert_eq!(rect.top, 10);
    assert_eq!(rect.bottom, 90);
}

#[test]
fn test_draw_line_diagonal() {
    let mut image = create_test_image(100, 100);

    let result = image.draw_line(0, 0, 50, 50, [0, 0, 255, 255]);
    assert!(result.is_ok());

    let rect = result.unwrap();
    assert_eq!(rect.left, 0);
    assert_eq!(rect.right, 50);
    assert_eq!(rect.top, 0);
    assert_eq!(rect.bottom, 50);

    // Check that (25, 25) is on the line
    let idx = (25 * 100 + 25) * 4;
    assert_eq!(image.data()[idx], 0);
    assert_eq!(image.data()[idx + 1], 0);
    assert_eq!(image.data()[idx + 2], 255);
}

#[test]
fn test_draw_line_reverse() {
    let mut image = create_test_image(100, 100);

    // Draw from bottom-right to top-left
    let result = image.draw_line(90, 90, 10, 10, [255, 255, 0, 255]);
    assert!(result.is_ok());

    // Check that (50, 50) is on the line
    let idx = (50 * 100 + 50) * 4;
    assert_eq!(image.data()[idx], 255);
    assert_eq!(image.data()[idx + 1], 255);
    assert_eq!(image.data()[idx + 2], 0);
}

#[test]
fn test_draw_line_clipping() {
    let mut image = create_test_image(100, 100);

    // Line that goes partially outside image bounds
    let result = image.draw_line(-10, 50, 110, 50, [255, 0, 0, 255]);
    assert!(result.is_ok());

    // Should clip to image bounds
    let rect = result.unwrap();
    assert!(rect.left <= 0);
    assert!(rect.right <= 99);
}

#[test]
fn test_data_for_rect() {
    let mut image = create_test_image(4, 3);
    let dot = InclusiveRectangle { left: 1, top: 1, right: 1, bottom: 1 };
    image.fill_rectangle(&dot, [1, 2, 3, 4]).unwrap();
    let rect = InclusiveRectangle { left: 1, top: 0, right: 2, bottom: 1 };
    // From the first to the last pixel of the rectangle, with what lies between the rows
    let data = image.data_for_rect(&rect);
    assert_eq!(data.len(), image.stride() + 2 * image.bytes_per_pixel());
    assert_eq!(data[image.stride()..image.stride() + 4], [1, 2, 3, 4]);
}
