use rdp_session::color_conversion::{
    to_64x64_ycbcr_tile, ycbcr_to_argb, ycbcr_to_rgba, ConversionError, YCbCr, YCbCrBuffer,
};
use rdp_session::pixel_format::PixelFormat;

fn tile_of(pixel: [u8; 4], format: PixelFormat) -> (i16, i16, i16) {
    let mut y = [7i16; 4096];
    let mut cb = [7i16; 4096];
    let mut cr = [7i16; 4096];
    to_64x64_ycbcr_tile(&pixel, 1, 1, 4, format, &mut y, &mut cb, &mut cr).unwrap();
    assert_eq!((y[1], cb[1], cr[1]), (7, 7, 7));
    assert_eq!((y[64], cb[64], cr[64]), (7, 7, 7));
    (y[0], cb[0], cr[0])
}

#[test]
fn points_become_rgba_pixels() {
    let input = YCbCrBuffer { y: &[-1657, 4063, -4096], cb: &[-1379, 0, 0], cr: &[4078, 0, 0] };
    let mut output = [1u8; 14];
    assert!(ycbcr_to_rgba(input, &mut output).is_ok());
    assert_eq!(output, [254, 0, 0, 255, 254, 254, 254, 255, 0, 0, 0, 255, 1, 1]);
}

#[test]
fn points_become_argb_pixels() {
    let input = YCbCrBuffer { y: &[-1657], cb: &[-1379], cr: &[4078] };
    let mut output = [1u8; 4];
    assert!(ycbcr_to_argb(input, &mut output).is_ok());
    assert_eq!(output, [255, 254, 0, 0]);
}

#[test]
fn colors_follow_the_formula() {
    let intensity = |value: i64| (value >> 21).clamp(0, 255) as u8;
    for y in (-4096..4096).step_by(257) {
        for cb in (-4096..4096).step_by(271) {
            for cr in (-4096..4096).step_by(283) {
                let mut output = [0u8; 4];
                let input = YCbCrBuffer { y: &[y], cb: &[cb], cr: &[cr] };
                assert!(ycbcr_to_rgba(input, &mut output).is_ok());
                let (y, cb, cr) = ((i64::from(y) + 4096) << 16, i64::from(cb), i64::from(cr));
                let r = intensity(y + 91915 * cr);
                let g = intensity(y - 46818 * cr - 22526 * cb);
                let b = intensity(y + 115992 * cb);
                assert_eq!(output, [r, g, b, 255]);
            }
        }
    }
}

#[test]
fn intensities_are_limited() {
    let input = YCbCrBuffer { y: &[8191], cb: &[4095], cr: &[4095] };
    let mut output = [0u8; 4];
    assert!(ycbcr_to_rgba(input, &mut output).is_ok());
    assert_eq!(output[0], 255);
    assert_eq!(output[2], 255);
}

#[test]
fn too_few_points_change_nothing() {
    let mut output = [9u8; 8];
    let short = YCbCrBuffer { y: &[0, 0], cb: &[0], cr: &[0, 0] };
    assert!(matches!(ycbcr_to_rgba(short, &mut output), Err(ConversionError::Size(_))));
    let short = YCbCrBuffer { y: &[0], cb: &[0, 0], cr: &[0, 0] };
    assert!(matches!(ycbcr_to_argb(short, &mut output), Err(ConversionError::Size(_))));
    assert_eq!(output, [9; 8]);
    let none = YCbCrBuffer { y: &[0], cb: &[0], cr: &[0] };
    assert!(matches!(ycbcr_to_argb(none, &mut []), Err(ConversionError::Size(_))));
}

#[test]
fn pixels_become_points_in_every_format() {
    let red = (-1657, -1379, 4078);
    assert_eq!(tile_of([255, 0, 0, 9], PixelFormat::RgbA32), red);
    assert_eq!(tile_of([255, 0, 0, 9], PixelFormat::RgbX32), red);
    assert_eq!(tile_of([9, 255, 0, 0], PixelFormat::ARgb32), red);
    assert_eq!(tile_of([9, 255, 0, 0], PixelFormat::XRgb32), red);
    assert_eq!(tile_of([0, 0, 255, 9], PixelFormat::BgrA32), red);
    assert_eq!(tile_of([0, 0, 255, 9], PixelFormat::BgrX32), red);
    assert_eq!(tile_of([9, 0, 0, 255], PixelFormat::ABgr32), red);
    assert_eq!(tile_of([9, 0, 0, 255], PixelFormat::XBgr32), red);
}

#[test]
fn rows_of_an_area_are_a_stride_apart() {
    let mut input = vec![0u8; 100];
    // The last pixel of the second row is white.
    input[40 + 8..40 + 11].copy_from_slice(&[255, 255, 255]);
    let mut y = [1i16; 4096];
    let mut cb = [1i16; 4096];
    let mut cr = [1i16; 4096];
    to_64x64_ycbcr_tile(&input, 3, 2, 40, PixelFormat::RgbA32, &mut y, &mut cb, &mut cr).unwrap();
    assert_eq!(y[0], -4096);
    assert_eq!(y[64 + 1], -4096);
    assert_eq!((y[64 + 2], cb[64 + 2], cr[64 + 2]), (4063, 0, 0));
    assert_eq!(y[3], 1);
    assert_eq!(y[128], 1);
}

#[test]
fn a_wide_area_is_converted_alike() {
    let mut input = Vec::new();
    for i in 0..64 {
        input.extend_from_slice(&[(i * 4) as u8, (i * 3) as u8, (i * 2) as u8, 0]);
    }
    let mut y = [0i16; 4096];
    let mut cb = [0i16; 4096];
    let mut cr = [0i16; 4096];
    to_64x64_ycbcr_tile(&input, 64, 1, 256, PixelFormat::RgbA32, &mut y, &mut cb, &mut cr).unwrap();
    for i in 0..64 {
        let (r, g, b) = (i * 4, i * 3, i * 2);
        assert_eq!(i32::from(y[i as usize]), ((9797 * r + 19234 * g + 3735 * b) >> 10) - 4096);
        assert_eq!(i32::from(cb[i as usize]), (-5535 * r - 10867 * g + 16403 * b) >> 10);
        assert_eq!(i32::from(cr[i as usize]), (16377 * r - 13714 * g - 2663 * b) >> 10);
    }
}

#[test]
fn areas_that_do_not_fit_are_refused() {
    let mut y = [3i16; 4096];
    let mut cb = [3i16; 4096];
    let mut cr = [3i16; 4096];
    let input = [0u8; 16];
    let f = PixelFormat::RgbA32;
    assert!(to_64x64_ycbcr_tile(&input, 0, 1, 16, f, &mut y, &mut cb, &mut cr).is_err());
    assert!(to_64x64_ycbcr_tile(&input, 1, 0, 16, f, &mut y, &mut cb, &mut cr).is_err());
    assert!(to_64x64_ycbcr_tile(&input, 5, 1, 20, f, &mut y, &mut cb, &mut cr).is_err());
    assert!(to_64x64_ycbcr_tile(&input, 2, 1, 4, f, &mut y, &mut cb, &mut cr).is_err());
    assert_eq!((y, cb, cr), ([3; 4096], [3; 4096], [3; 4096]));
}

#[test]
fn grey_pixels_come_back_at_most_one_step_darker() {
    for v in 0..=255u8 {
        let (y, cb, cr) = tile_of([v, v, v, 0], PixelFormat::RgbA32);
        let mut output = [0u8; 4];
        assert!(ycbcr_to_rgba(YCbCrBuffer { y: &[y], cb: &[cb], cr: &[cr] }, &mut output).is_ok());
        assert!(output[0] == v || output[0] + 1 == v);
        assert_eq!(output, [output[0], output[0], output[0], 255]);
    }
}

#[test]
fn points_are_taken_one_by_one() {
    let mut buffer = YCbCrBuffer { y: &[1, 2, 3], cb: &[4, 5], cr: &[6, 7, 8, 9] };
    assert_eq!(buffer.next(), Some(YCbCr { y: 1, cb: 4, cr: 6 }));
    assert_eq!(buffer.next(), Some(YCbCr { y: 2, cb: 5, cr: 7 }));
    assert_eq!(buffer.next(), None);
    assert_eq!(buffer.y, [3]);
}
