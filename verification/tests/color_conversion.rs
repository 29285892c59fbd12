use rdp_session::color_conversion::{rdp_15bit_to_rgb, rdp_16bit_to_rgb};

#[test]
fn test_rdp_16bit_to_rgb_black() {
    // All zeros = black
    let rgb = rdp_16bit_to_rgb(0x0000);
    assert_eq!(rgb, [0, 0, 0]);
}

#[test]
fn test_rdp_16bit_to_rgb_white() {
    // All ones = white (0xFFFF in RGB565)
    let rgb = rdp_16bit_to_rgb(0xFFFF);
    assert_eq!(rgb, [255, 255, 255]);
}

#[test]
fn test_rdp_16bit_to_rgb_red() {
    // Red: 11111 000000 00000 = 0xF800
    let rgb = rdp_16bit_to_rgb(0xF800);
    assert_eq!(rgb, [255, 0, 0]);
}

#[test]
fn test_rdp_16bit_to_rgb_green() {
    // Green: 00000 111111 00000 = 0x07E0
    let rgb = rdp_16bit_to_rgb(0x07E0);
    assert_eq!(rgb, [0, 255, 0]);
}

#[test]
fn test_rdp_16bit_to_rgb_blue() {
    // Blue: 00000 000000 11111 = 0x001F
    let rgb = rdp_16bit_to_rgb(0x001F);
    assert_eq!(rgb, [0, 0, 255]);
}

#[test]
fn test_rdp_15bit_to_rgb_black() {
    // All zeros = black
    let rgb = rdp_15bit_to_rgb(0x0000);
    assert_eq!(rgb, [0, 0, 0]);
}

#[test]
fn test_rdp_15bit_to_rgb_white() {
    // All ones in RGB555 = 0x7FFF (bit 15 is ignored)
    let rgb = rdp_15bit_to_rgb(0x7FFF);
    assert_eq!(rgb, [255, 255, 255]);
}

#[test]
fn test_rdp_15bit_to_rgb_red() {
    // Red: 0 11111 00000 00000 = 0x7C00
    let rgb = rdp_15bit_to_rgb(0x7C00);
    assert_eq!(rgb, [255, 0, 0]);
}

#[test]
fn test_rdp_15bit_to_rgb_green() {
    // Green: 0 00000 11111 00000 = 0x03E0
    let rgb = rdp_15bit_to_rgb(0x03E0);
    assert_eq!(rgb, [0, 255, 0]);
}

#[test]
fn test_rdp_15bit_to_rgb_blue() {
    // Blue: 0 00000 00000 11111 = 0x001F
    let rgb = rdp_15bit_to_rgb(0x001F);
    assert_eq!(rgb, [0, 0, 255]);
}

#[test]
fn test_rdp_15bit_ignores_high_bit() {
    // Setting bit 15 should have no effect
    let rgb_without_high = rdp_15bit_to_rgb(0x7FFF);
    let rgb_with_high = rdp_15bit_to_rgb(0xFFFF);
    assert_eq!(rgb_without_high, rgb_with_high);
}

#[test]
fn test_rdp_15bit_to_rgb_mid_values() {
    // Test mid-range values to verify scaling accuracy
    // Half intensity for each channel: 0 10000 10000 10000 = 0x4210
    let rgb = rdp_15bit_to_rgb(0x4210);
    // 16/31 scaled to 255 should be approximately 131-132
    assert!(rgb[0] >= 130 && rgb[0] <= 135);
    assert!(rgb[1] >= 130 && rgb[1] <= 135);
    assert!(rgb[2] >= 130 && rgb[2] <= 135);
}

#[test]
fn test_rdp_16bit_to_rgb_mid_values() {
    // Test mid-range values
    // Half intensity: 10000 100000 10000 = 0x8410
    let rgb = rdp_16bit_to_rgb(0x8410);
    // 16/31 for R and B, 32/63 for G, scaled to 255
    assert!(rgb[0] >= 130 && rgb[0] <= 135);
    assert!(rgb[1] >= 130 && rgb[1] <= 135);
    assert!(rgb[2] >= 130 && rgb[2] <= 135);
}

#[test]
fn test_rdp_15bit_to_rgb_yellow() {
    // Yellow = Red + Green: 0 11111 11111 00000 = 0x7FE0
    let rgb = rdp_15bit_to_rgb(0x7FE0);
    assert_eq!(rgb, [255, 255, 0]);
}

#[test]
fn test_rdp_15bit_to_rgb_cyan() {
    // Cyan = Green + Blue: 0 00000 11111 11111 = 0x03FF
    let rgb = rdp_15bit_to_rgb(0x03FF);
    assert_eq!(rgb, [0, 255, 255]);
}

#[test]
fn test_rdp_15bit_to_rgb_magenta() {
    // Magenta = Red + Blue: 0 11111 00000 11111 = 0x7C1F
    let rgb = rdp_15bit_to_rgb(0x7C1F);
    assert_eq!(rgb, [255, 0, 255]);
}

#[test]
fn test_rdp_16bit_to_rgb_yellow() {
    // Yellow = Red + Green: 11111 111111 00000 = 0xFFE0
    let rgb = rdp_16bit_to_rgb(0xFFE0);
    assert_eq!(rgb, [255, 255, 0]);
}

#[test]
fn test_rdp_16bit_to_rgb_cyan() {
    // Cyan = Green + Blue: 00000 111111 11111 = 0x07FF
    let rgb = rdp_16bit_to_rgb(0x07FF);
    assert_eq!(rgb, [0, 255, 255]);
}

#[test]
fn test_rdp_16bit_to_rgb_magenta() {
    // Magenta = Red + Blue: 11111 000000 11111 = 0xF81F
    let rgb = rdp_16bit_to_rgb(0xF81F);
    assert_eq!(rgb, [255, 0, 255]);
}

#[test]
fn test_rdp_15bit_single_bit_values() {
    // Test minimum non-zero value for each channel
    // Just red bit 10 set: 0 00001 00000 00000 = 0x0400
    let rgb = rdp_15bit_to_rgb(0x0400);
    assert_eq!(rgb[0], 8); // 1/31 * 255 ≈ 8
    assert_eq!(rgb[1], 0);
    assert_eq!(rgb[2], 0);

    // Just green bit 5 set: 0 00000 00001 00000 = 0x0020
    let rgb = rdp_15bit_to_rgb(0x0020);
    assert_eq!(rgb[0], 0);
    assert_eq!(rgb[1], 8);
    assert_eq!(rgb[2], 0);

    // Just blue bit 0 set: 0 00000 00000 00001 = 0x0001
    let rgb = rdp_15bit_to_rgb(0x0001);
    assert_eq!(rgb[0], 0);
    assert_eq!(rgb[1], 0);
    assert_eq!(rgb[2], 8);
}
