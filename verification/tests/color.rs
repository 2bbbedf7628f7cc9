use cyd_player::color::Rgb565;

fn reference(y: u8, u: u8, v: u8) -> (u8, u8, u8) {
    let y = y as f64;
    let u = u as f64 - 128.0;
    let v = v as f64 - 128.0;
    let r = (y + 1.5748 * v).clamp(0.0, 255.0) as u8;
    let g = (y - 0.1873 * u - 0.4681 * v).clamp(0.0, 255.0) as u8;
    let b = (y + 1.8556 * u).clamp(0.0, 255.0) as u8;
    (r >> 3, g >> 2, b >> 3)
}

#[test]
fn gray_keeps_its_brightness() {
    for y in 0..=255u8 {
        let c = Rgb565::from_yuv(y, 128, 128);
        assert_eq!(c, Rgb565 { r: y >> 3, g: y >> 2, b: y >> 3 });
        assert_eq!(c, Rgb565::from_rgb888(y, y, y));
    }
}

#[test]
fn known_colours() {
    assert_eq!(Rgb565::from_yuv(200, 128, 128), Rgb565 { r: 25, g: 50, b: 25 });
    // red 128 + 1.5748 * 127 = 327.9996 is held to 255;
    // green 128 - 0.4681 * 127 = 68.5513 is cut to 68; blue stays 128
    assert_eq!(Rgb565::from_yuv(128, 128, 255), Rgb565 { r: 31, g: 17, b: 16 });
    // red stays 128; green 128 + 0.1873 * 128 = 151.9744 is cut to 151;
    // blue 128 - 1.8556 * 128 = -109.5 is held to 0
    assert_eq!(Rgb565::from_yuv(128, 0, 128), Rgb565 { r: 16, g: 37, b: 0 });
    // red 16 - 1.5748 * 128 < 0; green 16 + 0.4681 * 128 = 75.9168; blue 16
    assert_eq!(Rgb565::from_yuv(16, 128, 0), Rgb565 { r: 0, g: 18, b: 2 });
    assert_eq!(Rgb565::from_yuv(0, 0, 0), Rgb565 { r: 0, g: 20, b: 0 });
    assert_eq!(Rgb565::from_yuv(255, 255, 255), Rgb565 { r: 31, g: 42, b: 31 });
}

#[test]
fn conversion_follows_the_formula_within_one_step() {
    let mut y = 0u32;
    while y <= 255 {
        let mut u = 0u32;
        while u <= 255 {
            let mut v = 0u32;
            while v <= 255 {
                let c = Rgb565::from_yuv(y as u8, u as u8, v as u8);
                let (r, g, b) = reference(y as u8, u as u8, v as u8);
                assert!((c.r as i32 - r as i32).abs() <= 1, "red of {y} {u} {v}");
                assert!((c.g as i32 - g as i32).abs() <= 1, "green of {y} {u} {v}");
                assert!((c.b as i32 - b as i32).abs() <= 1, "blue of {y} {u} {v}");
                assert!(c.r < 32 && c.g < 64 && c.b < 32);
                v += 5;
            }
            u += 5;
        }
        y += 5;
    }
}

#[test]
fn eight_bit_colours_lose_their_low_bits() {
    assert_eq!(Rgb565::from_rgb888(255, 255, 255), Rgb565 { r: 31, g: 63, b: 31 });
    assert_eq!(Rgb565::from_rgb888(7, 3, 7), Rgb565 { r: 0, g: 0, b: 0 });
    assert_eq!(Rgb565::from_rgb888(8, 4, 8), Rgb565 { r: 1, g: 1, b: 1 });
    assert_eq!(Rgb565::from_rgb888(138, 138, 138), Rgb565 { r: 17, g: 34, b: 17 });
}

#[test]
fn raw_colours_are_big_endian() {
    assert_eq!(Rgb565::from_be_bytes(0xF8, 0x00), Rgb565 { r: 31, g: 0, b: 0 });
    assert_eq!(Rgb565::from_be_bytes(0x07, 0xE0), Rgb565 { r: 0, g: 63, b: 0 });
    assert_eq!(Rgb565::from_be_bytes(0x00, 0x1F), Rgb565 { r: 0, g: 0, b: 31 });
    assert_eq!(Rgb565::from_be_bytes(0x12, 0x34), Rgb565 { r: 2, g: 17, b: 20 });
    for raw in [0u16, 1, 0x1234, 0x8000, 0xFFFF, 0xF81F] {
        let c = Rgb565::from_be_bytes((raw >> 8) as u8, raw as u8);
        assert_eq!(c.to_raw(), raw);
    }
}
