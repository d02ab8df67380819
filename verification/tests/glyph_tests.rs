use vesad::display::Display;
use vesad::font::FontData;
use vesad::font::GlyphSample;
use vesad::pixel::blend;

fn push_be16(out: &mut Vec<u8>, value: u16) {
    out.push((value >> 8) as u8);
    out.push((value & 0xFF) as u8);
}

fn push_be32(out: &mut Vec<u8>, value: u32) {
    push_be16(out, (value >> 16) as u16);
    push_be16(out, (value & 0xFFFF) as u16);
}

/// A minimal TrueType blob: offset table plus the required `head`,
/// `hhea` and `maxp` tables, one glyph, no outlines.
fn tiny_font() -> Vec<u8> {
    let mut font: Vec<u8> = Vec::new();
    push_be32(&mut font, 0x00010000);
    push_be16(&mut font, 3);
    push_be16(&mut font, 32);
    push_be16(&mut font, 1);
    push_be16(&mut font, 16);
    push_be32(&mut font, 0x68656164); // "head"
    push_be32(&mut font, 0);
    push_be32(&mut font, 60);
    push_be32(&mut font, 54);
    push_be32(&mut font, 0x68686561); // "hhea"
    push_be32(&mut font, 0);
    push_be32(&mut font, 114);
    push_be32(&mut font, 36);
    push_be32(&mut font, 0x6D617870); // "maxp"
    push_be32(&mut font, 0);
    push_be32(&mut font, 150);
    push_be32(&mut font, 6);
    // head
    push_be32(&mut font, 0x00010000);
    push_be32(&mut font, 0);
    push_be32(&mut font, 0);
    push_be32(&mut font, 0x5F0F3CF5);
    push_be16(&mut font, 0);
    push_be16(&mut font, 1000);
    push_be32(&mut font, 0);
    push_be32(&mut font, 0);
    push_be32(&mut font, 0);
    push_be32(&mut font, 0);
    push_be16(&mut font, 0);
    push_be16(&mut font, 0);
    push_be16(&mut font, 0);
    push_be16(&mut font, 0);
    push_be16(&mut font, 0);
    push_be16(&mut font, 0);
    push_be16(&mut font, 0);
    push_be16(&mut font, 0);
    push_be16(&mut font, 0);
    // hhea
    push_be32(&mut font, 0x00010000);
    push_be16(&mut font, 800);
    push_be16(&mut font, 0xFF38); // -200
    push_be16(&mut font, 0);
    push_be16(&mut font, 0);
    push_be16(&mut font, 0);
    push_be16(&mut font, 0);
    push_be16(&mut font, 0);
    push_be16(&mut font, 1);
    push_be16(&mut font, 0);
    push_be16(&mut font, 0);
    push_be16(&mut font, 0);
    push_be16(&mut font, 0);
    push_be16(&mut font, 0);
    push_be16(&mut font, 0);
    push_be16(&mut font, 0);
    push_be16(&mut font, 1);
    // maxp
    push_be32(&mut font, 0x00005000);
    push_be16(&mut font, 1);
    font
}

fn tiny_display(width: usize, height: usize, pixels: Vec<u32>) -> Display {
    let fonts = FontData {
        regular: tiny_font(),
        bold: tiny_font(),
        italic: tiny_font(),
        bold_italic: tiny_font(),
    };
    match Display::new(width, height, pixels.clone(), pixels, fonts) {
        Ok(d) => d,
        Err(_) => panic!("display construction failed"),
    }
}

fn sample(dx: u32, dy: u32, coverage: u8) -> GlyphSample {
    GlyphSample { dx, dy, coverage }
}

#[test]
fn full_coverage_writes_exact_color() {
    let mut d = tiny_display(4, 4, vec![0; 16]);
    d.apply_samples(1, 1, 0x123456, &vec![sample(1, 0, 255)]);
    assert_eq!(d.offscreen[1 * 4 + 2], 0x123456);
    assert_eq!(d.onscreen, d.offscreen);
}

#[test]
fn full_coverage_masks_top_byte() {
    let mut d = tiny_display(2, 2, vec![0; 4]);
    d.apply_samples(0, 0, 0xAB123456, &vec![sample(0, 0, 255)]);
    assert_eq!(d.offscreen[0], 0x123456);
    assert_eq!(d.onscreen, d.offscreen);
}

#[test]
fn zero_coverage_leaves_pixel_unchanged() {
    let mut d = tiny_display(2, 2, vec![0x777777; 4]);
    d.apply_samples(0, 0, 0x123456, &vec![sample(0, 0, 0), sample(1, 1, 0)]);
    assert_eq!(d.offscreen, vec![0x777777; 4]);
    assert_eq!(d.onscreen, d.offscreen);
}

#[test]
fn partial_coverage_scales_each_channel() {
    let mut d = tiny_display(1, 1, vec![0]);
    d.apply_samples(0, 0, 0xFF8040, &vec![sample(0, 0, 128)]);
    // 255*128/255 = 128, 128*128/255 = 64, 64*128/255 = 32.
    assert_eq!(d.offscreen[0], 0x804020);
    assert_eq!(d.onscreen, d.offscreen);
}

#[test]
fn out_of_bounds_samples_are_dropped() {
    let mut d = tiny_display(2, 2, vec![0x99; 4]);
    d.apply_samples(1, 1, 0x123456, &vec![sample(1, 0, 255), sample(0, 1, 255), sample(7, 9, 255)]);
    assert_eq!(d.offscreen, vec![0x99; 4]);
    assert_eq!(d.onscreen, d.offscreen);
}

#[test]
fn clipped_glyph_writes_only_inside() {
    // Glyph origin at the bottom-right corner: of a 2x2 box of samples
    // only the corner pixel itself is inside the buffer.
    let mut d = tiny_display(4, 4, vec![0; 16]);
    let samples = vec![sample(0, 0, 255), sample(1, 0, 255), sample(0, 1, 255), sample(1, 1, 255)];
    d.apply_samples(3, 3, 0x123456, &samples);
    let mut expected = vec![0; 16];
    expected[3 * 4 + 3] = 0x123456;
    assert_eq!(d.offscreen, expected);
    assert_eq!(d.onscreen, d.offscreen);
}

#[test]
fn later_sample_on_same_pixel_wins() {
    let mut d = tiny_display(1, 1, vec![0]);
    d.apply_samples(0, 0, 0xFF0000, &vec![sample(0, 0, 255), sample(0, 0, 128)]);
    assert_eq!(d.offscreen[0], 0x800000);
    assert_eq!(d.onscreen, d.offscreen);
}

#[test]
fn blend_full_coverage_is_masked_identity() {
    assert_eq!(blend(0x123456, 255), 0x123456);
    assert_eq!(blend(0xFF123456, 255), 0x123456);
}

#[test]
fn blend_zero_coverage_is_black() {
    assert_eq!(blend(0xFFFFFF, 0), 0);
}

#[test]
fn blend_half_coverage_halves_channels() {
    assert_eq!(blend(0xFF8040, 128), 0x804020);
}
