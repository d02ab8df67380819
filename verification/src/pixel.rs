//! Packed-pixel colour arithmetic.
//!
//! A pixel is a 32-bit slot holding a 24-bit colour in its low bits,
//! `0x00RRGGBB`; the top byte is unused.  Glyph rendering scales each colour
//! channel by a coverage value in `0 ..= 255`: the channel is masked to
//! 8 bits first and then scaled, so the unused top byte of the colour can
//! never leak into the result.

use vstd::prelude::*;

verus! {

/// The red channel of a packed colour.
pub open spec fn red_channel(color: u32) -> u32 {
    (color >> 16) & 0xFF
}

/// The green channel of a packed colour.
pub open spec fn green_channel(color: u32) -> u32 {
    (color >> 8) & 0xFF
}

/// The blue channel of a packed colour.
pub open spec fn blue_channel(color: u32) -> u32 {
    color & 0xFF
}

/// One 8-bit channel scaled by `coverage / 255`.
pub open spec fn scale_channel(channel: u32, coverage: u8) -> int {
    (channel * coverage) / 255
}

/// The colour written for a glyph sample: each channel masked to 8 bits,
/// scaled by `coverage / 255`, and repacked.
pub open spec fn blend_spec(color: u32, coverage: u8) -> u32 {
    (scale_channel(red_channel(color), coverage) * 0x10000
        + scale_channel(green_channel(color), coverage) * 0x100
        + scale_channel(blue_channel(color), coverage)) as u32
}

/// Each extracted channel fits in 8 bits.
proof fn lemma_channels_bounded(color: u32)
    ensures
        red_channel(color) <= 0xFF,
        green_channel(color) <= 0xFF,
        blue_channel(color) <= 0xFF,
{
    assert((color >> 16) & 0xFF <= 0xFF) by (bit_vector);
    assert((color >> 8) & 0xFF <= 0xFF) by (bit_vector);
    assert(color & 0xFF <= 0xFF) by (bit_vector);
}

/// A scaled channel still fits in 8 bits.
proof fn lemma_scale_channel_bounded(channel: u32, coverage: u8)
    requires
        channel <= 0xFF,
    ensures
        0 <= scale_channel(channel, coverage) <= 0xFF,
{
    assert(channel * coverage <= 0xFF * 0xFF) by (nonlinear_arith)
        requires
            channel <= 0xFF,
            coverage <= 0xFF,
    ;
}

/// Blend a colour with a coverage value.
///
/// With full coverage the result is the colour itself, masked to its low
/// 24 bits; with zero coverage the result is black.  Callers that want a
/// zero-coverage sample to leave a pixel untouched must skip the write.
pub fn blend(color: u32, coverage: u8) -> (blended: u32)
    ensures
        blended == blend_spec(color, coverage),
{
    proof {
        lemma_channels_bounded(color);
        lemma_scale_channel_bounded(red_channel(color), coverage);
        lemma_scale_channel_bounded(green_channel(color), coverage);
        lemma_scale_channel_bounded(blue_channel(color), coverage);
    }
    let r: u32 = ((color >> 16) & 0xFF) * (coverage as u32) / 255;
    let g: u32 = ((color >> 8) & 0xFF) * (coverage as u32) / 255;
    let b: u32 = (color & 0xFF) * (coverage as u32) / 255;
    proof {
        assert(r <= 0xFF && g <= 0xFF && b <= 0xFF ==> ((r << 16) | (g << 8) | b)
            == r * 0x10000 + g * 0x100 + b) by (bit_vector);
    }
    (r << 16) | (g << 8) | b
}

/// A sample with full coverage writes the colour itself, masked to the
/// 24 colour bits.
pub proof fn lemma_blend_full_coverage(color: u32)
    ensures
        blend_spec(color, 255) == color & 0xFFFFFF,
{
    lemma_channels_bounded(color);
    assert(red_channel(color) * 255 / 255 == red_channel(color));
    assert(green_channel(color) * 255 / 255 == green_channel(color));
    assert(blue_channel(color) * 255 / 255 == blue_channel(color));
    let c = color;
    assert(((c >> 16) & 0xFF) * 0x10000 + ((c >> 8) & 0xFF) * 0x100 + (c & 0xFF)
        == c & 0xFFFFFF) by (bit_vector);
}

/// For a colour whose unused top byte is clear, full coverage reproduces
/// the colour exactly.
pub proof fn lemma_blend_full_coverage_exact(color: u32)
    requires
        color <= 0xFFFFFF,
    ensures
        blend_spec(color, 255) == color,
{
    lemma_blend_full_coverage(color);
    assert(color <= 0xFFFFFF ==> color & 0xFFFFFF == color) by (bit_vector);
}

} // verus!
