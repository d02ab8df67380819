//! Font handles and glyph samples.
//!
//! Font parsing is done by the `rusttype` crate.  A parsed font handle is
//! opaque to the verified code: it is carried from construction to the
//! caller that rasterizes glyphs with it.  Rasterization itself works in
//! floating point, which this crate cannot hold, so a rasterized glyph
//! enters the library as a vector of plain [`GlyphSample`] values, applied
//! by [`crate::display::Display::apply_samples`].

use vstd::prelude::*;

verus! {

#[verifier::external_type_specification]
#[verifier::external_body]
pub struct ExFont<'a>(rusttype::Font<'a>);

/// One coverage sample of a rasterized glyph.
///
/// `dx` and `dy` are the sample's offset from the glyph origin handed to
/// [`crate::display::Display::apply_samples`]; `coverage` is the fraction
/// of the pixel covered by the glyph shape, scaled to `0 ..= 255`.
#[derive(Clone, Copy, Debug, PartialEq, Eq, Structural)]
pub struct GlyphSample {
    pub dx: u32,
    pub dy: u32,
    pub coverage: u8,
}

/// The four font-file byte blobs a display is constructed with, one per
/// variant of the `{bold, italic}` pair.
pub struct FontData {
    pub regular: Vec<u8>,
    pub bold: Vec<u8>,
    pub italic: Vec<u8>,
    pub bold_italic: Vec<u8>,
}

/// Whether `rusttype` accepts the given bytes as a TrueType font.
pub uninterp spec fn font_parses(data: Seq<u8>) -> bool;

/// Relies on `rusttype::Font::try_from_vec`: parses TrueType font data,
/// returning `None` when the bytes are not a valid font.  Whether parsing
/// succeeds is a deterministic function of the bytes alone, named
/// [`font_parses`].
#[verifier::external_body]
pub(crate) fn load_font(data: Vec<u8>) -> (font: Option<rusttype::Font<'static>>)
    ensures
        font.is_some() == font_parses(data@),
{
    rusttype::Font::try_from_vec(data)
}

} // verus!
