//! A software framebuffer for a display driver.
//!
//! A [`display::Display`] owns a pair of equally sized pixel buffers — the
//! screen buffer that the video hardware reads and an in-memory shadow copy —
//! and offers three drawing primitives: solid rectangle fill, single-glyph
//! text rendering, and vertical scroll.  After every primitive the two
//! buffers hold identical pixel values.

pub mod display;
pub mod font;
pub mod pixel;
