//! Text rendering with the Misaki 4x8 bitmap font.
//!
//! A packed font atlas stores a 16 x 16 grid of glyph cells, each 4 pixels
//! wide and 8 pixels tall, two glyph columns per byte (nibble packing).
//! The library decodes one glyph per character, expands it to a pixel mask,
//! and draws each set pixel as a scaled filled rectangle on a fallible
//! drawing surface, advancing a text cursor as it goes.

pub mod geometry;
pub mod glyph;
pub mod render;
pub mod surface;
