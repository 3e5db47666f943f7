//! Rendering a clock face in D'ni numerals: pixel buffers, glyph writing,
//! the glyph cache and the layout of a frame.
pub mod buf2d;
pub mod clock;
pub mod colors;
pub mod glyphs;
