//! Text for a small display: glyphs are laid out and rasterised by rusttype,
//! composited here into a tightly bounded text image, and handed back with
//! the rectangle of the screen that changed.

pub mod fonts;
pub mod glyph;
pub mod image;
pub mod real32;
pub mod render;
