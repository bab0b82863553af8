//! Immediate-mode grid GUI toolkit: pixel formats, glyph atlases that bake
//! fonts into pixel blocks, a weighted grid layout engine, and the pixel-buffer
//! logic of the display backends.
use vstd::prelude::*;

pub mod pixel;
pub mod color;
pub mod pixbuf;
pub mod text;
pub mod icon;
pub mod keys;
pub mod input;
pub mod render;
pub mod raster;
pub mod ttf;
pub mod truetype;
pub mod buf;
pub mod surface;
pub mod grid;

pub use pixel::{PixelFormat, Rgb565, Rgb888, Rgba8888};

verus! {

} // verus!
