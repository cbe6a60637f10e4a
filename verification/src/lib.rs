//! A terminal raster engine: a fixed-size grid of colored glyphs, integer
//! line and circle rasterization routed through an aspect-correcting
//! coordinate mapper, a diff-aware color escape encoder, a frame pacer,
//! and key-event normalization.

use vstd::prelude::*;

pub mod display;
pub mod drawing;
pub mod event;
pub mod framebuffer;
pub mod pacer;
pub mod render;

pub use drawing::Color;
pub use drawing::pixel;

verus! {

} // verus!
