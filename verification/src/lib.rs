//! Display subsystem of a single-address-space kernel: a pixel-format-aware
//! framebuffer painter together with a z-ordered layer compositor.
//!
//! The painter owns the raw framebuffer bytes and performs clipped primitive
//! drawing (pixel, rectangle, line, bitmap and glyph blits, vertical scroll).
//! The layer compositor maintains an ordered collection of off-screen
//! surfaces and composites them into the framebuffer, either in full or
//! restricted to a damage region with occlusion-driven early exit.

pub mod color;
pub mod compose;
pub mod geometry;
pub mod graphics;
pub mod gui;
pub mod interrupts;
pub mod keyboard;
pub mod layer;
pub mod log;
pub mod unifont;
