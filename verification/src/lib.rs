//! Core of a software 3D rasterization engine: packed colors with saturating
//! arithmetic, a color/depth framebuffer with a depth-tested write and a
//! Bresenham line primitive, bounding-box clipping for the triangle
//! rasterizer, a starfield background layer, and small deterministic helpers
//! used by the scene (a linear congruential generator and a planet palette).
//!
//! Depths are carried as plain `u32` keys ordered so that smaller means
//! nearer; callers that measure depth in floating point convert through an
//! order-preserving encoding before entering the core.

pub mod color;
pub mod framebuffer;
pub mod raster;
pub mod scene;
pub mod skybox;
