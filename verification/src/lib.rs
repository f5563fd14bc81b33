//! Rendering core of a grid-based first-person raycaster.
//!
//! The engine turns a rectangular tile grid, a camera and a list of billboard
//! sprites into a per-frame color buffer: walls found by DDA grid traversal,
//! floor and sky texel sampling, a flashlight-style light model, and
//! depth-sorted sprites occlusion-tested against a per-column depth buffer.
//!
//! All world-space quantities (positions, directions, distances, angles,
//! texture fractions) are fixed-point integers scaled by `fixed::FX_ONE`, so
//! every computation here is exact integer arithmetic with stated rounding.

pub mod fixed;
pub mod maze;
pub mod caster;
pub mod framebuffer;
pub mod textures;
pub mod trig;
pub mod player;
pub mod render;
pub mod sprites;
pub mod levels;
