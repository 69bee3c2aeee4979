//! Sierpinski triangle rendering by recursive midpoint subdivision.
//!
//! Coordinates are exact dyadic fixed-point numbers: a triangle carries a
//! `shift`, and each of its coordinates `v` stands for `v / 2^shift`.
//! Subdividing a triangle raises the shift by one, so every midpoint is exact.
//! Rendering yields the triangles to draw, and then the calls on a 2D drawing
//! surface that draw them; the host replays those calls on its own surface.

pub mod draw;
pub mod geometry;
pub mod palette;
pub mod render;

pub use draw::{draw_commands, render_commands, Command};
pub use geometry::{subdivide, Color, Position, Triangle};
pub use palette::random_color;
pub use render::{sierpinski, sierpinski_with_palette, subdivision_count, Policy, RenderConfig};
