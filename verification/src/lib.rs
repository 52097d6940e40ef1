//! A terminal drawing library: pixel grids rasterized with integer
//! primitives and packed into Unicode Braille glyphs, two pixel columns
//! and four pixel rows per character cell.
//!
//! Geometry is carried in 16.16 fixed-point coordinates, so every
//! transform and every rasterized pixel is exact integer arithmetic
//! with a contract. Terminal output, file reading and floating-point
//! camera work stay outside the library and exchange plain values
//! with it.

pub mod braille;
pub mod color;
pub mod fixed;
pub mod model;
pub mod obj;
pub mod primitives;
pub mod renderer;
pub mod renderer2d;
pub mod screen;
pub mod viewport;
