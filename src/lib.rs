//! Homogeneous-coordinate linear algebra for a ray tracer: points and
//! vectors, colors, matrices and a pixel canvas with a text image writer.
//!
//! Every real quantity is held as a fixed-point `i64` (see [`fixed`]), so
//! that all arithmetic is exact integer arithmetic and can be proved.

pub mod fixed;
pub mod vector;
pub mod text;
pub mod color;
pub mod pixel;
pub mod canvas;
pub mod matrix;
pub mod point;
pub mod sums;
