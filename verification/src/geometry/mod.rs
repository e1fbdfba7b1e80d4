//! Axes, faces, quads and the addressing of a chunk.

pub mod axis;
pub mod face;
pub mod quad;
pub mod shape;
pub mod vector;
