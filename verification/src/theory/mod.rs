//! What holds of the quads that the meshers make, for every chunk.

pub mod counting;
pub mod exposure;
pub mod greedy;
pub mod visible_faces;
