//! Meshing of padded voxel chunks into quads that are bucketed by level of
//! detail.
//!
//! A chunk is a dense array of voxels with one cell of padding on each side.
//! The meshers give the exposed faces of the voxels of the interior their
//! quads, one quad for each face or one for each rectangle of faces that can
//! merge, and add each quad to the bucket of its face and of the highest
//! level of detail at which it is drawn.

pub mod buffer;
pub mod easing;
pub mod exposure;
pub mod geometry;
pub mod greedy;
pub mod grid;
pub mod lod;
pub mod theory;
pub mod visible_faces;
pub mod voxel;

pub use buffer::{PopBuffer, QuadBuffer, VisitedBuffer};
pub use easing::LodEasing;
pub use geometry::axis::{Axis, AxisPermutation};
pub use geometry::face::{FaceStrides, OrientedBlockFace};
pub use geometry::quad::{UnorientedQuad, UnorientedRegularQuad, UnorientedUnitQuad};
pub use geometry::shape::{ChunkShape, InnerChunkShapeIterator, InnerChunkShapeSliceIterator};
pub use geometry::vector::{IVec3, UVec3};
pub use greedy::{face_needs_mesh, get_max_height, get_max_width, greedy_quads};
pub use lod::{expand_greedy_to_lod, expand_to_lod, extract_lod, LodQuad};
pub use visible_faces::visible_faces_quads;
pub use voxel::{MergeVoxel, MeshVoxel, VoxelVisibility};
