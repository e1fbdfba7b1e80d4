//! Which faces of the cells of a chunk are exposed.

use crate::geometry::face::OrientedBlockFace;
use crate::geometry::shape::ChunkShape;
use crate::geometry::vector::UVec3;
use crate::voxel::{face_exposed, MeshVoxel};
use vstd::prelude::*;

verus! {

/// The cell that the face `face` of the cell `p` looks at.
pub open spec fn facing(face: OrientedBlockFace, p: UVec3) -> UVec3 {
    p.shifted(face.n, face.n_sign as int)
}

/// Whether the face `face` of the cell `p` is drawn: the voxel of the cell and
/// the voxel that the face looks at decide.
pub open spec fn exposed<const X: u32, const Y: u32, const Z: u32, V: MeshVoxel>(
    voxels: Seq<V>,
    face: OrientedBlockFace,
    p: UVec3,
) -> bool {
    face_exposed(
        voxels[ChunkShape::<X, Y, Z>::linearize_spec(p)].visibility(),
        voxels[ChunkShape::<X, Y, Z>::linearize_spec(facing(face, p))].visibility(),
    )
}

/// The index of the cell that a face of an interior cell looks at.
pub proof fn lemma_facing_index<const X: u32, const Y: u32, const Z: u32>(
    face: OrientedBlockFace,
    p: UVec3,
)
    requires
        ChunkShape::<X, Y, Z>::valid(),
        face.wf(),
        ChunkShape::<X, Y, Z>::is_interior(p),
    ensures
        ChunkShape::<X, Y, Z>::contains(facing(face, p)),
        ChunkShape::<X, Y, Z>::linearize_spec(facing(face, p)) == ChunkShape::<
            X,
            Y,
            Z,
        >::linearize_spec(p) + face.n_sign * ChunkShape::<X, Y, Z>::stride(face.n),
        0 <= ChunkShape::<X, Y, Z>::linearize_spec(facing(face, p)) < ChunkShape::<
            X,
            Y,
            Z,
        >::volume(),
        0 < ChunkShape::<X, Y, Z>::stride(face.n) <= ChunkShape::<X, Y, Z>::volume(),
{
    ChunkShape::<X, Y, Z>::lemma_linearize_shifted(p, face.n, face.n_sign as int);
    ChunkShape::<X, Y, Z>::lemma_linearize_bound(facing(face, p));
    let s = ChunkShape::<X, Y, Z>::stride(face.n);
    assert(s * 1 == s && s * (-1) == -s && 1 * s == s && (-1) * s == -s);
    ChunkShape::<X, Y, Z>::lemma_plane_fits();
}

} // verus!
