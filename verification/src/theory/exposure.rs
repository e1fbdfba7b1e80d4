//! What holds of exposed faces in chunks of a kind: empty ones, solid ones,
//! and pairs whose voxels have the same visibility.

use crate::exposure::{exposed, facing, lemma_facing_index};
use crate::geometry::face::OrientedBlockFace;
use crate::geometry::shape::ChunkShape;
use crate::geometry::vector::UVec3;
use crate::voxel::{MeshVoxel, VoxelVisibility};
use vstd::prelude::*;

verus! {

/// Whether each voxel of the chunk is empty.
pub open spec fn all_empty<V: MeshVoxel>(voxels: Seq<V>) -> bool {
    forall|i: int|
        0 <= i < voxels.len() ==> (#[trigger] voxels[i]).visibility() == VoxelVisibility::Empty
}

/// In a chunk of empty voxels no face is exposed.
pub proof fn lemma_empty_chunk_exposes_nothing<
    const X: u32,
    const Y: u32,
    const Z: u32,
    V: MeshVoxel,
>(voxels: Seq<V>, face: OrientedBlockFace, p: UVec3)
    requires
        ChunkShape::<X, Y, Z>::valid(),
        voxels.len() == ChunkShape::<X, Y, Z>::volume(),
        all_empty(voxels),
        ChunkShape::<X, Y, Z>::contains(p),
    ensures
        !exposed::<X, Y, Z, V>(voxels, face, p),
{
    ChunkShape::<X, Y, Z>::lemma_linearize_bound(p);
    assert(voxels[ChunkShape::<X, Y, Z>::linearize_spec(p)].visibility()
        == VoxelVisibility::Empty);
}

/// Whether the voxels of two chunks have the same visibility, cell by cell.
pub open spec fn same_visibility<V: MeshVoxel>(a: Seq<V>, b: Seq<V>) -> bool {
    &&& a.len() == b.len()
    &&& forall|i: int| 0 <= i < a.len() ==> (#[trigger] a[i]).visibility() == b[i].visibility()
}

/// Whether a face of a cell of the interior is exposed depends on the
/// visibility of the voxels alone.
pub proof fn lemma_exposed_by_visibility<const X: u32, const Y: u32, const Z: u32, V: MeshVoxel>(
    a: Seq<V>,
    b: Seq<V>,
    face: OrientedBlockFace,
    p: UVec3,
)
    requires
        ChunkShape::<X, Y, Z>::valid(),
        a.len() == ChunkShape::<X, Y, Z>::volume(),
        same_visibility(a, b),
        face.wf(),
        ChunkShape::<X, Y, Z>::is_interior(p),
    ensures
        exposed::<X, Y, Z, V>(a, face, p) == exposed::<X, Y, Z, V>(b, face, p),
{
    ChunkShape::<X, Y, Z>::lemma_linearize_bound(p);
    lemma_facing_index::<X, Y, Z>(face, p);
    let i = ChunkShape::<X, Y, Z>::linearize_spec(p);
    let j = ChunkShape::<X, Y, Z>::linearize_spec(facing(face, p));
    assert(a[i].visibility() == b[i].visibility());
    assert(a[j].visibility() == b[j].visibility());
}

/// Whether each voxel of the interior is opaque and each voxel of the
/// padding empty.
pub open spec fn solid<const X: u32, const Y: u32, const Z: u32, V: MeshVoxel>(
    voxels: Seq<V>,
) -> bool {
    forall|p: UVec3|
        ChunkShape::<X, Y, Z>::contains(p) ==> voxels[#[trigger] ChunkShape::<
            X,
            Y,
            Z,
        >::linearize_spec(p)].visibility() == if ChunkShape::<X, Y, Z>::is_interior(p) {
            VoxelVisibility::Opaque
        } else {
            VoxelVisibility::Empty
        }
}

/// In a solid chunk a face is exposed where it looks at the padding.
pub proof fn lemma_solid_exposed<const X: u32, const Y: u32, const Z: u32, V: MeshVoxel>(
    voxels: Seq<V>,
    face: OrientedBlockFace,
    p: UVec3,
)
    requires
        ChunkShape::<X, Y, Z>::valid(),
        solid::<X, Y, Z, V>(voxels),
        face.wf(),
        ChunkShape::<X, Y, Z>::is_interior(p),
    ensures
        exposed::<X, Y, Z, V>(voxels, face, p) == !ChunkShape::<X, Y, Z>::is_interior(
            facing(face, p),
        ),
        exposed::<X, Y, Z, V>(voxels, face, p) == (p.along(face.n) == if face.is_front {
            ChunkShape::<X, Y, Z>::dim(face.n) - 2
        } else {
            1
        }),
{
    lemma_facing_index::<X, Y, Z>(face, p);
    let i = ChunkShape::<X, Y, Z>::linearize_spec(p);
    let j = ChunkShape::<X, Y, Z>::linearize_spec(facing(face, p));
    assert(voxels[i].visibility() == VoxelVisibility::Opaque);
    assert(voxels[j].visibility() == if ChunkShape::<X, Y, Z>::is_interior(facing(face, p)) {
        VoxelVisibility::Opaque
    } else {
        VoxelVisibility::Empty
    });
}

} // verus!
