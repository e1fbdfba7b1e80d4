//! What the meshers need to know of a voxel.

use vstd::prelude::*;

verus! {

/// How a voxel lets light through.
#[derive(Clone, Copy, Debug, PartialEq, Eq, Structural)]
pub enum VoxelVisibility {
    Empty,
    Translucent,
    Opaque,
}

/// A voxel that can be meshed: it has a visibility.
pub trait MeshVoxel {
    /// The visibility of this voxel, as the contracts speak of it. An
    /// implementation that is to be verified states it; where it is not
    /// stated, nothing is known of it.
    open spec fn visibility(&self) -> VoxelVisibility {
        arbitrary()
    }

    /// The visibility of this voxel: each call gives the same one.
    fn get_visibility(&self) -> (r: VoxelVisibility)
        ensures
            r == self.visibility(),
    ;
}

/// A voxel whose faces can be merged with those of its neighbours. Two
/// faces side by side can merge where the voxels have equal merge values and
/// the voxels that they look at have equal merge values for their
/// neighbours.
pub trait MergeVoxel: MeshVoxel {
    /// The value by which faces of a voxel merge.
    type MergeValue: Eq;

    /// The value by which faces that look at a voxel merge.
    type MergeValueFacingNeighbour: Eq;

    /// The value by which faces of this voxel merge, as the contracts speak
    /// of it.
    open spec fn merge_value_of(&self) -> Self::MergeValue {
        arbitrary()
    }

    /// The value by which faces that look at this voxel merge, as the
    /// contracts speak of it.
    open spec fn merge_value_facing_neighbour_of(&self) -> Self::MergeValueFacingNeighbour {
        arbitrary()
    }

    /// The value by which faces of this voxel merge.
    fn merge_value(&self) -> (r: Self::MergeValue)
        ensures
            r == self.merge_value_of(),
    ;

    /// The value by which faces that look at this voxel merge.
    fn merge_value_facing_neighbour(&self) -> (r: Self::MergeValueFacingNeighbour)
        ensures
            r == self.merge_value_facing_neighbour_of(),
    ;
}

/// Whether a face of a voxel with visibility `voxel` is drawn when the voxel
/// that it looks at has visibility `neighbor`.
pub open spec fn face_exposed(voxel: VoxelVisibility, neighbor: VoxelVisibility) -> bool {
    match (voxel, neighbor) {
        (VoxelVisibility::Translucent, VoxelVisibility::Empty) => true,
        (VoxelVisibility::Opaque, VoxelVisibility::Empty) => true,
        (VoxelVisibility::Opaque, VoxelVisibility::Translucent) => true,
        _ => false,
    }
}

} // verus!
