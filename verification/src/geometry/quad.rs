//! Quads without an orientation: the face that a quad belongs to is given by
//! the bucket that holds it.

use super::vector::UVec3;
use vstd::prelude::*;
use vstd::std_specs::convert::{FromSpec, FromSpecImpl};

verus! {

/// A rectangle in the plane of a face: `width` cells along U and `height`
/// cells along V, starting at the cell `minimum`.
#[derive(Clone, Copy, Debug, PartialEq, Eq, Hash, Structural)]
pub struct UnorientedQuad {
    pub minimum: UVec3,
    pub width: u32,
    pub height: u32,
}

/// A square in the plane of a face, `size` cells wide and high.
#[derive(Clone, Copy, Debug, PartialEq, Eq, Hash, Structural)]
pub struct UnorientedRegularQuad {
    pub minimum: UVec3,
    pub size: u32,
}

/// The face of a single cell.
#[derive(Clone, Copy, Debug, PartialEq, Eq, Hash, Structural)]
pub struct UnorientedUnitQuad {
    pub minimum: UVec3,
}

impl From<UnorientedRegularQuad> for UnorientedQuad {
    fn from(value: UnorientedRegularQuad) -> (r: Self) {
        UnorientedQuad { minimum: value.minimum, width: value.size, height: value.size }
    }
}

impl FromSpecImpl<UnorientedRegularQuad> for UnorientedQuad {
    open spec fn obeys_from_spec() -> bool {
        true
    }

    open spec fn from_spec(value: UnorientedRegularQuad) -> Self {
        UnorientedQuad { minimum: value.minimum, width: value.size, height: value.size }
    }
}

impl From<UnorientedUnitQuad> for UnorientedRegularQuad {
    fn from(value: UnorientedUnitQuad) -> (r: Self) {
        UnorientedRegularQuad { minimum: value.minimum, size: 1 }
    }
}

impl FromSpecImpl<UnorientedUnitQuad> for UnorientedRegularQuad {
    open spec fn obeys_from_spec() -> bool {
        true
    }

    open spec fn from_spec(value: UnorientedUnitQuad) -> Self {
        UnorientedRegularQuad { minimum: value.minimum, size: 1 }
    }
}

impl From<UnorientedUnitQuad> for UnorientedQuad {
    fn from(value: UnorientedUnitQuad) -> (r: Self) {
        UnorientedQuad { minimum: value.minimum, width: 1, height: 1 }
    }
}

impl FromSpecImpl<UnorientedUnitQuad> for UnorientedQuad {
    open spec fn obeys_from_spec() -> bool {
        true
    }

    open spec fn from_spec(value: UnorientedUnitQuad) -> Self {
        UnorientedQuad { minimum: value.minimum, width: 1, height: 1 }
    }
}

/// Converting a unit quad to a rectangle directly, or by way of a square,
/// gives the same rectangle.
pub proof fn lemma_conversions_commute(quad: UnorientedUnitQuad)
    ensures
        <UnorientedQuad as FromSpec<UnorientedRegularQuad>>::from_spec(
            <UnorientedRegularQuad as FromSpec<UnorientedUnitQuad>>::from_spec(quad),
        ) == <UnorientedQuad as FromSpec<UnorientedUnitQuad>>::from_spec(quad),
{
}

} // verus!
