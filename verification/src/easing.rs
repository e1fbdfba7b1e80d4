//! How the level of detail grows with the distance to the viewer.

use vstd::prelude::*;

verus! {

/// The curve by which the level of detail grows with the distance.
#[derive(Clone, Copy, Debug, PartialEq, Eq, Hash, Structural)]
pub enum LodEasing {
    Linear,
    Quadratic,
    Cubic,
    Sine,
}

} // verus!
