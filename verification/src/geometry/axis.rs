//! The three axes and their six orderings.

use super::vector::{IVec3, UVec3};
use vstd::prelude::*;

verus! {

/// One of the three axes of the grid.
#[derive(Clone, Copy, Debug, PartialEq, Eq, Structural)]
pub enum Axis {
    X,
    Y,
    Z,
}

impl Axis {
    /// The unit vector along this axis.
    pub open spec fn unit_vector(self) -> UVec3 {
        match self {
            Axis::X => UVec3 { x: 1, y: 0, z: 0 },
            Axis::Y => UVec3 { x: 0, y: 1, z: 0 },
            Axis::Z => UVec3 { x: 0, y: 0, z: 1 },
        }
    }

    /// The unit vector along this axis.
    #[inline]
    pub fn get_unit_vector(&self) -> (r: UVec3)
        ensures
            r == self.unit_vector(),
            r.is_unit(),
    {
        match self {
            Axis::X => UVec3::unit_x(),
            Axis::Y => UVec3::unit_y(),
            Axis::Z => UVec3::unit_z(),
        }
    }

    /// The unit vector along this axis, pointing up the axis when `is_front`
    /// holds and down the axis when it does not.
    #[inline]
    pub fn get_signed_vector(&self, is_front: bool) -> (r: IVec3)
        ensures
            r == IVec3::signed(self.unit_vector(), if is_front { 1 } else { -1 }),
    {
        match (self, is_front) {
            (Axis::X, true) => IVec3::new(1, 0, 0),
            (Axis::X, false) => IVec3::new(-1, 0, 0),
            (Axis::Y, true) => IVec3::new(0, 1, 0),
            (Axis::Y, false) => IVec3::new(0, -1, 0),
            (Axis::Z, true) => IVec3::new(0, 0, 1),
            (Axis::Z, false) => IVec3::new(0, 0, -1),
        }
    }
}

/// An ordering of the three axes: the axis of the normal first, then the two
/// axes that span the plane.
#[derive(Clone, Copy, Debug, PartialEq, Eq, Structural)]
pub enum AxisPermutation {
    Xyz,
    Zxy,
    Yzx,
    Zyx,
    Xzy,
    Yxz,
}

impl AxisPermutation {
    /// The three axes in the order that the permutation's name gives.
    pub open spec fn axes_spec(self) -> Seq<Axis> {
        match self {
            AxisPermutation::Xyz => seq![Axis::X, Axis::Y, Axis::Z],
            AxisPermutation::Zxy => seq![Axis::Z, Axis::X, Axis::Y],
            AxisPermutation::Yzx => seq![Axis::Y, Axis::Z, Axis::X],
            AxisPermutation::Zyx => seq![Axis::Z, Axis::Y, Axis::X],
            AxisPermutation::Xzy => seq![Axis::X, Axis::Z, Axis::Y],
            AxisPermutation::Yxz => seq![Axis::Y, Axis::X, Axis::Z],
        }
    }

    /// Whether the permutation is a rotation of x, y, z: an even permutation.
    pub open spec fn even(self) -> bool {
        ||| self == AxisPermutation::Xyz
        ||| self == AxisPermutation::Zxy
        ||| self == AxisPermutation::Yzx
    }

    /// 1 for an even permutation, -1 for an odd one.
    #[inline]
    pub fn parity(&self) -> (r: i32)
        ensures
            r == if self.even() { 1int } else { -1int },
    {
        match self {
            AxisPermutation::Xyz => 1,
            AxisPermutation::Zxy => 1,
            AxisPermutation::Yzx => 1,
            AxisPermutation::Zyx => -1,
            AxisPermutation::Xzy => -1,
            AxisPermutation::Yxz => -1,
        }
    }

    /// Whether the permutation is even.
    #[inline]
    pub fn is_even(&self) -> (r: bool)
        ensures
            r == self.even(),
    {
        match self {
            AxisPermutation::Xyz => true,
            AxisPermutation::Zxy => true,
            AxisPermutation::Yzx => true,
            AxisPermutation::Zyx => false,
            AxisPermutation::Xzy => false,
            AxisPermutation::Yxz => false,
        }
    }

    /// The axes of the normal, of U and of V, in this order.
    #[inline]
    pub fn axes(&self) -> (r: [Axis; 3])
        ensures
            r@ == self.axes_spec(),
    {
        let r = match self {
            AxisPermutation::Xyz => [Axis::X, Axis::Y, Axis::Z],
            AxisPermutation::Zxy => [Axis::Z, Axis::X, Axis::Y],
            AxisPermutation::Yzx => [Axis::Y, Axis::Z, Axis::X],
            AxisPermutation::Zyx => [Axis::Z, Axis::Y, Axis::X],
            AxisPermutation::Xzy => [Axis::X, Axis::Z, Axis::Y],
            AxisPermutation::Yxz => [Axis::Y, Axis::X, Axis::Z],
        };
        assert(r@ =~= self.axes_spec());
        r
    }

    /// The axis of the normal.
    #[inline]
    pub fn n_axis(&self) -> (r: Axis)
        ensures
            r == self.axes_spec()[0],
    {
        match self {
            AxisPermutation::Xyz | AxisPermutation::Xzy => Axis::X,
            AxisPermutation::Yxz | AxisPermutation::Yzx => Axis::Y,
            AxisPermutation::Zxy | AxisPermutation::Zyx => Axis::Z,
        }
    }

    /// The first axis of the plane.
    #[inline]
    pub fn u_axis(&self) -> (r: Axis)
        ensures
            r == self.axes_spec()[1],
    {
        match self {
            AxisPermutation::Yxz | AxisPermutation::Zxy => Axis::X,
            AxisPermutation::Xyz | AxisPermutation::Zyx => Axis::Y,
            AxisPermutation::Xzy | AxisPermutation::Yzx => Axis::Z,
        }
    }

    /// The second axis of the plane.
    #[inline]
    pub fn v_axis(&self) -> (r: Axis)
        ensures
            r == self.axes_spec()[2],
    {
        match self {
            AxisPermutation::Yzx | AxisPermutation::Zyx => Axis::X,
            AxisPermutation::Xzy | AxisPermutation::Zxy => Axis::Y,
            AxisPermutation::Xyz | AxisPermutation::Yxz => Axis::Z,
        }
    }
}

} // verus!
