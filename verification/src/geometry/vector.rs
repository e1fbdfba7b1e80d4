//! Integer vectors with three components.

use vstd::prelude::*;

verus! {

/// A vector of three unsigned components: a voxel position, or a unit
/// direction.
#[derive(Clone, Copy, Debug, PartialEq, Eq, Hash, Structural)]
pub struct UVec3 {
    pub x: u32,
    pub y: u32,
    pub z: u32,
}

/// A vector of three signed components: a direction with a sign.
#[derive(Clone, Copy, Debug, PartialEq, Eq, Hash, Structural)]
pub struct IVec3 {
    pub x: i32,
    pub y: i32,
    pub z: i32,
}

impl UVec3 {
    /// The dot product, as a mathematical integer.
    pub open spec fn dot_spec(self, rhs: UVec3) -> int {
        self.x * rhs.x + self.y * rhs.y + self.z * rhs.z
    }

    /// Whether this is one of the three unit vectors.
    pub open spec fn is_unit(self) -> bool {
        ||| self == (UVec3 { x: 1, y: 0, z: 0 })
        ||| self == (UVec3 { x: 0, y: 1, z: 0 })
        ||| self == (UVec3 { x: 0, y: 0, z: 1 })
    }

    /// The component of this vector along the unit vector `unit`.
    pub open spec fn along(self, unit: UVec3) -> int {
        if unit.x == 1 {
            self.x as int
        } else if unit.y == 1 {
            self.y as int
        } else {
            self.z as int
        }
    }

    /// This vector moved by `delta` along the unit vector `unit`.
    pub open spec fn shifted(self, unit: UVec3, delta: int) -> UVec3 {
        if unit.x == 1 {
            UVec3 { x: (self.x + delta) as u32, y: self.y, z: self.z }
        } else if unit.y == 1 {
            UVec3 { x: self.x, y: (self.y + delta) as u32, z: self.z }
        } else {
            UVec3 { x: self.x, y: self.y, z: (self.z + delta) as u32 }
        }
    }

    /// The vector with the components `x`, `y` and `z`.
    #[inline]
    pub fn new(x: u32, y: u32, z: u32) -> (r: Self)
        ensures
            r == (UVec3 { x, y, z }),
    {
        UVec3 { x, y, z }
    }

    /// The unit vector along the x axis.
    #[inline]
    pub fn unit_x() -> (r: Self)
        ensures
            r == (UVec3 { x: 1, y: 0, z: 0 }),
    {
        UVec3 { x: 1, y: 0, z: 0 }
    }

    /// The unit vector along the y axis.
    #[inline]
    pub fn unit_y() -> (r: Self)
        ensures
            r == (UVec3 { x: 0, y: 1, z: 0 }),
    {
        UVec3 { x: 0, y: 1, z: 0 }
    }

    /// The unit vector along the z axis.
    #[inline]
    pub fn unit_z() -> (r: Self)
        ensures
            r == (UVec3 { x: 0, y: 0, z: 1 }),
    {
        UVec3 { x: 0, y: 0, z: 1 }
    }

    /// The dot product of two vectors.
    #[inline]
    pub fn dot(self, rhs: UVec3) -> (r: u32)
        requires
            self.dot_spec(rhs) <= u32::MAX,
        ensures
            r == self.dot_spec(rhs),
            rhs.is_unit() ==> r == self.along(rhs),
            self.is_unit() ==> r == rhs.along(self),
    {
        proof {
            assert(0 <= self.x * rhs.x && 0 <= self.y * rhs.y && 0 <= self.z * rhs.z)
                by (nonlinear_arith);
            if rhs.is_unit() {
                Self::lemma_dot_unit(self, rhs);
            }
            if self.is_unit() {
                Self::lemma_dot_unit(rhs, self);
            }
        }
        self.x * rhs.x + self.y * rhs.y + self.z * rhs.z
    }

    /// This vector moved by `delta` cells along the unit vector `unit`.
    #[inline]
    pub fn moved(self, unit: UVec3, delta: u32) -> (r: UVec3)
        requires
            unit.is_unit(),
            self.along(unit) + delta <= u32::MAX,
        ensures
            r == self.shifted(unit, delta as int),
    {
        assert(0 * delta == 0 && 1 * delta == delta);
        self.plus(unit.scaled(delta))
    }

    /// The dot product with a unit vector picks the component along it.
    pub proof fn lemma_dot_unit(p: UVec3, unit: UVec3)
        requires
            unit.is_unit(),
        ensures
            p.dot_spec(unit) == p.along(unit),
            unit.dot_spec(p) == p.along(unit),
    {
        assert(p.x * 0 == 0 && p.y * 0 == 0 && p.z * 0 == 0);
        assert(p.x * 1 == p.x && p.y * 1 == p.y && p.z * 1 == p.z);
        assert(0 * p.x == 0 && 0 * p.y == 0 && 0 * p.z == 0);
        assert(1 * p.x == p.x && 1 * p.y == p.y && 1 * p.z == p.z);
    }

    /// The sum of two vectors, component by component.
    #[inline]
    pub fn plus(self, rhs: UVec3) -> (r: UVec3)
        requires
            self.x + rhs.x <= u32::MAX,
            self.y + rhs.y <= u32::MAX,
            self.z + rhs.z <= u32::MAX,
        ensures
            r.x == self.x + rhs.x,
            r.y == self.y + rhs.y,
            r.z == self.z + rhs.z,
            rhs.is_unit() ==> r == self.shifted(rhs, 1),
    {
        UVec3 { x: self.x + rhs.x, y: self.y + rhs.y, z: self.z + rhs.z }
    }

    /// The difference of two vectors, component by component.
    #[inline]
    pub fn minus(self, rhs: UVec3) -> (r: UVec3)
        requires
            rhs.x <= self.x,
            rhs.y <= self.y,
            rhs.z <= self.z,
        ensures
            r.x == self.x - rhs.x,
            r.y == self.y - rhs.y,
            r.z == self.z - rhs.z,
            rhs.is_unit() ==> r == self.shifted(rhs, -1),
    {
        UVec3 { x: self.x - rhs.x, y: self.y - rhs.y, z: self.z - rhs.z }
    }

    /// This vector with each component multiplied by `factor`.
    #[inline]
    pub fn scaled(self, factor: u32) -> (r: UVec3)
        requires
            self.x * factor <= u32::MAX,
            self.y * factor <= u32::MAX,
            self.z * factor <= u32::MAX,
        ensures
            r.x == self.x * factor,
            r.y == self.y * factor,
            r.z == self.z * factor,
            self.is_unit() ==> r == (UVec3 { x: 0, y: 0, z: 0 }).shifted(self, factor as int),
    {
        UVec3 { x: self.x * factor, y: self.y * factor, z: self.z * factor }
    }
}

impl IVec3 {
    /// The vector with the components `x`, `y` and `z`.
    #[inline]
    pub fn new(x: i32, y: i32, z: i32) -> (r: Self)
        ensures
            r == (IVec3 { x, y, z }),
    {
        IVec3 { x, y, z }
    }

    /// The vector `unit` with each component multiplied by `sign`.
    pub open spec fn signed(unit: UVec3, sign: int) -> IVec3 {
        IVec3 {
            x: (unit.x * sign) as i32,
            y: (unit.y * sign) as i32,
            z: (unit.z * sign) as i32,
        }
    }
}

} // verus!
