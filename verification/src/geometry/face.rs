//! The six faces of a cell, each with its normal and the two directions that
//! span its plane.

use super::axis::AxisPermutation;
use super::quad::UnorientedQuad;
use super::vector::{IVec3, UVec3};
use vstd::prelude::*;
use vstd::arithmetic::power2::pow2;
use vstd::bits::lemma_u32_shl_is_mul;

verus! {

/// A face of a cell: the axis of its normal `n`, the side of the cell that it
/// lies on, and the axes `u` and `v` of its plane.
#[derive(Clone, Copy, Debug, PartialEq, Eq, Structural)]
pub struct OrientedBlockFace {
    pub is_front: bool,
    pub is_even: bool,
    pub n_sign: i32,
    pub signed_n: IVec3,
    pub n: UVec3,
    pub u: UVec3,
    pub v: UVec3,
}

/// The offsets in a linearized chunk of one step along the outward normal,
/// along U and along V. The step along the normal of a face that looks
/// down its axis is negative: `n` holds it modulo 2^32.
#[derive(Clone, Copy, PartialEq, Eq, Structural)]
pub struct FaceStrides {
    pub n: u32,
    pub u: u32,
    pub v: u32,
}

impl OrientedBlockFace {
    /// The face on the side `is_front` whose normal, U and V axes are those
    /// of `permutation`.
    pub open spec fn spec_new(is_front: bool, permutation: AxisPermutation) -> Self {
        let axes = permutation.axes_spec();
        let sign = if is_front { 1int } else { -1int };
        OrientedBlockFace {
            is_front,
            is_even: permutation.even(),
            n_sign: sign as i32,
            signed_n: IVec3::signed(axes[0].unit_vector(), sign),
            n: axes[0].unit_vector(),
            u: axes[1].unit_vector(),
            v: axes[2].unit_vector(),
        }
    }

    /// The face with index `index`: the three faces that look down the x, y
    /// and z axis, then the three that look up them.
    pub open spec fn face(index: int) -> Self {
        let permutation = if index % 3 == 0 {
            AxisPermutation::Xzy
        } else if index % 3 == 1 {
            AxisPermutation::Yzx
        } else {
            AxisPermutation::Zxy
        };
        Self::spec_new(index >= 3, permutation)
    }

    /// The unit vector that follows `unit` in the cycle x, y, z, x.
    pub open spec fn rotate(unit: UVec3) -> UVec3 {
        UVec3 { x: unit.z, y: unit.x, z: unit.y }
    }

    /// Whether the fields describe a face: three different unit vectors, and
    /// a sign, a signed normal and a parity that agree with them.
    pub open spec fn wf(self) -> bool {
        &&& self.n.is_unit()
        &&& self.u.is_unit()
        &&& self.v.is_unit()
        &&& self.n != self.u
        &&& self.n != self.v
        &&& self.u != self.v
        &&& self.n_sign == (if self.is_front { 1int } else { -1int })
        &&& self.signed_n == IVec3::signed(self.n, self.n_sign as int)
        &&& self.is_even == (self.u == Self::rotate(self.n))
    }

    /// The cell whose coordinates along the normal, U and V are `n`, `u`
    /// and `v`.
    pub open spec fn cell(self, n: int, u: int, v: int) -> UVec3 {
        (UVec3 { x: 0, y: 0, z: 0 }).shifted(self.n, n).shifted(self.u, u).shifted(self.v, v)
    }

    /// The corners of `quad` on this face at level of detail `lod`: the
    /// corner at the minimum, the one `width` further along U, the one
    /// `height` further along V, and the one opposite the minimum. A face that
    /// looks down its axis lies 2^lod cells further along the normal.
    pub open spec fn corners(self, quad: UnorientedQuad, lod: nat) -> Seq<UVec3> {
        let base = if self.is_front {
            quad.minimum
        } else {
            quad.minimum.shifted(self.n, pow2(lod) as int)
        };
        seq![
            base,
            base.shifted(self.u, quad.width as int),
            base.shifted(self.v, quad.height as int),
            base.shifted(self.u, quad.width as int).shifted(self.v, quad.height as int),
        ]
    }

    /// The indices of the two triangles of a quad whose corners are the
    /// vertices `start` to `start + 3`: counter-clockwise seen from outside.
    pub open spec fn mesh_indices(self, start: int) -> Seq<int> {
        if self.is_front == self.is_even {
            seq![start, start + 1, start + 2, start + 1, start + 3, start + 2]
        } else {
            seq![start, start + 2, start + 1, start + 1, start + 2, start + 3]
        }
    }

    /// The face on the side `is_front` whose normal, U and V axes are those
    /// of `permutation`.
    #[inline]
    pub fn new(is_front: bool, permutation: AxisPermutation) -> (r: Self)
        ensures
            r == Self::spec_new(is_front, permutation),
            r.wf(),
    {
        let axes = permutation.axes();
        let n_axis = axes[0];
        let u_axis = axes[1];
        let v_axis = axes[2];
        OrientedBlockFace {
            is_front,
            is_even: permutation.is_even(),
            n_sign: if is_front { 1 } else { -1 },
            signed_n: n_axis.get_signed_vector(is_front),
            n: n_axis.get_unit_vector(),
            u: u_axis.get_unit_vector(),
            v: v_axis.get_unit_vector(),
        }
    }

    /// The cell whose coordinates along the normal, U and V of this face are
    /// `n`, `u` and `v`.
    #[inline]
    pub fn position(&self, n: u32, u: u32, v: u32) -> (r: UVec3)
        requires
            self.wf(),
        ensures
            r == self.cell(n as int, u as int, v as int),
            r.along(self.n) == n,
            r.along(self.u) == u,
            r.along(self.v) == v,
    {
        UVec3::new(0, 0, 0).moved(self.n, n).moved(self.u, u).moved(self.v, v)
    }

    /// The six faces, by index.
    pub fn faces() -> (r: [OrientedBlockFace; 6])
        ensures
            forall|i: int| 0 <= i < 6 ==> r@[i] == Self::face(i) && (#[trigger] r@[i]).wf(),
    {
        [
            Self::new(false, AxisPermutation::Xzy),
            Self::new(false, AxisPermutation::Yzx),
            Self::new(false, AxisPermutation::Zxy),
            Self::new(true, AxisPermutation::Xzy),
            Self::new(true, AxisPermutation::Yzx),
            Self::new(true, AxisPermutation::Zxy),
        ]
    }

    /// Each of the six faces is well formed.
    pub proof fn lemma_face_wf(index: int)
        requires
            0 <= index < 6,
        ensures
            Self::face(index).wf(),
    {
    }

    /// The indices of the two triangles of a quad whose corners are the
    /// vertices `start` to `start + 3`.
    #[inline]
    pub fn quad_mesh_indices(&self, start: u32) -> (r: [u32; 6])
        requires
            start + 3 <= u32::MAX,
        ensures
            r@.len() == 6,
            forall|i: int| 0 <= i < 6 ==> r@[i] == self.mesh_indices(start as int)[i],
    {
        let counter_clockwise = self.is_front == self.is_even;

        if counter_clockwise {
            [start, start + 1, start + 2, start + 1, start + 3, start + 2]
        } else {
            [start, start + 2, start + 1, start + 1, start + 2, start + 3]
        }
    }

    /// The corners of `quad` on this face at level of detail `lod`.
    #[inline]
    pub fn quad_corners(&self, quad: UnorientedQuad, lod: usize) -> (r: [UVec3; 4])
        requires
            self.wf(),
            lod < 32,
            !self.is_front ==> quad.minimum.along(self.n) + pow2(lod as nat) <= u32::MAX,
            quad.minimum.along(self.u) + quad.width <= u32::MAX,
            quad.minimum.along(self.v) + quad.height <= u32::MAX,
        ensures
            r@ == self.corners(quad, lod as nat),
    {
        let shift = lod as u32;
        proof {
            vstd::bits::lemma_u32_pow2_no_overflow(lod as nat);
            lemma_u32_shl_is_mul(1, shift);
        }
        let edge: u32 = 1u32 << shift;

        let minu_minv = if self.is_front {
            quad.minimum
        } else {
            quad.minimum.moved(self.n, edge)
        };
        let maxu_minv = minu_minv.moved(self.u, quad.width);
        let minu_maxv = minu_minv.moved(self.v, quad.height);
        let maxu_maxv = maxu_minv.moved(self.v, quad.height);

        let r = [minu_minv, maxu_minv, minu_maxv, maxu_maxv];
        assert(r@ =~= self.corners(quad, lod as nat));
        r
    }

    /// The normal of each of the four corners of a quad on this face.
    #[inline]
    pub fn quad_mesh_normals(&self) -> (r: [IVec3; 4])
        ensures
            r@ == Seq::new(4, |i: int| self.signed_n),
    {
        let r = [self.signed_n, self.signed_n, self.signed_n, self.signed_n];
        assert(r@ =~= Seq::new(4, |i: int| self.signed_n));
        r
    }
}

} // verus!
