//! The addressing of a chunk of X by Y by Z cells that is stored as one
//! array, x fastest.

use super::face::{FaceStrides, OrientedBlockFace};
use super::vector::UVec3;
use vstd::arithmetic::div_mod::lemma_fundamental_div_mod_converse;
use vstd::prelude::*;

verus! {

/// A chunk of `X` by `Y` by `Z` cells. The cells with a coordinate of 0 or of
/// the dimension less one are padding; the others are the interior.
pub struct ChunkShape<const X: u32, const Y: u32, const Z: u32>;

impl<const X: u32, const Y: u32, const Z: u32> ChunkShape<X, Y, Z> {
    /// Whether the chunk has an interior and its cells can be counted in
    /// a `u32`.
    pub open spec fn valid() -> bool {
        &&& X >= 3
        &&& Y >= 3
        &&& Z >= 3
        &&& X * Y * Z <= u32::MAX
    }

    /// The number of cells.
    pub open spec fn volume() -> int {
        X * Y * Z
    }

    /// The three dimensions as a vector.
    pub open spec fn shape_spec() -> UVec3 {
        UVec3 { x: X, y: Y, z: Z }
    }

    /// Whether `p` is a cell of the chunk.
    pub open spec fn contains(p: UVec3) -> bool {
        p.x < X && p.y < Y && p.z < Z
    }

    /// Whether `p` is a cell of the interior.
    pub open spec fn is_interior(p: UVec3) -> bool {
        &&& 1 <= p.x <= X - 2
        &&& 1 <= p.y <= Y - 2
        &&& 1 <= p.z <= Z - 2
    }

    /// The index of the cell `p` in the array.
    pub open spec fn linearize_spec(p: UVec3) -> int {
        p.x + X * p.y + X * Y * p.z
    }

    /// The offset in the array of one step along the unit vector `unit`.
    pub open spec fn stride(unit: UVec3) -> int {
        if unit.x == 1 {
            1
        } else if unit.y == 1 {
            X as int
        } else {
            X * Y
        }
    }

    /// The dimensions as a vector.
    #[inline]
    pub fn shape() -> (r: UVec3)
        ensures
            r == Self::shape_spec(),
    {
        UVec3::new(X, Y, Z)
    }

    /// A cell of the chunk has an index below the number of cells.
    pub proof fn lemma_linearize_bound(p: UVec3)
        requires
            Self::contains(p),
        ensures
            0 <= Self::linearize_spec(p) < Self::volume(),
    {
        let x = p.x as int;
        let y = p.y as int;
        let z = p.z as int;
        let a = X as int;
        let b = Y as int;
        let c = Z as int;
        assert(a * y <= a * (b - 1)) by (nonlinear_arith)
            requires
                0 <= y <= b - 1,
                0 <= a,
        ;
        assert(a * b * z <= a * b * (c - 1)) by (nonlinear_arith)
            requires
                0 <= z <= c - 1,
                0 <= a,
                0 <= b,
        ;
        assert(a * y >= 0 && a * b * z >= 0) by (nonlinear_arith)
            requires
                0 <= y,
                0 <= z,
                0 <= a,
                0 <= b,
        ;
        assert(a * (b - 1) == a * b - a) by (nonlinear_arith);
        assert(a * b * (c - 1) == a * b * c - a * b) by (nonlinear_arith);
    }

    /// Two cells with the same index, each with x below `X` and y below `Y`,
    /// are the same cell.
    pub proof fn lemma_linearize_injective(p: UVec3, q: UVec3)
        requires
            p.x < X,
            p.y < Y,
            q.x < X,
            q.y < Y,
            Self::linearize_spec(p) == Self::linearize_spec(q),
        ensures
            p == q,
    {
        let a = X as int;
        let b = Y as int;
        let pr = p.x + a * p.y;
        let qr = q.x + a * q.y;
        assert(0 <= pr < a * b && 0 <= qr < a * b) by (nonlinear_arith)
            requires
                pr == p.x + a * p.y,
                qr == q.x + a * q.y,
                0 <= p.x < a,
                0 <= q.x < a,
                0 <= p.y < b,
                0 <= q.y < b,
        ;
        assert(p.z == q.z) by (nonlinear_arith)
            requires
                0 <= pr < a * b,
                0 <= qr < a * b,
                pr + a * b * p.z == qr + a * b * q.z,
        ;
        assert(p.y == q.y) by (nonlinear_arith)
            requires
                0 <= p.x < a,
                0 <= q.x < a,
                p.x + a * p.y == q.x + a * q.y,
        ;
    }

    /// Moving a cell along a unit vector moves its index by the stride of
    /// that vector, once for each step.
    pub proof fn lemma_linearize_shifted(p: UVec3, unit: UVec3, delta: int)
        requires
            unit.is_unit(),
            0 <= p.along(unit) + delta <= u32::MAX,
        ensures
            Self::linearize_spec(p.shifted(unit, delta)) == Self::linearize_spec(p) + delta
                * Self::stride(unit),
            p.shifted(unit, delta).along(unit) == p.along(unit) + delta,
    {
        let a = X as int;
        let b = Y as int;
        assert(a * (p.y + delta) == a * p.y + delta * a) by (nonlinear_arith);
        assert(a * b * (p.z + delta) == a * b * p.z + delta * (a * b)) by (nonlinear_arith);
    }

    /// The index of the cell `position` in the array.
    #[inline]
    pub fn linearize(position: UVec3) -> (r: u32)
        requires
            Self::linearize_spec(position) <= u32::MAX,
        ensures
            r == Self::linearize_spec(position),
    {
        let a = X as u64;
        let b = Y as u64;
        proof {
            assert(0 <= X * position.y && 0 <= X * Y * position.z && 0 <= X * Y <= 0xffff_ffff
                * 0xffff_ffff) by (nonlinear_arith)
                requires
                    0 <= X <= 0xffff_ffff,
                    0 <= Y <= 0xffff_ffff,
                    0 <= position.y,
                    0 <= position.z,
            ;
        }
        let row: u64 = a * (position.y as u64);
        let plane: u64 = a * b;
        let layer: u64 = plane * (position.z as u64);
        let index: u64 = position.x as u64 + row + layer;
        index as u32
    }

    /// The cell with the index `index` in the array: the one cell with x
    /// below `X` and y below `Y` that has this index.
    #[inline]
    pub fn delinearize(index: u32) -> (r: UVec3)
        requires
            X > 0,
            Y > 0,
            X * Y <= u32::MAX,
        ensures
            r.x < X,
            r.y < Y,
            Self::linearize_spec(r) == index,
    {
        let plane: u32 = X * Y;
        assert(plane > 0) by (nonlinear_arith)
            requires
                plane == X * Y,
                X > 0,
                Y > 0,
        ;
        let z = index / plane;
        let rest = index % plane;
        let y = rest / X;
        let x = rest % X;
        proof {
            let a = X as int;
            let b = Y as int;
            assert(index == plane * z + rest) by {
                vstd::arithmetic::div_mod::lemma_fundamental_div_mod(index as int, plane as int);
            }
            assert(rest == a * y + x) by {
                vstd::arithmetic::div_mod::lemma_fundamental_div_mod(rest as int, a);
            }
            assert(y < b) by (nonlinear_arith)
                requires
                    rest == a * y + x,
                    rest < a * b,
                    0 <= x,
                    0 < a,
            ;
            assert(a * b * z == plane * z) by (nonlinear_arith)
                requires
                    plane == a * b,
            ;
        }
        UVec3::new(x, y, z)
    }

    /// One plane of a chunk holds fewer cells than the chunk, and a row fewer
    /// than a plane.
    pub proof fn lemma_plane_fits()
        requires
            Self::valid(),
        ensures
            0 < X * Y <= Self::volume(),
            X <= X * Y,
            X * Y <= u32::MAX,
    {
        let a = X as int;
        let b = Y as int;
        let c = Z as int;
        assert(0 < a * b && a * b <= a * b * c && a <= a * b) by (nonlinear_arith)
            requires
                a >= 3,
                b >= 3,
                c >= 3,
        ;
    }

    /// The strides of `face` in this chunk.
    #[inline]
    pub fn face_strides(face: OrientedBlockFace) -> (r: FaceStrides)
        requires
            face.wf(),
            X > 0,
            Y > 0,
            X * Y <= u32::MAX,
        ensures
            r.u == Self::stride(face.u),
            r.v == Self::stride(face.v),
            r.n == if face.is_front {
                Self::stride(face.n)
            } else {
                0x1_0000_0000 - Self::stride(face.n)
            },
    {
        proof {
            Self::lemma_unit_index(face.n);
            Self::lemma_unit_index(face.u);
            Self::lemma_unit_index(face.v);
            assert(X * Y > 0) by (nonlinear_arith)
                requires
                    X > 0,
                    Y > 0,
            ;
        }
        let n = Self::linearize(face.n);
        let n = if face.is_front {
            n
        } else {
            0u32.wrapping_sub(n)
        };

        FaceStrides { n, u: Self::linearize(face.u), v: Self::linearize(face.v) }
    }

    /// The index of a unit vector is its stride.
    pub proof fn lemma_unit_index(unit: UVec3)
        requires
            unit.is_unit(),
        ensures
            Self::linearize_spec(unit) == Self::stride(unit),
    {
        let a = X as int;
        let b = Y as int;
        assert(a * 0 == 0 && a * 1 == a);
        assert(a * b * 0 == 0 && a * b * 1 == a * b);
    }

    /// The cell at depth `n` below the side of the chunk that `face` looks
    /// out of, and at `u` and `v` in the plane of the face.
    pub open spec fn localize_spec(face: OrientedBlockFace, n: int, u: int, v: int) -> UVec3 {
        let depth = if face.is_front {
            n
        } else {
            Self::shape_spec().along(face.n) - n - 1
        };
        face.cell(depth, u, v)
    }

    /// The cell at depth `n` below the side of the chunk that `face` looks
    /// out of, and at `u` and `v` in the plane of the face.
    #[inline]
    pub fn localize(face: OrientedBlockFace, n: u32, u: u32, v: u32) -> (r: UVec3)
        requires
            face.wf(),
            !face.is_front ==> n < Self::shape_spec().along(face.n),
        ensures
            r == Self::localize_spec(face, n as int, u as int, v as int),
    {
        proof {
            UVec3::lemma_dot_unit(Self::shape_spec(), face.n);
        }
        let n = if !face.is_front {
            face.n.dot(Self::shape()) - n - 1
        } else {
            n
        };

        face.position(n, u, v)
    }

    /// The dimension of the chunk along the unit vector `unit`.
    pub open spec fn dim(unit: UVec3) -> int {
        Self::shape_spec().along(unit)
    }

    /// The number of interior cells in one plane of `face`.
    pub open spec fn slice_len(face: OrientedBlockFace) -> int {
        (Self::dim(face.u) - 2) * (Self::dim(face.v) - 2)
    }

    /// The interior cell with number `k` in the plane `n` of `face`: the cells
    /// of a plane are numbered row by row, U fastest.
    pub open spec fn slice_cell(face: OrientedBlockFace, n: int, k: int) -> UVec3 {
        let width = Self::dim(face.u) - 2;
        face.cell(n, 1 + k % width, 1 + k / width)
    }

    /// The number of interior cells.
    pub open spec fn inner_len(face: OrientedBlockFace) -> int {
        (Self::dim(face.n) - 2) * Self::slice_len(face)
    }

    /// The plane with number `j` in the order natural to `face`: the planes
    /// are numbered from the side that the face looks out of.
    pub open spec fn plane_at(face: OrientedBlockFace, j: int) -> int {
        if face.is_front {
            Self::dim(face.n) - 2 - j
        } else {
            1 + j
        }
    }

    /// The interior cell with number `k` in the order natural to `face`:
    /// plane by plane, each plane row by row.
    pub open spec fn inner_cell(face: OrientedBlockFace, k: int) -> UVec3 {
        let len = Self::slice_len(face);
        Self::slice_cell(face, Self::plane_at(face, k / len), k % len)
    }

    /// Where a number below `w * h` lies in a plane of rows of `w`.
    pub proof fn lemma_row_and_column(r: int, w: int, h: int)
        requires
            0 < w,
            0 < h,
            0 <= r < w * h,
        ensures
            0 <= r % w < w,
            0 <= r / w < h,
            r == (r / w) * w + r % w,
    {
        vstd::arithmetic::div_mod::lemma_fundamental_div_mod(r, w);
        vstd::arithmetic::div_mod::lemma_mod_bound(r, w);
        let q = r / w;
        assert(w * q == q * w) by (nonlinear_arith);
        assert(0 <= q < h) by (nonlinear_arith)
            requires
                r == q * w + r % w,
                0 <= r % w < w,
                0 <= r < w * h,
                0 < w,
        ;
    }

    /// The cells of a plane of `face` at the depth of an interior cell are
    /// cells of the interior.
    pub proof fn lemma_slice_cell_interior(face: OrientedBlockFace, n: int, k: int)
        requires
            Self::valid(),
            face.wf(),
            1 <= n <= Self::dim(face.n) - 2,
            0 <= k < Self::slice_len(face),
        ensures
            Self::is_interior(Self::slice_cell(face, n, k)),
            Self::slice_cell(face, n, k).along(face.n) == n,
            Self::slice_cell(face, n, k).along(face.u) == 1 + k % (Self::dim(face.u) - 2),
            Self::slice_cell(face, n, k).along(face.v) == 1 + k / (Self::dim(face.u) - 2),
    {
        Self::lemma_row_and_column(k, Self::dim(face.u) - 2, Self::dim(face.v) - 2);
    }

    /// Each of the cells that the order of a face numbers is a cell of the
    /// interior.
    pub proof fn lemma_inner_cell_interior(face: OrientedBlockFace, k: int)
        requires
            Self::valid(),
            face.wf(),
            0 <= k < Self::inner_len(face),
        ensures
            Self::is_interior(Self::inner_cell(face, k)),
    {
        let len = Self::slice_len(face);
        let depth = Self::dim(face.n) - 2;
        assert(len > 0) by (nonlinear_arith)
            requires
                len == (Self::dim(face.u) - 2) * (Self::dim(face.v) - 2),
                Self::dim(face.u) - 2 > 0,
                Self::dim(face.v) - 2 > 0,
        ;
        assert(k < len * depth) by (nonlinear_arith)
            requires
                k < depth * len,
        ;
        Self::lemma_row_and_column(k, len, depth);
        Self::lemma_slice_cell_interior(face, Self::plane_at(face, k / len), k % len);
    }

    /// A chunk has interior cells.
    pub proof fn lemma_inner_len_positive(face: OrientedBlockFace)
        requires
            Self::valid(),
            face.wf(),
        ensures
            0 < Self::slice_len(face),
            0 < Self::inner_len(face),
            Self::inner_len(face) == (X - 2) * (Y - 2) * (Z - 2),
            Self::inner_len(face) <= Self::volume(),
    {
        let a = X - 2;
        let b = Y - 2;
        let c = Z - 2;
        assert(0 < a * b && 0 < a * c && 0 < b * c && 0 < a * b * c && a * b * c == a * (b * c)
            && a * b * c == b * (c * a) && a * b * c == c * (a * b) && c * a == a * c && c * b
            == b * c && b * a == a * b && a * (c * b) == a * b * c && b * (a * c) == a * b * c && c
            * (b * a) == a * b * c && a * b * c <= (a + 2) * (b + 2) * (c + 2))
            by (nonlinear_arith)
            requires
                a >= 1,
                b >= 1,
                c >= 1,
        ;
    }

    /// The number of the interior cell `p` in its plane of `face`.
    pub open spec fn slice_index(face: OrientedBlockFace, p: UVec3) -> int {
        (p.along(face.v) - 1) * (Self::dim(face.u) - 2) + (p.along(face.u) - 1)
    }

    /// The number, in the order natural to `face`, of the plane at `n`.
    pub open spec fn plane_number(face: OrientedBlockFace, n: int) -> int {
        if face.is_front {
            Self::dim(face.n) - 2 - n
        } else {
            n - 1
        }
    }

    /// The number of the interior cell `p` in the order natural to `face`.
    pub open spec fn inner_index(face: OrientedBlockFace, p: UVec3) -> int {
        Self::plane_number(face, p.along(face.n)) * Self::slice_len(face) + Self::slice_index(
            face,
            p,
        )
    }

    /// An interior cell has a number in its plane, and is the cell of its
    /// plane with that number.
    pub proof fn lemma_slice_index(face: OrientedBlockFace, p: UVec3)
        requires
            Self::valid(),
            face.wf(),
            Self::is_interior(p),
        ensures
            0 <= Self::slice_index(face, p) < Self::slice_len(face),
            Self::slice_cell(face, p.along(face.n), Self::slice_index(face, p)) == p,
    {
        let w = Self::dim(face.u) - 2;
        let h = Self::dim(face.v) - 2;
        let u = p.along(face.u) - 1;
        let v = p.along(face.v) - 1;
        lemma_div_mod_of_sum(v, u, w);
        assert(0 <= v * w + u < w * h) by (nonlinear_arith)
            requires
                0 <= u < w,
                0 <= v < h,
        ;
    }

    /// The cell with number `k` of a plane has the number `k` in its plane.
    pub proof fn lemma_slice_cell_index(face: OrientedBlockFace, n: int, k: int)
        requires
            Self::valid(),
            face.wf(),
            1 <= n <= Self::dim(face.n) - 2,
            0 <= k < Self::slice_len(face),
        ensures
            Self::slice_index(face, Self::slice_cell(face, n, k)) == k,
    {
        Self::lemma_slice_cell_interior(face, n, k);
        let w = Self::dim(face.u) - 2;
        Self::lemma_row_and_column(k, w, Self::dim(face.v) - 2);
    }

    /// An interior cell has a number in the order of a face, and is the cell
    /// with that number: the order leaves no interior cell out.
    pub proof fn lemma_inner_index(face: OrientedBlockFace, p: UVec3)
        requires
            Self::valid(),
            face.wf(),
            Self::is_interior(p),
        ensures
            0 <= Self::inner_index(face, p) < Self::inner_len(face),
            Self::inner_cell(face, Self::inner_index(face, p)) == p,
    {
        Self::lemma_slice_index(face, p);
        let len = Self::slice_len(face);
        let j = Self::plane_number(face, p.along(face.n) as int);
        let r = Self::slice_index(face, p);
        lemma_div_mod_of_sum(j, r, len);
        assert(0 <= j * len + r < (Self::dim(face.n) - 2) * len) by (nonlinear_arith)
            requires
                0 <= j <= Self::dim(face.n) - 3,
                0 <= r < len,
        ;
    }

    /// The cell with number `k` in the order of a face has the number `k`:
    /// the order takes no interior cell twice.
    pub proof fn lemma_inner_cell_index(face: OrientedBlockFace, k: int)
        requires
            Self::valid(),
            face.wf(),
            0 <= k < Self::inner_len(face),
        ensures
            Self::inner_index(face, Self::inner_cell(face, k)) == k,
            Self::is_interior(Self::inner_cell(face, k)),
    {
        let len = Self::slice_len(face);
        let depth = Self::dim(face.n) - 2;
        Self::lemma_inner_cell_interior(face, k);
        assert(len > 0) by (nonlinear_arith)
            requires
                len == (Self::dim(face.u) - 2) * (Self::dim(face.v) - 2),
                Self::dim(face.u) - 2 > 0,
                Self::dim(face.v) - 2 > 0,
        ;
        assert(k < len * depth) by (nonlinear_arith)
            requires
                k < depth * len,
        ;
        Self::lemma_row_and_column(k, len, depth);
        let n = Self::plane_at(face, k / len);
        Self::lemma_slice_cell_interior(face, n, k % len);
        Self::lemma_slice_cell_index(face, n, k % len);
    }

    /// The interior cells, each once, in the order natural to `face`: U
    /// fastest, then V, then the planes from the side that the face looks
    /// out of.
    pub open spec fn inner_cells(face: OrientedBlockFace) -> Seq<UVec3> {
        Seq::new(Self::inner_len(face) as nat, |k: int| Self::inner_cell(face, k))
    }

    /// A walk over the interior cells in the order natural to the face with
    /// index `F`: it has yielded none of them yet, and has all of them to
    /// yield.
    #[inline]
    pub fn inner_iter<const F: usize>() -> (r: InnerChunkShapeIterator<X, Y, Z, F>)
        requires
            Self::valid(),
            F < 6,
        ensures
            r.wf(),
            r.index() == 0,
            r.remaining() == Self::inner_cells(OrientedBlockFace::face(F as int)),
    {
        InnerChunkShapeIterator::<X, Y, Z, F>::new()
    }

    /// The interior cells of the plane `n` of `face`, row by row.
    #[inline]
    pub fn slice_iter(face: OrientedBlockFace, n: u32) -> (r: InnerChunkShapeSliceIterator<
        X,
        Y,
        Z,
    >)
        requires
            Self::valid(),
            face.wf(),
        ensures
            r.wf(),
            r.face() == face,
            r.plane() == n,
            r.index() == 0,
    {
        InnerChunkShapeSliceIterator::<X, Y, Z>::new(face, n)
    }
}

/// With `0 <= r < d`, dividing `q * d + r` by `d` gives `q` and leaves `r`.
pub proof fn lemma_div_mod_of_sum(q: int, r: int, d: int)
    requires
        0 <= r < d,
    ensures
        (q * d + r) / d == q,
        (q * d + r) % d == r,
{
    lemma_fundamental_div_mod_converse(q * d + r, d, q, r);
}

/// The number of the cell at `u`, `v` in the plane with number `j`, where a
/// row holds `w` cells and a plane `h` rows, counted from 1 within the
/// plane.
pub open spec fn cell_number(w: int, h: int, j: int, u: int, v: int) -> int {
    j * (w * h) + ((v - 1) * w + u)
}

/// A cell that is not the last of its row: where its number lies, and that
/// the next cell of the row has the next number.
proof fn lemma_number_in_row(w: int, h: int, j: int, u: int, v: int)
    requires
        0 <= u < w,
        1 <= v <= h,
        0 <= j,
    ensures
        ({
            let k = cell_number(w, h, j, u, v);
            &&& 0 <= k < (j + 1) * (w * h)
            &&& k / (w * h) == j
            &&& (k % (w * h)) % w == u
            &&& (k % (w * h)) / w == v - 1
            &&& cell_number(w, h, j, u + 1, v) == k + 1
        }),
{
    let len = w * h;
    let r = (v - 1) * w + u;
    assert(0 <= r < len) by (nonlinear_arith)
        requires
            r == (v - 1) * w + u,
            len == w * h,
            0 <= u < w,
            1 <= v <= h,
    ;
    lemma_div_mod_of_sum(v - 1, u, w);
    lemma_div_mod_of_sum(j, r, len);
    assert(0 <= j * len && (j + 1) * len == j * len + len) by (nonlinear_arith)
        requires
            0 <= j,
            0 <= len,
    ;
}

/// The last cell of a row that is not the last of its plane: where its
/// number lies, and that the first cell of the next row has the next number.
proof fn lemma_number_at_row_end(w: int, h: int, j: int, v: int)
    requires
        0 < w,
        1 <= v < h,
        0 <= j,
    ensures
        ({
            let k = cell_number(w, h, j, w, v);
            &&& 0 <= k < (j + 1) * (w * h)
            &&& k / (w * h) == j
            &&& (k % (w * h)) % w == 0
            &&& (k % (w * h)) / w == v
            &&& cell_number(w, h, j, 1, v + 1) == k + 1
        }),
{
    let len = w * h;
    let r = (v - 1) * w + w;
    assert(r == v * w && 0 <= r < len && v * w + 1 == (v + 1 - 1) * w + 1) by (nonlinear_arith)
        requires
            r == (v - 1) * w + w,
            len == w * h,
            0 < w,
            1 <= v < h,
    ;
    lemma_div_mod_of_sum(v, 0, w);
    lemma_div_mod_of_sum(j, r, len);
    assert(0 <= j * len && (j + 1) * len == j * len + len) by (nonlinear_arith)
        requires
            0 <= j,
            0 <= len,
    ;
}

/// The last cell of a plane: its number is that of the end of the plane,
/// and the first cell of the next plane has the next number.
proof fn lemma_number_at_plane_end(w: int, h: int, j: int)
    requires
        0 < w,
        0 < h,
        0 <= j,
    ensures
        ({
            let k = cell_number(w, h, j, w, h);
            &&& k == (j + 1) * (w * h)
            &&& k / (w * h) == j + 1
            &&& k % (w * h) == 0
            &&& 0int / w == 0
            &&& 0int % w == 0
            &&& cell_number(w, h, j + 1, 1, 1) == k + 1
            &&& cell_number(w, h, 0, 0, 1) == 0
        }),
{
    let len = w * h;
    let r = (h - 1) * w + w;
    assert(r == len && len > 0 && (j + 1) * len == j * len + len && (1 - 1) * w + 1 == 1 && 0
        * len + ((1 - 1) * w + 0) == 0) by (nonlinear_arith)
        requires
            r == (h - 1) * w + w,
            len == w * h,
            0 < w,
            0 < h,
    ;
    lemma_div_mod_of_sum(j + 1, 0, len);
    lemma_div_mod_of_sum(0, 0, w);
}

/// A walk over the interior cells of a chunk in the order natural to the face
/// with index `F`.
pub struct InnerChunkShapeIterator<const X: u32, const Y: u32, const Z: u32, const F: usize> {
    face: OrientedBlockFace,
    n: u32,
    u: u32,
    v: u32,
    max_n: u32,
    max_u: u32,
    max_v: u32,
}

impl<const X: u32, const Y: u32, const Z: u32, const F: usize> InnerChunkShapeIterator<X, Y, Z, F> {
    /// Whether the walk is at a cell of the interior, or before the first.
    pub closed spec fn wf(&self) -> bool {
        &&& F < 6
        &&& self.face == OrientedBlockFace::face(F as int)
        &&& self.max_n == ChunkShape::<X, Y, Z>::dim(self.face.n)
        &&& self.max_u == ChunkShape::<X, Y, Z>::dim(self.face.u)
        &&& self.max_v == ChunkShape::<X, Y, Z>::dim(self.face.v)
        &&& self.max_n >= 3
        &&& self.max_u >= 3
        &&& self.max_v >= 3
        &&& 1 <= self.n <= self.max_n - 2
        &&& 0 <= self.u <= self.max_u - 2
        &&& 1 <= self.v <= self.max_v - 2
    }

    /// The number of the plane that the walk is in.
    closed spec fn plane_number(&self) -> int {
        if self.face.is_front {
            self.max_n - 2 - self.n
        } else {
            self.n - 1
        }
    }

    /// The number of cells that the walk has yielded.
    pub closed spec fn index(&self) -> int {
        cell_number(
            self.max_u - 2,
            self.max_v - 2,
            self.plane_number(),
            self.u as int,
            self.v as int,
        )
    }

    /// The number of cells that the walk yields in all.
    pub open spec fn len() -> int {
        ChunkShape::<X, Y, Z>::inner_len(OrientedBlockFace::face(F as int))
    }

    /// The cells that the walk has yet to yield, in the order in which it
    /// yields them: the interior cells in the order of the face, without
    /// those that it has yielded.
    pub open spec fn remaining(&self) -> Seq<UVec3> {
        ChunkShape::<X, Y, Z>::inner_cells(OrientedBlockFace::face(F as int)).skip(self.index())
    }

    /// A walk that has yielded no cell yet.
    fn new() -> (r: Self)
        requires
            ChunkShape::<X, Y, Z>::valid(),
            F < 6,
        ensures
            r.wf(),
            r.index() == 0,
            r.remaining() == ChunkShape::<X, Y, Z>::inner_cells(OrientedBlockFace::face(F as int)),
    {
        let faces = OrientedBlockFace::faces();
        let face = faces[F];
        proof {
            UVec3::lemma_dot_unit(ChunkShape::<X, Y, Z>::shape_spec(), face.n);
            UVec3::lemma_dot_unit(ChunkShape::<X, Y, Z>::shape_spec(), face.u);
            UVec3::lemma_dot_unit(ChunkShape::<X, Y, Z>::shape_spec(), face.v);
        }
        let shape = ChunkShape::<X, Y, Z>::shape();
        let max_n = face.n.dot(shape);
        let max_u = face.u.dot(shape);
        let max_v = face.v.dot(shape);
        let n = if face.is_front {
            max_n - 2
        } else {
            1
        };
        proof {
            lemma_number_at_plane_end(max_u - 2, max_v - 2, 0);
        }
        let r = Self { face, n, u: 0, v: 1, max_n, max_u, max_v };
        proof {
            let cells = ChunkShape::<X, Y, Z>::inner_cells(OrientedBlockFace::face(F as int));
            assert(r.index() == 0);
            assert(cells.skip(0) =~= cells);
        }
        r
    }

    /// The next cell of the walk, or `None` once every interior cell has been
    /// yielded.
    #[inline]
    pub fn next(&mut self) -> (r: Option<UVec3>)
        requires
            old(self).wf(),
        ensures
            final(self).wf(),
            old(self).index() < Self::len() ==> r == Some(
                ChunkShape::<X, Y, Z>::inner_cell(
                    OrientedBlockFace::face(F as int),
                    old(self).index(),
                ),
            ) && final(self).index() == old(self).index() + 1,
            old(self).index() >= Self::len() ==> r.is_none() && final(self).index() == old(
                self,
            ).index(),
            0 <= old(self).index() <= Self::len(),
    {
        let ghost w = self.max_u - 2;
        let ghost h = self.max_v - 2;
        let ghost j = self.plane_number();
        proof {
            assert(Self::len() == (self.max_n - 2) * (w * h));
            assert((j + 1) * (w * h) <= (self.max_n - 2) * (w * h) && (j + 1 < self.max_n - 2 ==> (
            j + 1) * (w * h) < (self.max_n - 2) * (w * h))) by (nonlinear_arith)
                requires
                    j + 1 <= self.max_n - 2,
                    0 < w,
                    0 < h,
            ;
        }
        if self.u < self.max_u - 2 {
            proof {
                lemma_number_in_row(w, h, j, self.u as int, self.v as int);
            }
            self.u += 1;
            Some(self.face.position(self.n, self.u, self.v))
        } else if self.v < self.max_v - 2 {
            proof {
                lemma_number_at_row_end(w, h, j, self.v as int);
            }
            self.u = 1;
            self.v += 1;
            Some(self.face.position(self.n, self.u, self.v))
        } else {
            proof {
                lemma_number_at_plane_end(w, h, j);
            }
            if self.face.is_front && self.n > 1 {
                self.n -= 1;
                self.u = 1;
                self.v = 1;
                Some(self.face.position(self.n, self.u, self.v))
            } else if !self.face.is_front && self.n < self.max_n - 2 {
                self.n += 1;
                self.u = 1;
                self.v = 1;
                Some(self.face.position(self.n, self.u, self.v))
            } else {
                None
            }
        }
    }
}

/// A walk over the interior cells of one plane of a face, row by row.
pub struct InnerChunkShapeSliceIterator<const X: u32, const Y: u32, const Z: u32> {
    face: OrientedBlockFace,
    n: u32,
    u: u32,
    v: u32,
    max_u: u32,
    max_v: u32,
}

impl<const X: u32, const Y: u32, const Z: u32> InnerChunkShapeSliceIterator<X, Y, Z> {
    /// Whether the walk is at a cell of the plane, or before the first.
    pub closed spec fn wf(&self) -> bool {
        &&& self.face.wf()
        &&& self.max_u == ChunkShape::<X, Y, Z>::dim(self.face.u)
        &&& self.max_v == ChunkShape::<X, Y, Z>::dim(self.face.v)
        &&& self.max_u >= 3
        &&& self.max_v >= 3
        &&& 0 <= self.u <= self.max_u - 2
        &&& 1 <= self.v <= self.max_v - 2
    }

    /// The face whose plane is walked.
    pub closed spec fn face(&self) -> OrientedBlockFace {
        self.face
    }

    /// The coordinate of the plane along the normal.
    pub closed spec fn plane(&self) -> int {
        self.n as int
    }

    /// The number of cells that the walk has yielded.
    pub closed spec fn index(&self) -> int {
        cell_number(self.max_u - 2, self.max_v - 2, 0, self.u as int, self.v as int)
    }

    /// The number of cells that the walk yields in all.
    pub open spec fn len(&self) -> int {
        ChunkShape::<X, Y, Z>::slice_len(self.face())
    }

    /// A walk over the plane `n` of `face` that has yielded no cell yet.
    fn new(face: OrientedBlockFace, n: u32) -> (r: Self)
        requires
            ChunkShape::<X, Y, Z>::valid(),
            face.wf(),
        ensures
            r.wf(),
            r.face() == face,
            r.plane() == n,
            r.index() == 0,
    {
        proof {
            UVec3::lemma_dot_unit(ChunkShape::<X, Y, Z>::shape_spec(), face.u);
            UVec3::lemma_dot_unit(ChunkShape::<X, Y, Z>::shape_spec(), face.v);
        }
        let shape = UVec3::new(X, Y, Z);
        let max_u = face.u.dot(shape);
        let max_v = face.v.dot(shape);
        proof {
            lemma_number_at_plane_end(max_u - 2, max_v - 2, 0);
        }
        Self { face, n, u: 0, v: 1, max_u, max_v }
    }

    /// The next cell of the walk, or `None` once every interior cell of the
    /// plane has been yielded.
    #[inline]
    pub fn next(&mut self) -> (r: Option<UVec3>)
        requires
            old(self).wf(),
        ensures
            final(self).wf(),
            final(self).face() == old(self).face(),
            final(self).plane() == old(self).plane(),
            old(self).index() < old(self).len() ==> r == Some(
                ChunkShape::<X, Y, Z>::slice_cell(
                    old(self).face(),
                    old(self).plane(),
                    old(self).index(),
                ),
            ) && final(self).index() == old(self).index() + 1,
            old(self).index() >= old(self).len() ==> r.is_none() && final(self).index() == old(
                self,
            ).index(),
            0 <= old(self).index() <= old(self).len(),
    {
        let ghost w = self.max_u - 2;
        let ghost h = self.max_v - 2;
        proof {
            assert((0 + 1) * (w * h) == w * h && 0 * (w * h) == 0) by (nonlinear_arith);
        }
        if self.u < self.max_u - 2 {
            proof {
                lemma_number_in_row(w, h, 0, self.u as int, self.v as int);
                assert(cell_number(w, h, 0, self.u as int, self.v as int) % (w * h)
                    == cell_number(w, h, 0, self.u as int, self.v as int)) by {
                    vstd::arithmetic::div_mod::lemma_small_mod(
                        cell_number(w, h, 0, self.u as int, self.v as int) as nat,
                        (w * h) as nat,
                    );
                }
            }
            self.u += 1;
            Some(self.face.position(self.n, self.u, self.v))
        } else if self.v < self.max_v - 2 {
            proof {
                lemma_number_at_row_end(w, h, 0, self.v as int);
                assert(cell_number(w, h, 0, w, self.v as int) % (w * h) == cell_number(
                    w,
                    h,
                    0,
                    w,
                    self.v as int,
                )) by {
                    vstd::arithmetic::div_mod::lemma_small_mod(
                        cell_number(w, h, 0, w, self.v as int) as nat,
                        (w * h) as nat,
                    );
                }
            }
            self.u = 1;
            self.v += 1;
            Some(self.face.position(self.n, self.u, self.v))
        } else {
            proof {
                lemma_number_at_plane_end(w, h, 0);
            }
            None
        }
    }
}

} // verus!
