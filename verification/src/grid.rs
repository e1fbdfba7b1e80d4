//! The grids of the levels of detail: at level `lod` a cell of the grid is
//! 2^lod cells wide, and the grid starts at 1, where the interior starts.

use crate::geometry::shape::ChunkShape;
use crate::geometry::vector::UVec3;
use vstd::arithmetic::power2::pow2;
use vstd::prelude::*;

verus! {

/// The coordinate `c` rounded down to the grid of cells of 2^lod that starts
/// at 1, where the interior starts.
pub open spec fn coarse_coordinate(c: int, lod: nat) -> int {
    (c - 1) / (pow2(lod) as int) * (pow2(lod) as int) + 1
}

/// The cell `p` with each coordinate rounded down to the grid of cells of
/// 2^lod that starts at 1.
pub open spec fn coarse(p: UVec3, lod: nat) -> UVec3 {
    UVec3 {
        x: coarse_coordinate(p.x as int, lod) as u32,
        y: coarse_coordinate(p.y as int, lod) as u32,
        z: coarse_coordinate(p.z as int, lod) as u32,
    }
}

/// A coordinate rounded down to the grid stays between 1 and itself.
pub proof fn lemma_coarse_coordinate_bounds(c: int, lod: nat)
    requires
        1 <= c,
    ensures
        1 <= coarse_coordinate(c, lod) <= c,
        lod == 0 ==> coarse_coordinate(c, lod) == c,
{
    let d = pow2(lod) as int;
    vstd::arithmetic::power2::lemma_pow2_pos(lod);
    vstd::arithmetic::div_mod::lemma_fundamental_div_mod(c - 1, d);
    vstd::arithmetic::div_mod::lemma_div_pos_is_pos(c - 1, d);
    assert(d * ((c - 1) / d) == (c - 1) / d * d) by (nonlinear_arith);
    assert(0 <= (c - 1) / d * d) by (nonlinear_arith)
        requires
            0 <= (c - 1) / d,
            0 < d,
    ;
    if lod == 0 {
        vstd::arithmetic::power2::lemma2_to64();
        assert((c - 1) / 1 * 1 == c - 1);
    }
}

/// Rounds the coordinate `c` down to the grid of cells of 2^lod that starts
/// at 1.
#[inline]
pub(crate) fn coarsen(c: u32, lod: u32) -> (r: u32)
    requires
        1 <= c,
        lod < 32,
    ensures
        r == coarse_coordinate(c as int, lod as nat),
        1 <= r <= c,
{
    proof {
        lemma_coarse_coordinate_bounds(c as int, lod as nat);
        vstd::bits::lemma_u32_shr_is_div((c - 1) as u32, lod);
        vstd::bits::lemma_u32_shl_is_mul(((c - 1) as u32) >> lod, lod);
    }
    (((c - 1) >> lod) << lod) + 1
}

/// A cell of the interior, rounded down to a grid, is a cell of the chunk.
pub proof fn lemma_coarse_in_chunk<const X: u32, const Y: u32, const Z: u32>(p: UVec3, lod: nat)
    requires
        ChunkShape::<X, Y, Z>::valid(),
        ChunkShape::<X, Y, Z>::is_interior(p),
    ensures
        ChunkShape::<X, Y, Z>::is_interior(coarse(p, lod)),
        0 <= ChunkShape::<X, Y, Z>::linearize_spec(coarse(p, lod)) < ChunkShape::<
            X,
            Y,
            Z,
        >::volume(),
        lod == 0 ==> coarse(p, lod) == p,
{
    lemma_coarse_coordinate_bounds(p.x as int, lod);
    lemma_coarse_coordinate_bounds(p.y as int, lod);
    lemma_coarse_coordinate_bounds(p.z as int, lod);
    ChunkShape::<X, Y, Z>::lemma_linearize_bound(coarse(p, lod));
}

/// The coordinate `c` rounded up to the grid of cells of 2^lod that starts
/// at 1.
pub open spec fn round_up_coordinate(c: int, lod: nat) -> int {
    (c - 1 + (pow2(lod) as int) - 1) / (pow2(lod) as int) * (pow2(lod) as int) + 1
}

/// A coordinate rounded up to the grid is the coordinate at least, and less
/// than one cell of the grid more; at level 0 it is the coordinate.
pub proof fn lemma_round_up_coordinate_bounds(c: int, lod: nat)
    requires
        1 <= c,
    ensures
        c <= round_up_coordinate(c, lod) < c + pow2(lod),
        lod == 0 ==> round_up_coordinate(c, lod) == c,
{
    let d = pow2(lod) as int;
    vstd::arithmetic::power2::lemma_pow2_pos(lod);
    let x = c - 1 + d - 1;
    vstd::arithmetic::div_mod::lemma_fundamental_div_mod(x, d);
    vstd::arithmetic::div_mod::lemma_mod_bound(x, d);
    assert(d * (x / d) == x / d * d) by (nonlinear_arith);
    if lod == 0 {
        vstd::arithmetic::power2::lemma2_to64();
    }
}

/// Rounds the coordinate `c` up to the grid of cells of 2^lod that starts
/// at 1.
#[inline]
pub(crate) fn round_up(c: u32, lod: u32) -> (r: u32)
    requires
        1 <= c,
        lod < 32,
        c + pow2(lod as nat) <= u32::MAX,
    ensures
        r == round_up_coordinate(c as int, lod as nat),
        c <= r,
{
    proof {
        lemma_round_up_coordinate_bounds(c as int, lod as nat);
        vstd::bits::lemma_u32_pow2_no_overflow(lod as nat);
        vstd::bits::lemma_u32_shl_is_mul(1, lod);
    }
    let edge: u32 = 1u32 << lod;
    let x: u32 = c - 1 + (edge - 1);
    proof {
        let d = pow2(lod as nat) as int;
        vstd::bits::lemma_u32_shr_is_div(x, lod);
        vstd::arithmetic::div_mod::lemma_fundamental_div_mod(x as int, d);
        vstd::arithmetic::div_mod::lemma_mod_bound(x as int, d);
        assert(d * (x as int / d) == x as int / d * d) by (nonlinear_arith);
        vstd::bits::lemma_u32_shl_is_mul(x >> lod, lod);
    }
    ((x >> lod) << lod) + 1
}

/// Two coordinates in one cell of a grid are in one cell of each coarser
/// grid.
pub proof fn lemma_grids_are_nested(a: int, b: int, fine: nat, coarser: nat)
    requires
        1 <= a,
        1 <= b,
        fine <= coarser,
        coarse_coordinate(a, fine) == coarse_coordinate(b, fine),
    ensures
        coarse_coordinate(a, coarser) == coarse_coordinate(b, coarser),
{
    let d = pow2(fine) as int;
    let e = pow2((coarser - fine) as nat) as int;
    vstd::arithmetic::power2::lemma_pow2_pos(fine);
    vstd::arithmetic::power2::lemma_pow2_pos((coarser - fine) as nat);
    vstd::arithmetic::power2::lemma_pow2_adds(fine, (coarser - fine) as nat);
    assert(pow2(coarser) == d * e);
    let qa = (a - 1) / d;
    let qb = (b - 1) / d;
    assert(qa * d == qb * d);
    assert(qa == qb) by (nonlinear_arith)
        requires
            qa * d == qb * d,
            d > 0,
    ;
    vstd::arithmetic::div_mod::lemma_div_denominator(a - 1, d, e);
    vstd::arithmetic::div_mod::lemma_div_denominator(b - 1, d, e);
}

/// Two interior cells in one cell of a grid are in one cell of each coarser
/// grid.
pub proof fn lemma_cells_of_grids_are_nested<const X: u32, const Y: u32, const Z: u32>(
    p: UVec3,
    q: UVec3,
    fine: nat,
    coarser: nat,
)
    requires
        ChunkShape::<X, Y, Z>::valid(),
        ChunkShape::<X, Y, Z>::is_interior(p),
        ChunkShape::<X, Y, Z>::is_interior(q),
        fine <= coarser,
        coarse(p, fine) == coarse(q, fine),
    ensures
        coarse(p, coarser) == coarse(q, coarser),
{
    lemma_coarse_coordinate_bounds(p.x as int, fine);
    lemma_coarse_coordinate_bounds(p.y as int, fine);
    lemma_coarse_coordinate_bounds(p.z as int, fine);
    lemma_coarse_coordinate_bounds(q.x as int, fine);
    lemma_coarse_coordinate_bounds(q.y as int, fine);
    lemma_coarse_coordinate_bounds(q.z as int, fine);
    lemma_grids_are_nested(p.x as int, q.x as int, fine, coarser);
    lemma_grids_are_nested(p.y as int, q.y as int, fine, coarser);
    lemma_grids_are_nested(p.z as int, q.z as int, fine, coarser);
}

} // verus!
