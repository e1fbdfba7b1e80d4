//! The mesher that gives each exposed face of each voxel a quad of its own.

use crate::buffer::{bit, lemma_bit_set, PopBuffer, VisitedBuffer};
use crate::exposure::{exposed, lemma_facing_index};
use crate::geometry::face::OrientedBlockFace;
use crate::geometry::quad::{UnorientedRegularQuad, UnorientedUnitQuad};
use crate::geometry::shape::ChunkShape;
use crate::geometry::vector::UVec3;
use crate::grid::{coarse, coarsen, lemma_coarse_in_chunk};
use crate::voxel::{MeshVoxel, VoxelVisibility};
use vstd::arithmetic::power2::pow2;
use vstd::prelude::*;

verus! {

/// The square that `quad` becomes at level of detail `lod`: the cell of the
/// grid of 2^lod that holds it.
pub open spec fn into_lod_spec(quad: UnorientedUnitQuad, lod: nat) -> UnorientedRegularQuad {
    UnorientedRegularQuad { minimum: coarse(quad.minimum, lod), size: pow2(lod) as u32 }
}

/// The square that `quad` becomes at level of detail `lod`.
#[inline]
pub fn into_lod(quad: UnorientedUnitQuad, lod: usize) -> (r: UnorientedRegularQuad)
    requires
        lod < 32,
        1 <= quad.minimum.x,
        1 <= quad.minimum.y,
        1 <= quad.minimum.z,
    ensures
        r == into_lod_spec(quad, lod as nat),
        1 <= r.minimum.x <= quad.minimum.x,
        1 <= r.minimum.y <= quad.minimum.y,
        1 <= r.minimum.z <= quad.minimum.z,
{
    let shift = lod as u32;
    proof {
        vstd::bits::lemma_u32_pow2_no_overflow(lod as nat);
        vstd::bits::lemma_u32_shl_is_mul(1, shift);
    }
    UnorientedRegularQuad {
        minimum: UVec3::new(
            coarsen(quad.minimum.x, shift),
            coarsen(quad.minimum.y, shift),
            coarsen(quad.minimum.z, shift),
        ),
        size: 1u32 << shift,
    }
}

/// The highest level below `levels` at which the cell of the grid that
/// holds `p` is not marked in `visited`; 0 when it is marked at each.
pub open spec fn highest_clear<const X: u32, const Y: u32, const Z: u32>(
    visited: Seq<u8>,
    p: UVec3,
    levels: nat,
) -> nat
    decreases levels,
{
    if levels == 0 {
        0
    } else if !bit(
        visited[ChunkShape::<X, Y, Z>::linearize_spec(coarse(p, (levels - 1) as nat))],
        levels - 1,
    ) {
        (levels - 1) as nat
    } else {
        highest_clear::<X, Y, Z>(visited, p, (levels - 1) as nat)
    }
}

/// Whether `after` is `before` with one more mark for each level from `from`
/// to `levels - 1`: that of the cell of the grid that holds `p`.
pub open spec fn marks_added<const X: u32, const Y: u32, const Z: u32>(
    before: Seq<u8>,
    after: Seq<u8>,
    p: UVec3,
    from: int,
    levels: int,
) -> bool {
    &&& after.len() == before.len()
    &&& forall|i: int, l: int|
        0 <= i < before.len() && 0 <= l < 8 ==> (#[trigger] bit(after[i], l) <==> bit(before[i], l)
            || (from <= l < levels && i == ChunkShape::<X, Y, Z>::linearize_spec(
            coarse(p, l as nat),
        )))
}

/// Marks the cell of `quad` at each of the `M` levels of detail, and finds
/// the highest level at which it was not marked before: 0 when it was marked
/// at each.
#[inline]
fn find_max_lod<const X: u32, const Y: u32, const Z: u32, const M: usize>(
    visited: &mut VisitedBuffer,
    quad: UnorientedUnitQuad,
) -> (r: usize)
    requires
        ChunkShape::<X, Y, Z>::valid(),
        old(visited)@.len() == ChunkShape::<X, Y, Z>::volume(),
        M <= 8,
        ChunkShape::<X, Y, Z>::is_interior(quad.minimum),
    ensures
        marks_added::<X, Y, Z>(old(visited)@, final(visited)@, quad.minimum, 0, M as int),
        r == highest_clear::<X, Y, Z>(old(visited)@, quad.minimum, M as nat),
        M > 0 ==> r < M,
{
    let mut max_lod: usize = 0;
    let mut lod: usize = M;
    let ghost mut found = false;
    let ghost start = visited@;
    let ghost p = quad.minimum;
    while lod > 0
        invariant
            ChunkShape::<X, Y, Z>::valid(),
            ChunkShape::<X, Y, Z>::is_interior(quad.minimum),
            p == quad.minimum,
            lod <= M <= 8,
            start.len() == ChunkShape::<X, Y, Z>::volume(),
            marks_added::<X, Y, Z>(start, visited@, p, lod as int, M as int),
            found ==> lod <= max_lod < M && max_lod == highest_clear::<X, Y, Z>(start, p, M as nat),
            !found ==> max_lod == 0 && highest_clear::<X, Y, Z>(start, p, M as nat)
                == highest_clear::<X, Y, Z>(start, p, lod as nat),
        decreases lod,
    {
        lod -= 1;
        proof {
            lemma_coarse_in_chunk::<X, Y, Z>(p, lod as nat);
        }
        let quad_lod = into_lod(quad, lod);
        let index = ChunkShape::<X, Y, Z>::linearize(quad_lod.minimum) as usize;
        let mask: u8 = 1u8 << (lod as u8);
        let marks: u8 = visited.get(index);
        let ghost current = visited@;
        assert(bit(marks, lod as int) == bit(start[index as int], lod as int));
        if marks & mask == 0 {
            visited.set(index, marks | mask);

            if max_lod < lod {
                max_lod = lod;
            }
            proof {
                found = true;
            }
        }
        proof {
            assert forall|i: int, l: int| 0 <= i < start.len() && 0 <= l < 8 implies (
            #[trigger] bit(
                visited@[i],
                l,
            ) <==> bit(start[i], l) || (lod <= l < M && i == ChunkShape::<X, Y, Z>::linearize_spec(
                coarse(p, l as nat),
            ))) by {
                lemma_bit_set(marks, lod as int, l);
                assert(bit(current[i], l) <==> bit(start[i], l) || (lod + 1 <= l < M && i
                    == ChunkShape::<X, Y, Z>::linearize_spec(coarse(p, l as nat))));
            }
        }
    }
    max_lod
}

/// Whether the interior cell with number `k`, in the order of the face with
/// index `f`, gets a quad on that face.
pub open spec fn emits<const X: u32, const Y: u32, const Z: u32, V: MeshVoxel>(
    voxels: Seq<V>,
    f: int,
    k: int,
) -> bool {
    exposed::<X, Y, Z, V>(
        voxels,
        OrientedBlockFace::face(f),
        ChunkShape::<X, Y, Z>::inner_cell(OrientedBlockFace::face(f), k),
    )
}

/// Whether the cell with number `i` of the face with index `g` gets a quad,
/// and that quad lies in the cell `c` of the grid of level `lod`.
pub open spec fn marks_event<const X: u32, const Y: u32, const Z: u32, V: MeshVoxel>(
    voxels: Seq<V>,
    g: int,
    i: int,
    lod: nat,
    c: UVec3,
) -> bool {
    &&& 0 <= g < 6
    &&& 0 <= i < ChunkShape::<X, Y, Z>::inner_len(OrientedBlockFace::face(g))
    &&& emits::<X, Y, Z, V>(voxels, g, i)
    &&& coarse(ChunkShape::<X, Y, Z>::inner_cell(OrientedBlockFace::face(g), i), lod) == c
}

/// Whether, before the mesher comes to the cell with number `k` of the face
/// with index `f`, it has made a quad that lies in the cell `c` of the grid
/// of level `lod`. The mesher takes the faces in the order of their indices,
/// and for each face the cells in the order of that face.
pub open spec fn marked<const X: u32, const Y: u32, const Z: u32, V: MeshVoxel>(
    voxels: Seq<V>,
    f: int,
    k: int,
    lod: nat,
    c: UVec3,
) -> bool {
    exists|g: int, i: int|
        (g < f || (g == f && i < k)) && #[trigger] marks_event::<X, Y, Z, V>(voxels, g, i, lod, c)
}

/// The level of detail of the quad of the cell with number `k` of the face
/// with index `f`, where there are `levels` levels: the highest level at
/// which no earlier quad lies in the same cell of the grid, and 0 where there
/// is no such level.
pub open spec fn lod_class<const X: u32, const Y: u32, const Z: u32, V: MeshVoxel>(
    voxels: Seq<V>,
    f: int,
    k: int,
    levels: nat,
) -> nat
    decreases levels,
{
    if levels == 0 {
        0
    } else if !marked::<X, Y, Z, V>(
        voxels,
        f,
        k,
        (levels - 1) as nat,
        coarse(
            ChunkShape::<X, Y, Z>::inner_cell(OrientedBlockFace::face(f), k),
            (levels - 1) as nat,
        ),
    ) {
        (levels - 1) as nat
    } else {
        lod_class::<X, Y, Z, V>(voxels, f, k, (levels - 1) as nat)
    }
}

/// The quads of level `lod` that the first `k` interior cells get on the
/// face with index `f`, in the order of the cells.
pub open spec fn visible_quads_upto<const X: u32, const Y: u32, const Z: u32, V: MeshVoxel>(
    voxels: Seq<V>,
    f: int,
    lod: int,
    levels: nat,
    k: int,
) -> Seq<UnorientedUnitQuad>
    decreases k,
{
    if k <= 0 {
        Seq::empty()
    } else {
        let rest = visible_quads_upto::<X, Y, Z, V>(voxels, f, lod, levels, k - 1);
        if emits::<X, Y, Z, V>(voxels, f, k - 1) && lod_class::<X, Y, Z, V>(
            voxels,
            f,
            k - 1,
            levels,
        ) == lod {
            rest.push(
                UnorientedUnitQuad {
                    minimum: ChunkShape::<X, Y, Z>::inner_cell(OrientedBlockFace::face(f), k - 1),
                },
            )
        } else {
            rest
        }
    }
}

/// The quads of level `lod` on the face with index `f`: one for each
/// interior cell whose face is exposed and gets that level, in the order of
/// the face.
pub open spec fn visible_quads<const X: u32, const Y: u32, const Z: u32, V: MeshVoxel>(
    voxels: Seq<V>,
    f: int,
    lod: int,
    levels: nat,
) -> Seq<UnorientedUnitQuad> {
    visible_quads_upto::<X, Y, Z, V>(
        voxels,
        f,
        lod,
        levels,
        ChunkShape::<X, Y, Z>::inner_len(OrientedBlockFace::face(f)),
    )
}

/// Whether the marks in `visited` are those of the quads that the mesher
/// has made before it comes to the cell with number `k` of the face with
/// index `f`.
pub open spec fn marks_match<const X: u32, const Y: u32, const Z: u32, V: MeshVoxel>(
    voxels: Seq<V>,
    visited: Seq<u8>,
    f: int,
    k: int,
    levels: int,
) -> bool {
    &&& visited.len() == ChunkShape::<X, Y, Z>::volume()
    &&& forall|c: UVec3, l: int|
        ChunkShape::<X, Y, Z>::contains(c) && 0 <= l < levels ==> (bit(
            visited[ChunkShape::<X, Y, Z>::linearize_spec(c)],
            l,
        ) <==> #[trigger] marked::<X, Y, Z, V>(voxels, f, k, l as nat, c))
}

/// What one more cell adds to the quads made so far.
pub proof fn lemma_marked_step<const X: u32, const Y: u32, const Z: u32, V: MeshVoxel>(
    voxels: Seq<V>,
    f: int,
    k: int,
    lod: nat,
    c: UVec3,
)
    requires
        0 <= f < 6,
        0 <= k < ChunkShape::<X, Y, Z>::inner_len(OrientedBlockFace::face(f)),
    ensures
        marked::<X, Y, Z, V>(voxels, f, k + 1, lod, c) <==> marked::<X, Y, Z, V>(
            voxels,
            f,
            k,
            lod,
            c,
        ) || marks_event::<X, Y, Z, V>(voxels, f, k, lod, c),
{
    if marked::<X, Y, Z, V>(voxels, f, k + 1, lod, c) {
        let (g, i) = choose|g: int, i: int|
            (g < f || (g == f && i < k + 1)) && #[trigger] marks_event::<X, Y, Z, V>(
                voxels,
                g,
                i,
                lod,
                c,
            );
        if !(g == f && i == k) {
            assert((g < f || (g == f && i < k)) && marks_event::<X, Y, Z, V>(voxels, g, i, lod, c));
        }
    }
    if marked::<X, Y, Z, V>(voxels, f, k, lod, c) {
        let (g, i) = choose|g: int, i: int|
            (g < f || (g == f && i < k)) && #[trigger] marks_event::<X, Y, Z, V>(
                voxels,
                g,
                i,
                lod,
                c,
            );
        assert((g < f || (g == f && i < k + 1)) && marks_event::<X, Y, Z, V>(voxels, g, i, lod, c));
    }
    if marks_event::<X, Y, Z, V>(voxels, f, k, lod, c) {
        assert((f < f || (f == f && k < k + 1)) && marks_event::<X, Y, Z, V>(voxels, f, k, lod, c));
    }
}

/// The quads made when a face is done are those made when the next begins.
pub proof fn lemma_marked_next_face<const X: u32, const Y: u32, const Z: u32, V: MeshVoxel>(
    voxels: Seq<V>,
    f: int,
    lod: nat,
    c: UVec3,
)
    requires
        0 <= f < 6,
    ensures
        marked::<X, Y, Z, V>(
            voxels,
            f,
            ChunkShape::<X, Y, Z>::inner_len(OrientedBlockFace::face(f)),
            lod,
            c,
        ) <==> marked::<X, Y, Z, V>(voxels, f + 1, 0, lod, c),
{
    let len = ChunkShape::<X, Y, Z>::inner_len(OrientedBlockFace::face(f));
    if marked::<X, Y, Z, V>(voxels, f, len, lod, c) {
        let (g, i) = choose|g: int, i: int|
            (g < f || (g == f && i < len)) && #[trigger] marks_event::<X, Y, Z, V>(
                voxels,
                g,
                i,
                lod,
                c,
            );
        assert((g < f + 1 || (g == f + 1 && i < 0)) && marks_event::<X, Y, Z, V>(
            voxels,
            g,
            i,
            lod,
            c,
        ));
    }
    if marked::<X, Y, Z, V>(voxels, f + 1, 0, lod, c) {
        let (g, i) = choose|g: int, i: int|
            (g < f + 1 || (g == f + 1 && i < 0)) && #[trigger] marks_event::<X, Y, Z, V>(
                voxels,
                g,
                i,
                lod,
                c,
            );
        assert((g < f || (g == f && i < len)) && marks_event::<X, Y, Z, V>(voxels, g, i, lod, c));
    }
}

/// The marks say which level a quad gets.
proof fn lemma_class_from_marks<const X: u32, const Y: u32, const Z: u32, V: MeshVoxel>(
    voxels: Seq<V>,
    visited: Seq<u8>,
    f: int,
    k: int,
    marks: int,
    levels: nat,
)
    requires
        ChunkShape::<X, Y, Z>::valid(),
        0 <= f < 6,
        0 <= k < ChunkShape::<X, Y, Z>::inner_len(OrientedBlockFace::face(f)),
        levels <= marks,
        marks_match::<X, Y, Z, V>(voxels, visited, f, k, marks),
    ensures
        highest_clear::<X, Y, Z>(
            visited,
            ChunkShape::<X, Y, Z>::inner_cell(OrientedBlockFace::face(f), k),
            levels,
        ) == lod_class::<X, Y, Z, V>(voxels, f, k, levels),
    decreases levels,
{
    if levels > 0 {
        let p = ChunkShape::<X, Y, Z>::inner_cell(OrientedBlockFace::face(f), k);
        let l = (levels - 1) as nat;
        ChunkShape::<X, Y, Z>::lemma_inner_cell_interior(OrientedBlockFace::face(f), k);
        lemma_coarse_in_chunk::<X, Y, Z>(p, l);
        assert(bit(visited[ChunkShape::<X, Y, Z>::linearize_spec(coarse(p, l))], l as int)
            <==> marked::<X, Y, Z, V>(voxels, f, k, l, coarse(p, l)));
        lemma_class_from_marks::<X, Y, Z, V>(voxels, visited, f, k, marks, l);
    }
}

/// Gives each exposed face with index `F` a quad.
fn mesh_face<
    const X: u32,
    const Y: u32,
    const Z: u32,
    const M: usize,
    const F: usize,
    V: MeshVoxel,
>(voxels: &[V], visited: &mut VisitedBuffer, output: &mut PopBuffer<M, UnorientedUnitQuad>)
    requires
        ChunkShape::<X, Y, Z>::valid(),
        voxels@.len() == ChunkShape::<X, Y, Z>::volume(),
        1 <= M <= 8,
        F < 6,
        old(output).wf(),
        marks_match::<X, Y, Z, V>(voxels@, old(visited)@, F as int, 0, M as int),
    ensures
        final(output).wf(),
        marks_match::<X, Y, Z, V>(voxels@, final(visited)@, F + 1, 0, M as int),
        forall|lod: int|
            0 <= lod < M ==> #[trigger] final(output).bucket(lod, F as int) == old(output).bucket(
                lod,
                F as int,
            ) + visible_quads::<X, Y, Z, V>(voxels@, F as int, lod, M as nat),
        forall|lod: int, f: int|
            0 <= lod < M && 0 <= f < 6 && f != F ==> #[trigger] final(output).bucket(lod, f)
                == old(output).bucket(lod, f),
{
    let faces = OrientedBlockFace::faces();
    let face = faces[F];
    proof {
        ChunkShape::<X, Y, Z>::lemma_plane_fits();
    }
    let face_strides = ChunkShape::<X, Y, Z>::face_strides(face);
    let mut iter = ChunkShape::<X, Y, Z>::inner_iter::<F>();
    let ghost len = ChunkShape::<X, Y, Z>::inner_len(face);

    loop
        invariant
            ChunkShape::<X, Y, Z>::valid(),
            voxels@.len() == ChunkShape::<X, Y, Z>::volume(),
            1 <= M <= 8,
            F < 6,
            face == OrientedBlockFace::face(F as int),
            face.wf(),
            len == ChunkShape::<X, Y, Z>::inner_len(face),
            face_strides.n == if face.is_front {
                ChunkShape::<X, Y, Z>::stride(face.n)
            } else {
                0x1_0000_0000 - ChunkShape::<X, Y, Z>::stride(face.n)
            },
            iter.wf(),
            0 <= iter.index() <= len,
            output.wf(),
            marks_match::<X, Y, Z, V>(voxels@, visited@, F as int, iter.index(), M as int),
            forall|lod: int|
                0 <= lod < M ==> #[trigger] output.bucket(lod, F as int) == old(output).bucket(
                    lod,
                    F as int,
                ) + visible_quads_upto::<X, Y, Z, V>(
                    voxels@,
                    F as int,
                    lod,
                    M as nat,
                    iter.index(),
                ),
            forall|lod: int, f: int|
                0 <= lod < M && 0 <= f < 6 && f != F ==> #[trigger] output.bucket(lod, f) == old(
                    output,
                ).bucket(lod, f),
        ensures
            iter.index() == len,
        decreases len - iter.index(),
    {
        let ghost k = iter.index();
        let ghost marks_before = visited@;
        let ghost output_before = *output;
        let next = iter.next();
        if next.is_none() {
            break ;
        }
        let position = next.unwrap();
        proof {
            ChunkShape::<X, Y, Z>::lemma_inner_cell_interior(face, k);
            ChunkShape::<X, Y, Z>::lemma_linearize_bound(position);
            lemma_facing_index::<X, Y, Z>(face, position);
        }
        let index = ChunkShape::<X, Y, Z>::linearize(position);
        let voxel = &voxels[index as usize];
        let visibility = voxel.get_visibility();
        let mut emitted = false;

        if visibility != VoxelVisibility::Empty {
            let neighbor_index = index.wrapping_add(face_strides.n);
            let neighbor_voxel = &voxels[neighbor_index as usize];

            let face_needs_mesh = match neighbor_voxel.get_visibility() {
                VoxelVisibility::Empty => true,
                VoxelVisibility::Translucent => visibility == VoxelVisibility::Opaque,
                VoxelVisibility::Opaque => false,
            };

            if face_needs_mesh {
                let quad = UnorientedUnitQuad { minimum: position };
                proof {
                    lemma_class_from_marks::<X, Y, Z, V>(
                        voxels@,
                        visited@,
                        F as int,
                        k,
                        M as int,
                        M as nat,
                    );
                }
                let lod = find_max_lod::<X, Y, Z, M>(visited, quad);
                output.add_quad(F, quad, lod);
                emitted = true;
            }
        }
        proof {
            assert(emitted == emits::<X, Y, Z, V>(voxels@, F as int, k));
            assert forall|c: UVec3, l: int|
                ChunkShape::<X, Y, Z>::contains(c) && 0 <= l < M implies (bit(
                visited@[ChunkShape::<X, Y, Z>::linearize_spec(c)],
                l,
            ) <==> #[trigger] marked::<X, Y, Z, V>(voxels@, F as int, k + 1, l as nat, c)) by {
                lemma_marked_step::<X, Y, Z, V>(voxels@, F as int, k, l as nat, c);
                ChunkShape::<X, Y, Z>::lemma_linearize_bound(c);
                assert(bit(marks_before[ChunkShape::<X, Y, Z>::linearize_spec(c)], l)
                    <==> marked::<X, Y, Z, V>(voxels@, F as int, k, l as nat, c));
                if emitted {
                    lemma_coarse_in_chunk::<X, Y, Z>(position, l as nat);
                    if ChunkShape::<X, Y, Z>::linearize_spec(c) == ChunkShape::<
                        X,
                        Y,
                        Z,
                    >::linearize_spec(coarse(position, l as nat)) {
                        ChunkShape::<X, Y, Z>::lemma_linearize_injective(
                            c,
                            coarse(position, l as nat),
                        );
                    }
                }
            }
            assert forall|lod: int| 0 <= lod < M implies #[trigger] output.bucket(lod, F as int)
                == old(output).bucket(lod, F as int) + visible_quads_upto::<X, Y, Z, V>(
                voxels@,
                F as int,
                lod,
                M as nat,
                k + 1,
            ) by {
                let rest = visible_quads_upto::<X, Y, Z, V>(voxels@, F as int, lod, M as nat, k);
                assert(output_before.bucket(lod, F as int) == old(output).bucket(lod, F as int)
                    + rest);
                if emitted && lod_class::<X, Y, Z, V>(voxels@, F as int, k, M as nat) == lod {
                    assert((old(output).bucket(lod, F as int) + rest).push(
                        UnorientedUnitQuad { minimum: position },
                    ) =~= old(output).bucket(lod, F as int) + rest.push(
                        UnorientedUnitQuad { minimum: position },
                    ));
                }
            }
        }
    }
    proof {
        assert forall|c: UVec3, l: int|
            ChunkShape::<X, Y, Z>::contains(c) && 0 <= l < M implies (bit(
            visited@[ChunkShape::<X, Y, Z>::linearize_spec(c)],
            l,
        ) <==> #[trigger] marked::<X, Y, Z, V>(voxels@, F + 1, 0, l as nat, c)) by {
            lemma_marked_next_face::<X, Y, Z, V>(voxels@, F as int, l as nat, c);
            assert(bit(visited@[ChunkShape::<X, Y, Z>::linearize_spec(c)], l) <==> marked::<
                X,
                Y,
                Z,
                V,
            >(voxels@, F as int, len, l as nat, c));
        }
    }
}

/// Gives each exposed face of each voxel of the interior a quad of one cell,
/// and adds the quad to the bucket of its face and of its level of detail.
///
/// A face of a voxel that is not empty is exposed where it looks at an empty
/// voxel, and that of an opaque voxel also where it looks at a translucent
/// one. The faces are taken in the order of their indices, and for each face
/// the cells in the order of that face. A quad gets the highest of the `M`
/// levels at which no earlier quad lies in the same cell of the grid of that
/// level, and level 0 where there is none. The marks in `visited` are taken
/// away first; what they were has no part in the result. At the end a cell
/// is marked for a level where a quad lies in that cell of the grid of that
/// level.
pub fn visible_faces_quads<const X: u32, const Y: u32, const Z: u32, const M: usize, V: MeshVoxel>(
    voxels: &[V],
    visited: &mut VisitedBuffer,
    output: &mut PopBuffer<M, UnorientedUnitQuad>,
)
    requires
        ChunkShape::<X, Y, Z>::valid(),
        voxels@.len() == ChunkShape::<X, Y, Z>::volume(),
        old(visited)@.len() == voxels@.len(),
        1 <= M <= 8,
        pow2(M as nat) <= X,
        pow2(M as nat) <= Y,
        pow2(M as nat) <= Z,
        old(output).wf(),
    ensures
        final(output).wf(),
        forall|lod: int, f: int|
            0 <= lod < M && 0 <= f < 6 ==> #[trigger] final(output).bucket(lod, f) == old(
                output,
            ).bucket(lod, f) + visible_quads::<X, Y, Z, V>(voxels@, f, lod, M as nat),
        final(visited)@.len() == old(visited)@.len(),
        marks_match::<X, Y, Z, V>(voxels@, final(visited)@, 6, 0, M as int),
{
    visited.reset();
    proof {
        assert forall|c: UVec3, l: int|
            ChunkShape::<X, Y, Z>::contains(c) && 0 <= l < M implies (bit(
            visited@[ChunkShape::<X, Y, Z>::linearize_spec(c)],
            l,
        ) <==> #[trigger] marked::<X, Y, Z, V>(voxels@, 0, 0, l as nat, c)) by {
            ChunkShape::<X, Y, Z>::lemma_linearize_bound(c);
            lemma_bit_set(0u8, 0, l);
        }
    }
    mesh_face::<X, Y, Z, M, 0, V>(voxels, visited, output);
    mesh_face::<X, Y, Z, M, 1, V>(voxels, visited, output);
    mesh_face::<X, Y, Z, M, 2, V>(voxels, visited, output);
    mesh_face::<X, Y, Z, M, 3, V>(voxels, visited, output);
    mesh_face::<X, Y, Z, M, 4, V>(voxels, visited, output);
    mesh_face::<X, Y, Z, M, 5, V>(voxels, visited, output);
}

} // verus!
