//! What holds of the rectangles of the mesher that merges faces.

use crate::buffer::PopBuffer;
use crate::exposure::{exposed, facing, lemma_facing_index};
use crate::geometry::face::OrientedBlockFace;
use crate::geometry::quad::UnorientedQuad;
use crate::geometry::shape::ChunkShape;
use crate::geometry::vector::UVec3;
use crate::greedy::{
    covered, face_quads_upto, greedy_face_quads, greedy_quad, into_lod_spec, joins,
    lemma_covered_push, plane_quads_upto, quad_covers, quad_lod, quads_of_level, run_height,
    run_width,
};
use crate::lod::{all_inflatable, inflated_from, LodQuad};
use crate::theory::counting::{
    count_where, lemma_count_where_add, lemma_count_where_all, lemma_count_where_filter,
    lemma_count_where_split,
};
use crate::theory::exposure::{
    all_empty, lemma_empty_chunk_exposes_nothing, lemma_exposed_by_visibility,
    lemma_solid_exposed, same_visibility, solid,
};
use crate::voxel::MergeVoxel;
use vstd::prelude::*;
use vstd::std_specs::cmp::PartialEqSpec;

verus! {

/// Whether each merge value equals itself.
pub open spec fn reflexive<V: MergeVoxel>() -> bool {
    &&& forall|a: V::MergeValue| #[trigger] a.eq_spec(&a)
    &&& forall|a: V::MergeValueFacingNeighbour| #[trigger] a.eq_spec(&a)
}

/// Each cell of a run can join the rectangle.
pub proof fn lemma_run_width_cells<const X: u32, const Y: u32, const Z: u32, V: MergeVoxel>(
    voxels: Seq<V>,
    face: OrientedBlockFace,
    done: Seq<UnorientedQuad>,
    origin: UVec3,
    start: UVec3,
    limit: nat,
    a: int,
)
    requires
        face.wf(),
        start.along(face.u) + limit <= u32::MAX,
        0 <= a < run_width::<X, Y, Z, V>(voxels, face, done, origin, start, limit),
    ensures
        joins::<X, Y, Z, V>(voxels, face, done, origin, start.shifted(face.u, a)),
        run_width::<X, Y, Z, V>(voxels, face, done, origin, start, limit) <= limit,
    decreases limit,
{
    if limit > 0 {
        lemma_run_width_bound::<X, Y, Z, V>(voxels, face, done, origin, start, limit);
        if a == 0 {
            assert(start.shifted(face.u, 0) == start);
        } else {
            lemma_run_width_cells::<X, Y, Z, V>(
                voxels,
                face,
                done,
                origin,
                start.shifted(face.u, 1),
                (limit - 1) as nat,
                a - 1,
            );
            assert(start.shifted(face.u, 1).shifted(face.u, a - 1) == start.shifted(face.u, a));
        }
    }
}

/// A run is as wide as its limit at most.
pub proof fn lemma_run_width_bound<const X: u32, const Y: u32, const Z: u32, V: MergeVoxel>(
    voxels: Seq<V>,
    face: OrientedBlockFace,
    done: Seq<UnorientedQuad>,
    origin: UVec3,
    start: UVec3,
    limit: nat,
)
    ensures
        run_width::<X, Y, Z, V>(voxels, face, done, origin, start, limit) <= limit,
    decreases limit,
{
    if limit > 0 {
        lemma_run_width_bound::<X, Y, Z, V>(
            voxels,
            face,
            done,
            origin,
            start.shifted(face.u, 1),
            (limit - 1) as nat,
        );
    }
}

/// Each row of a run of rows can join the rectangle with all of its first
/// `width` cells.
pub proof fn lemma_run_height_rows<const X: u32, const Y: u32, const Z: u32, V: MergeVoxel>(
    voxels: Seq<V>,
    face: OrientedBlockFace,
    done: Seq<UnorientedQuad>,
    origin: UVec3,
    start: UVec3,
    width: nat,
    limit: nat,
    b: int,
)
    requires
        face.wf(),
        start.along(face.v) + limit <= u32::MAX,
        0 <= b < run_height::<X, Y, Z, V>(voxels, face, done, origin, start, width, limit),
    ensures
        run_width::<X, Y, Z, V>(voxels, face, done, origin, start.shifted(face.v, b), width)
            >= width,
    decreases limit,
{
    if limit > 0 {
        if b == 0 {
            assert(start.shifted(face.v, 0) == start);
        } else {
            lemma_run_height_rows::<X, Y, Z, V>(
                voxels,
                face,
                done,
                origin,
                start.shifted(face.v, 1),
                width,
                (limit - 1) as nat,
                b - 1,
            );
            assert(start.shifted(face.v, 1).shifted(face.v, b - 1) == start.shifted(face.v, b));
        }
    }
}

/// A run of rows is as high as its limit at most.
pub proof fn lemma_run_height_bound<const X: u32, const Y: u32, const Z: u32, V: MergeVoxel>(
    voxels: Seq<V>,
    face: OrientedBlockFace,
    done: Seq<UnorientedQuad>,
    origin: UVec3,
    start: UVec3,
    width: nat,
    limit: nat,
)
    ensures
        run_height::<X, Y, Z, V>(voxels, face, done, origin, start, width, limit) <= limit,
    decreases limit,
{
    if limit > 0 {
        lemma_run_height_bound::<X, Y, Z, V>(
            voxels,
            face,
            done,
            origin,
            start.shifted(face.v, 1),
            width,
            (limit - 1) as nat,
        );
    }
}

/// A run that its limit does not end, ends before a cell that cannot join.
pub proof fn lemma_run_width_stops<const X: u32, const Y: u32, const Z: u32, V: MergeVoxel>(
    voxels: Seq<V>,
    face: OrientedBlockFace,
    done: Seq<UnorientedQuad>,
    origin: UVec3,
    start: UVec3,
    limit: nat,
)
    requires
        face.wf(),
        start.along(face.u) + limit <= u32::MAX,
        run_width::<X, Y, Z, V>(voxels, face, done, origin, start, limit) < limit,
    ensures
        !joins::<X, Y, Z, V>(
            voxels,
            face,
            done,
            origin,
            start.shifted(
                face.u,
                run_width::<X, Y, Z, V>(voxels, face, done, origin, start, limit) as int,
            ),
        ),
    decreases limit,
{
    if joins::<X, Y, Z, V>(voxels, face, done, origin, start) {
        let next = start.shifted(face.u, 1);
        let rest = run_width::<X, Y, Z, V>(voxels, face, done, origin, next, (limit - 1) as nat);
        lemma_run_width_stops::<X, Y, Z, V>(voxels, face, done, origin, next, (limit - 1) as nat);
        lemma_run_width_bound::<X, Y, Z, V>(voxels, face, done, origin, next, (limit - 1) as nat);
        assert(next.shifted(face.u, rest as int) == start.shifted(face.u, 1 + rest as int));
    } else {
        assert(start.shifted(face.u, 0) == start);
    }
}

/// A run of rows that its limit does not end, ends before a row of which
/// not all cells can join.
pub proof fn lemma_run_height_stops<const X: u32, const Y: u32, const Z: u32, V: MergeVoxel>(
    voxels: Seq<V>,
    face: OrientedBlockFace,
    done: Seq<UnorientedQuad>,
    origin: UVec3,
    start: UVec3,
    width: nat,
    limit: nat,
)
    requires
        face.wf(),
        start.along(face.v) + limit <= u32::MAX,
        run_height::<X, Y, Z, V>(voxels, face, done, origin, start, width, limit) < limit,
    ensures
        run_width::<X, Y, Z, V>(
            voxels,
            face,
            done,
            origin,
            start.shifted(
                face.v,
                run_height::<X, Y, Z, V>(voxels, face, done, origin, start, width, limit) as int,
            ),
            width,
        ) < width,
    decreases limit,
{
    if run_width::<X, Y, Z, V>(voxels, face, done, origin, start, width) >= width {
        let next = start.shifted(face.v, 1);
        let rest = run_height::<X, Y, Z, V>(
            voxels,
            face,
            done,
            origin,
            next,
            width,
            (limit - 1) as nat,
        );
        lemma_run_height_stops::<X, Y, Z, V>(
            voxels,
            face,
            done,
            origin,
            next,
            width,
            (limit - 1) as nat,
        );
        lemma_run_height_bound::<X, Y, Z, V>(
            voxels,
            face,
            done,
            origin,
            next,
            width,
            (limit - 1) as nat,
        );
        assert(next.shifted(face.v, rest as int) == start.shifted(face.v, 1 + rest as int));
    } else {
        assert(start.shifted(face.v, 0) == start);
    }
}

/// A rectangle cannot grow: where it ends along U before the end of the
/// interior, the cell after its first row cannot join it, and where it ends
/// along V before the end of the interior, not all cells of the row after it
/// can join it.
pub proof fn lemma_rectangle_cannot_grow<const X: u32, const Y: u32, const Z: u32, V: MergeVoxel>(
    voxels: Seq<V>,
    face: OrientedBlockFace,
    done: Seq<UnorientedQuad>,
    p: UVec3,
)
    requires
        ChunkShape::<X, Y, Z>::valid(),
        face.wf(),
        ChunkShape::<X, Y, Z>::is_interior(p),
    ensures
        ({
            let quad = greedy_quad::<X, Y, Z, V>(voxels, face, done, p);
            &&& p.along(face.u) + quad.width <= ChunkShape::<X, Y, Z>::dim(face.u) - 2 ==> !joins::<
                X,
                Y,
                Z,
                V,
            >(voxels, face, done, p, p.shifted(face.u, quad.width as int))
            &&& p.along(face.v) + quad.height <= ChunkShape::<X, Y, Z>::dim(face.v) - 2
                ==> run_width::<X, Y, Z, V>(
                voxels,
                face,
                done,
                p,
                p.shifted(face.v, quad.height as int),
                quad.width as nat,
            ) < quad.width
        }),
{
    let limit_u = (ChunkShape::<X, Y, Z>::dim(face.u) - 1 - p.along(face.u)) as nat;
    let limit_v = (ChunkShape::<X, Y, Z>::dim(face.v) - 2 - p.along(face.v)) as nat;
    let width = run_width::<X, Y, Z, V>(voxels, face, done, p, p, limit_u);
    let below = p.shifted(face.v, 1);
    let rows = run_height::<X, Y, Z, V>(voxels, face, done, p, below, width, limit_v);
    lemma_run_width_bound::<X, Y, Z, V>(voxels, face, done, p, p, limit_u);
    lemma_run_height_bound::<X, Y, Z, V>(voxels, face, done, p, below, width, limit_v);
    if width < limit_u {
        lemma_run_width_stops::<X, Y, Z, V>(voxels, face, done, p, p, limit_u);
    }
    if rows < limit_v {
        lemma_run_height_stops::<X, Y, Z, V>(voxels, face, done, p, below, width, limit_v);
        assert(below.shifted(face.v, rows as int) == p.shifted(face.v, 1 + rows as int));
    }
}

/// Whether the rectangle `quad` on `face` lies in the interior.
pub open spec fn quad_inside<const X: u32, const Y: u32, const Z: u32>(
    quad: UnorientedQuad,
    face: OrientedBlockFace,
) -> bool {
    &&& ChunkShape::<X, Y, Z>::is_interior(quad.minimum)
    &&& quad.minimum.along(face.u) + quad.width <= ChunkShape::<X, Y, Z>::dim(face.u) - 1
    &&& quad.minimum.along(face.v) + quad.height <= ChunkShape::<X, Y, Z>::dim(face.v) - 1
}

/// The rectangle that starts at an interior cell lies in the interior, and
/// each cell that it holds could join it: no earlier rectangle holds the
/// cell, its face is exposed, and its merge values equal those of the first
/// cell.
pub proof fn lemma_greedy_quad_cells<const X: u32, const Y: u32, const Z: u32, V: MergeVoxel>(
    voxels: Seq<V>,
    face: OrientedBlockFace,
    done: Seq<UnorientedQuad>,
    p: UVec3,
    c: UVec3,
)
    requires
        ChunkShape::<X, Y, Z>::valid(),
        face.wf(),
        ChunkShape::<X, Y, Z>::is_interior(p),
    ensures
        quad_inside::<X, Y, Z>(greedy_quad::<X, Y, Z, V>(voxels, face, done, p), face),
        greedy_quad::<X, Y, Z, V>(voxels, face, done, p).height >= 1,
        quad_covers(greedy_quad::<X, Y, Z, V>(voxels, face, done, p), face, c) ==> {
            &&& ChunkShape::<X, Y, Z>::is_interior(c)
            &&& joins::<X, Y, Z, V>(voxels, face, done, p, c)
        },
        joins::<X, Y, Z, V>(voxels, face, done, p, p) ==> quad_covers(
            greedy_quad::<X, Y, Z, V>(voxels, face, done, p),
            face,
            p,
        ),
{
    let quad = greedy_quad::<X, Y, Z, V>(voxels, face, done, p);
    let limit_u = (ChunkShape::<X, Y, Z>::dim(face.u) - 1 - p.along(face.u)) as nat;
    let limit_v = (ChunkShape::<X, Y, Z>::dim(face.v) - 2 - p.along(face.v)) as nat;
    let width = run_width::<X, Y, Z, V>(voxels, face, done, p, p, limit_u);
    let below = p.shifted(face.v, 1);
    let rows = run_height::<X, Y, Z, V>(voxels, face, done, p, below, width, limit_v);
    lemma_run_width_bound::<X, Y, Z, V>(voxels, face, done, p, p, limit_u);
    lemma_run_height_bound::<X, Y, Z, V>(voxels, face, done, p, below, width, limit_v);
    if quad_covers(quad, face, c) {
        let a = c.along(face.u) - p.along(face.u);
        let b = c.along(face.v) - p.along(face.v);
        if b == 0 {
            lemma_run_width_cells::<X, Y, Z, V>(voxels, face, done, p, p, limit_u, a);
            assert(p.shifted(face.u, a) == c);
        } else {
            lemma_run_height_rows::<X, Y, Z, V>(
                voxels,
                face,
                done,
                p,
                below,
                width,
                limit_v,
                b - 1,
            );
            let row = below.shifted(face.v, b - 1);
            assert(row == p.shifted(face.v, b));
            lemma_run_width_cells::<X, Y, Z, V>(voxels, face, done, p, row, width, a);
            assert(row.shifted(face.u, a) == c);
        }
    }
}

/// Whether the merge value of the cell `c` equals that of the cell `origin`,
/// and the merge value of the cell that `c` looks at equals that of the cell
/// that `origin` looks at.
pub open spec fn merges_with<const X: u32, const Y: u32, const Z: u32, V: MergeVoxel>(
    voxels: Seq<V>,
    face: OrientedBlockFace,
    origin: UVec3,
    c: UVec3,
) -> bool {
    &&& voxels[ChunkShape::<X, Y, Z>::linearize_spec(c)].merge_value_of().eq_spec(
        &voxels[ChunkShape::<X, Y, Z>::linearize_spec(origin)].merge_value_of(),
    )
    &&& voxels[ChunkShape::<X, Y, Z>::linearize_spec(
        facing(face, c),
    )].merge_value_facing_neighbour_of().eq_spec(
        &voxels[ChunkShape::<X, Y, Z>::linearize_spec(
            facing(face, origin),
        )].merge_value_facing_neighbour_of(),
    )
}

/// Whether each of the rectangles `quads` lies in the interior and holds
/// cells with exposed faces only, whose merge values equal those of its
/// first cell, and no two of them hold the same cell.
pub open spec fn sound<const X: u32, const Y: u32, const Z: u32, V: MergeVoxel>(
    voxels: Seq<V>,
    face: OrientedBlockFace,
    quads: Seq<UnorientedQuad>,
) -> bool {
    &&& forall|i: int, c: UVec3|
        0 <= i < quads.len() && #[trigger] quad_covers(quads[i], face, c) ==> {
            &&& ChunkShape::<X, Y, Z>::is_interior(c)
            &&& exposed::<X, Y, Z, V>(voxels, face, c)
            &&& merges_with::<X, Y, Z, V>(voxels, face, quads[i].minimum, c)
        }
    &&& forall|i: int, j: int, c: UVec3|
        0 <= i < j < quads.len() ==> !(#[trigger] quad_covers(quads[i], face, c)
            && #[trigger] quad_covers(quads[j], face, c))
    &&& forall|i: int| 0 <= i < quads.len() ==> quad_inside::<X, Y, Z>(#[trigger] quads[i], face)
}

/// Whether a rectangle holds each cell with an exposed face that comes
/// before the cell with number `k` of the plane `n`: the cells of the planes
/// before `n`, and the first `k` cells of the plane `n`.
pub open spec fn reached<const X: u32, const Y: u32, const Z: u32, V: MergeVoxel>(
    voxels: Seq<V>,
    face: OrientedBlockFace,
    quads: Seq<UnorientedQuad>,
    n: int,
    k: int,
) -> bool {
    forall|c: UVec3|
        ChunkShape::<X, Y, Z>::is_interior(c) && #[trigger] exposed::<X, Y, Z, V>(voxels, face, c)
            && (c.along(face.n) < n || (c.along(face.n) == n && ChunkShape::<
            X,
            Y,
            Z,
        >::slice_index(face, c) < k)) ==> covered(quads, face, c)
}

/// One more cell of a plane keeps the rectangles sound, and where each merge
/// value equals itself, a rectangle holds the cell if its face is exposed.
proof fn lemma_plane_step<const X: u32, const Y: u32, const Z: u32, V: MergeVoxel>(
    voxels: Seq<V>,
    face: OrientedBlockFace,
    n: int,
    done: Seq<UnorientedQuad>,
    k: int,
)
    requires
        ChunkShape::<X, Y, Z>::valid(),
        face.wf(),
        1 <= n <= ChunkShape::<X, Y, Z>::dim(face.n) - 2,
        0 <= k < ChunkShape::<X, Y, Z>::slice_len(face),
        sound::<X, Y, Z, V>(voxels, face, plane_quads_upto::<X, Y, Z, V>(voxels, face, n, done, k)),
        reflexive::<V>() ==> reached::<X, Y, Z, V>(
            voxels,
            face,
            plane_quads_upto::<X, Y, Z, V>(voxels, face, n, done, k),
            n,
            k,
        ),
    ensures
        sound::<X, Y, Z, V>(
            voxels,
            face,
            plane_quads_upto::<X, Y, Z, V>(voxels, face, n, done, k + 1),
        ),
        reflexive::<V>() ==> reached::<X, Y, Z, V>(
            voxels,
            face,
            plane_quads_upto::<X, Y, Z, V>(voxels, face, n, done, k + 1),
            n,
            k + 1,
        ),
{
    let before = plane_quads_upto::<X, Y, Z, V>(voxels, face, n, done, k);
    let after = plane_quads_upto::<X, Y, Z, V>(voxels, face, n, done, k + 1);
    let p = ChunkShape::<X, Y, Z>::slice_cell(face, n, k);
    ChunkShape::<X, Y, Z>::lemma_slice_cell_interior(face, n, k);
    ChunkShape::<X, Y, Z>::lemma_slice_cell_index(face, n, k);
    let grows = !covered(before, face, p) && exposed::<X, Y, Z, V>(voxels, face, p);
    let quad = greedy_quad::<X, Y, Z, V>(voxels, face, before, p);
    if grows {
        assert(after == before.push(quad));
        assert forall|i: int, c: UVec3|
            0 <= i < after.len() && #[trigger] quad_covers(after[i], face, c) implies {
            &&& ChunkShape::<X, Y, Z>::is_interior(c)
            &&& exposed::<X, Y, Z, V>(voxels, face, c)
            &&& merges_with::<X, Y, Z, V>(voxels, face, after[i].minimum, c)
        } by {
            if i < before.len() {
                assert(quad_covers(before[i], face, c));
            } else {
                lemma_greedy_quad_cells::<X, Y, Z, V>(voxels, face, before, p, c);
            }
        }
        assert forall|i: int, j: int, c: UVec3| 0 <= i < j < after.len() implies !(
        #[trigger] quad_covers(after[i], face, c) && #[trigger] quad_covers(after[j], face, c)) by {
            if j < before.len() {
                assert(!(quad_covers(before[i], face, c) && quad_covers(before[j], face, c)));
            } else if quad_covers(after[i], face, c) && quad_covers(after[j], face, c) {
                lemma_greedy_quad_cells::<X, Y, Z, V>(voxels, face, before, p, c);
                assert(quad_covers(before[i], face, c));
                assert(covered(before, face, c));
            }
        }
        assert forall|i: int| 0 <= i < after.len() implies quad_inside::<X, Y, Z>(
            #[trigger] after[i],
            face,
        ) by {
            if i < before.len() {
                assert(quad_inside::<X, Y, Z>(before[i], face));
            } else {
                lemma_greedy_quad_cells::<X, Y, Z, V>(voxels, face, before, p, p);
            }
        }
    } else {
        assert(after == before);
    }
    if reflexive::<V>() {
        assert forall|c: UVec3|
            ChunkShape::<X, Y, Z>::is_interior(c) && #[trigger] exposed::<X, Y, Z, V>(
                voxels,
                face,
                c,
            ) && (c.along(face.n) < n || (c.along(face.n) == n && ChunkShape::<
                X,
                Y,
                Z,
            >::slice_index(face, c) < k + 1)) implies covered(after, face, c) by {
            if c.along(face.n) == n && ChunkShape::<X, Y, Z>::slice_index(face, c) == k {
                ChunkShape::<X, Y, Z>::lemma_slice_index(face, c);
                assert(c == p);
                if grows {
                    let mine = voxels[ChunkShape::<X, Y, Z>::linearize_spec(p)].merge_value_of();
                    let seen = voxels[ChunkShape::<X, Y, Z>::linearize_spec(
                        facing(face, p),
                    )].merge_value_facing_neighbour_of();
                    assert(mine.eq_spec(&mine));
                    assert(seen.eq_spec(&seen));
                    lemma_greedy_quad_cells::<X, Y, Z, V>(voxels, face, before, p, p);
                    lemma_covered_push(before, quad, face, p);
                }
            } else {
                assert(covered(before, face, c));
                if grows {
                    lemma_covered_push(before, quad, face, c);
                }
            }
        }
    }
}

/// The rectangles stay sound over the cells of a plane, and where each merge
/// value equals itself, they hold each cell with an exposed face that the
/// mesher has come by.
proof fn lemma_plane<const X: u32, const Y: u32, const Z: u32, V: MergeVoxel>(
    voxels: Seq<V>,
    face: OrientedBlockFace,
    n: int,
    done: Seq<UnorientedQuad>,
    k: int,
)
    requires
        ChunkShape::<X, Y, Z>::valid(),
        face.wf(),
        1 <= n <= ChunkShape::<X, Y, Z>::dim(face.n) - 2,
        0 <= k <= ChunkShape::<X, Y, Z>::slice_len(face),
        sound::<X, Y, Z, V>(voxels, face, done),
        reflexive::<V>() ==> reached::<X, Y, Z, V>(voxels, face, done, n, 0),
    ensures
        sound::<X, Y, Z, V>(voxels, face, plane_quads_upto::<X, Y, Z, V>(voxels, face, n, done, k)),
        reflexive::<V>() ==> reached::<X, Y, Z, V>(
            voxels,
            face,
            plane_quads_upto::<X, Y, Z, V>(voxels, face, n, done, k),
            n,
            k,
        ),
    decreases k,
{
    if k > 0 {
        lemma_plane::<X, Y, Z, V>(voxels, face, n, done, k - 1);
        lemma_plane_step::<X, Y, Z, V>(voxels, face, n, done, k - 1);
    }
}

/// The rectangles of the first planes of a face are sound, and where each
/// merge value equals itself, they hold each cell of those planes with an
/// exposed face.
proof fn lemma_planes<const X: u32, const Y: u32, const Z: u32, V: MergeVoxel>(
    voxels: Seq<V>,
    face: OrientedBlockFace,
    planes: int,
)
    requires
        ChunkShape::<X, Y, Z>::valid(),
        face.wf(),
        0 <= planes <= ChunkShape::<X, Y, Z>::dim(face.n) - 2,
    ensures
        sound::<X, Y, Z, V>(voxels, face, face_quads_upto::<X, Y, Z, V>(voxels, face, planes)),
        reflexive::<V>() ==> reached::<X, Y, Z, V>(
            voxels,
            face,
            face_quads_upto::<X, Y, Z, V>(voxels, face, planes),
            planes + 1,
            0,
        ),
    decreases planes,
{
    if planes > 0 {
        lemma_planes::<X, Y, Z, V>(voxels, face, planes - 1);
        let done = face_quads_upto::<X, Y, Z, V>(voxels, face, planes - 1);
        let len = ChunkShape::<X, Y, Z>::slice_len(face);
        ChunkShape::<X, Y, Z>::lemma_inner_len_positive(face);
        lemma_plane::<X, Y, Z, V>(voxels, face, planes, done, len);
        let quads = face_quads_upto::<X, Y, Z, V>(voxels, face, planes);
        if reflexive::<V>() {
            assert forall|c: UVec3|
                ChunkShape::<X, Y, Z>::is_interior(c) && #[trigger] exposed::<X, Y, Z, V>(
                    voxels,
                    face,
                    c,
                ) && (c.along(face.n) < planes + 1 || (c.along(face.n) == planes + 1
                    && ChunkShape::<X, Y, Z>::slice_index(face, c) < 0)) implies covered(
                quads,
                face,
                c,
            ) by {
                ChunkShape::<X, Y, Z>::lemma_slice_index(face, c);
            }
        }
    } else {
        if reflexive::<V>() {
            assert forall|c: UVec3|
                ChunkShape::<X, Y, Z>::is_interior(c) && #[trigger] exposed::<X, Y, Z, V>(
                    voxels,
                    face,
                    c,
                ) && (c.along(face.n) < 1 || (c.along(face.n) == 1 && ChunkShape::<
                    X,
                    Y,
                    Z,
                >::slice_index(face, c) < 0)) implies covered(
                face_quads_upto::<X, Y, Z, V>(voxels, face, planes),
                face,
                c,
            ) by {
                ChunkShape::<X, Y, Z>::lemma_slice_index(face, c);
            }
        }
    }
}

/// The rectangles of a face hold the cells of the interior whose faces are
/// exposed, and no others: together they cover what is exposed. That a
/// rectangle holds each such cell rests on each merge value being equal to
/// itself.
pub proof fn lemma_rectangles_cover_exposed_faces<
    const X: u32,
    const Y: u32,
    const Z: u32,
    V: MergeVoxel,
>(voxels: Seq<V>, face: OrientedBlockFace, c: UVec3)
    requires
        ChunkShape::<X, Y, Z>::valid(),
        face.wf(),
        reflexive::<V>(),
    ensures
        covered(greedy_face_quads::<X, Y, Z, V>(voxels, face), face, c) <==> ChunkShape::<
            X,
            Y,
            Z,
        >::is_interior(c) && exposed::<X, Y, Z, V>(voxels, face, c),
{
    let quads = greedy_face_quads::<X, Y, Z, V>(voxels, face);
    lemma_planes::<X, Y, Z, V>(voxels, face, ChunkShape::<X, Y, Z>::dim(face.n) - 2);
    if covered(quads, face, c) {
        let i = choose|i: int| 0 <= i < quads.len() && quad_covers(#[trigger] quads[i], face, c);
        assert(quad_covers(quads[i], face, c));
    }
}

/// No two rectangles of a face hold the same cell.
pub proof fn lemma_rectangles_are_disjoint<const X: u32, const Y: u32, const Z: u32, V: MergeVoxel>(
    voxels: Seq<V>,
    face: OrientedBlockFace,
    i: int,
    j: int,
    c: UVec3,
)
    requires
        ChunkShape::<X, Y, Z>::valid(),
        face.wf(),
        0 <= i < greedy_face_quads::<X, Y, Z, V>(voxels, face).len(),
        0 <= j < greedy_face_quads::<X, Y, Z, V>(voxels, face).len(),
        i != j,
    ensures
        !(quad_covers(greedy_face_quads::<X, Y, Z, V>(voxels, face)[i], face, c) && quad_covers(
            greedy_face_quads::<X, Y, Z, V>(voxels, face)[j],
            face,
            c,
        )),
{
    let quads = greedy_face_quads::<X, Y, Z, V>(voxels, face);
    lemma_planes::<X, Y, Z, V>(voxels, face, ChunkShape::<X, Y, Z>::dim(face.n) - 2);
    if i < j {
        assert(!(quad_covers(quads[i], face, c) && quad_covers(quads[j], face, c)));
    } else {
        assert(!(quad_covers(quads[j], face, c) && quad_covers(quads[i], face, c)));
    }
}

/// Each cell of a rectangle has a merge value equal to that of the first
/// cell of the rectangle, and looks at a cell whose merge value for its
/// neighbours equals that of the cell that the first cell looks at.
pub proof fn lemma_rectangles_are_uniform<const X: u32, const Y: u32, const Z: u32, V: MergeVoxel>(
    voxels: Seq<V>,
    face: OrientedBlockFace,
    i: int,
    c: UVec3,
)
    requires
        ChunkShape::<X, Y, Z>::valid(),
        face.wf(),
        0 <= i < greedy_face_quads::<X, Y, Z, V>(voxels, face).len(),
        quad_covers(greedy_face_quads::<X, Y, Z, V>(voxels, face)[i], face, c),
    ensures
        merges_with::<X, Y, Z, V>(
            voxels,
            face,
            greedy_face_quads::<X, Y, Z, V>(voxels, face)[i].minimum,
            c,
        ),
{
    lemma_planes::<X, Y, Z, V>(voxels, face, ChunkShape::<X, Y, Z>::dim(face.n) - 2);
}

/// A plane of empty voxels adds no rectangle.
proof fn lemma_empty_plane<const X: u32, const Y: u32, const Z: u32, V: MergeVoxel>(
    voxels: Seq<V>,
    face: OrientedBlockFace,
    n: int,
    done: Seq<UnorientedQuad>,
    k: int,
)
    requires
        ChunkShape::<X, Y, Z>::valid(),
        face.wf(),
        voxels.len() == ChunkShape::<X, Y, Z>::volume(),
        all_empty(voxels),
        1 <= n <= ChunkShape::<X, Y, Z>::dim(face.n) - 2,
        0 <= k <= ChunkShape::<X, Y, Z>::slice_len(face),
    ensures
        plane_quads_upto::<X, Y, Z, V>(voxels, face, n, done, k) == done,
    decreases k,
{
    if k > 0 {
        lemma_empty_plane::<X, Y, Z, V>(voxels, face, n, done, k - 1);
        ChunkShape::<X, Y, Z>::lemma_slice_cell_interior(face, n, k - 1);
        lemma_empty_chunk_exposes_nothing::<X, Y, Z, V>(
            voxels,
            face,
            ChunkShape::<X, Y, Z>::slice_cell(face, n, k - 1),
        );
    }
}

/// Planes of empty voxels have no rectangles.
proof fn lemma_empty_planes<const X: u32, const Y: u32, const Z: u32, V: MergeVoxel>(
    voxels: Seq<V>,
    face: OrientedBlockFace,
    planes: int,
)
    requires
        ChunkShape::<X, Y, Z>::valid(),
        face.wf(),
        voxels.len() == ChunkShape::<X, Y, Z>::volume(),
        all_empty(voxels),
        0 <= planes <= ChunkShape::<X, Y, Z>::dim(face.n) - 2,
    ensures
        face_quads_upto::<X, Y, Z, V>(voxels, face, planes) == Seq::<UnorientedQuad>::empty(),
    decreases planes,
{
    if planes > 0 {
        lemma_empty_planes::<X, Y, Z, V>(voxels, face, planes - 1);
        ChunkShape::<X, Y, Z>::lemma_inner_len_positive(face);
        lemma_empty_plane::<X, Y, Z, V>(
            voxels,
            face,
            planes,
            face_quads_upto::<X, Y, Z, V>(voxels, face, planes - 1),
            ChunkShape::<X, Y, Z>::slice_len(face),
        );
    }
}

/// A chunk of empty voxels has no rectangles.
pub proof fn lemma_empty_chunk_has_no_rectangles<
    const X: u32,
    const Y: u32,
    const Z: u32,
    V: MergeVoxel,
>(voxels: Seq<V>, face: OrientedBlockFace)
    requires
        ChunkShape::<X, Y, Z>::valid(),
        face.wf(),
        voxels.len() == ChunkShape::<X, Y, Z>::volume(),
        all_empty(voxels),
    ensures
        greedy_face_quads::<X, Y, Z, V>(voxels, face) == Seq::<UnorientedQuad>::empty(),
{
    lemma_empty_planes::<X, Y, Z, V>(voxels, face, ChunkShape::<X, Y, Z>::dim(face.n) - 2);
}

/// Whether the mesher sees the same in two chunks: the voxels have the same
/// visibility, cell by cell, those of the interior have the same merge
/// value, and all have the same merge value for their neighbours.
pub open spec fn same_seen<const X: u32, const Y: u32, const Z: u32, V: MergeVoxel>(
    a: Seq<V>,
    b: Seq<V>,
) -> bool {
    &&& same_visibility(a, b)
    &&& forall|p: UVec3|
        ChunkShape::<X, Y, Z>::is_interior(p) ==> a[#[trigger] ChunkShape::<
            X,
            Y,
            Z,
        >::linearize_spec(p)].merge_value_of() == b[ChunkShape::<X, Y, Z>::linearize_spec(
            p,
        )].merge_value_of()
    &&& forall|p: UVec3|
        ChunkShape::<X, Y, Z>::contains(p) ==> a[#[trigger] ChunkShape::<
            X,
            Y,
            Z,
        >::linearize_spec(p)].merge_value_facing_neighbour_of() == b[ChunkShape::<
            X,
            Y,
            Z,
        >::linearize_spec(p)].merge_value_facing_neighbour_of()
}

/// Whether a cell can join a rectangle depends on what the mesher sees
/// alone.
proof fn lemma_joins_same<const X: u32, const Y: u32, const Z: u32, V: MergeVoxel>(
    a: Seq<V>,
    b: Seq<V>,
    face: OrientedBlockFace,
    done: Seq<UnorientedQuad>,
    origin: UVec3,
    p: UVec3,
)
    requires
        ChunkShape::<X, Y, Z>::valid(),
        face.wf(),
        a.len() == ChunkShape::<X, Y, Z>::volume(),
        same_seen::<X, Y, Z, V>(a, b),
        ChunkShape::<X, Y, Z>::is_interior(origin),
        ChunkShape::<X, Y, Z>::is_interior(p),
    ensures
        joins::<X, Y, Z, V>(a, face, done, origin, p) == joins::<X, Y, Z, V>(
            b,
            face,
            done,
            origin,
            p,
        ),
{
    lemma_exposed_by_visibility::<X, Y, Z, V>(a, b, face, p);
    lemma_facing_index::<X, Y, Z>(face, p);
    lemma_facing_index::<X, Y, Z>(face, origin);
    let i = ChunkShape::<X, Y, Z>::linearize_spec(p);
    let o = ChunkShape::<X, Y, Z>::linearize_spec(origin);
    let fi = ChunkShape::<X, Y, Z>::linearize_spec(facing(face, p));
    let fo = ChunkShape::<X, Y, Z>::linearize_spec(facing(face, origin));
    assert(a[i].merge_value_of() == b[i].merge_value_of());
    assert(a[o].merge_value_of() == b[o].merge_value_of());
    assert(a[fi].merge_value_facing_neighbour_of() == b[fi].merge_value_facing_neighbour_of());
    assert(a[fo].merge_value_facing_neighbour_of() == b[fo].merge_value_facing_neighbour_of());
}

/// The width of a run depends on what the mesher sees alone.
proof fn lemma_run_width_same<const X: u32, const Y: u32, const Z: u32, V: MergeVoxel>(
    a: Seq<V>,
    b: Seq<V>,
    face: OrientedBlockFace,
    done: Seq<UnorientedQuad>,
    origin: UVec3,
    start: UVec3,
    limit: nat,
)
    requires
        ChunkShape::<X, Y, Z>::valid(),
        face.wf(),
        a.len() == ChunkShape::<X, Y, Z>::volume(),
        same_seen::<X, Y, Z, V>(a, b),
        ChunkShape::<X, Y, Z>::is_interior(origin),
        limit > 0 ==> ChunkShape::<X, Y, Z>::is_interior(start),
        start.along(face.u) + limit <= ChunkShape::<X, Y, Z>::dim(face.u) - 1,
    ensures
        run_width::<X, Y, Z, V>(a, face, done, origin, start, limit) == run_width::<X, Y, Z, V>(
            b,
            face,
            done,
            origin,
            start,
            limit,
        ),
    decreases limit,
{
    if limit > 0 {
        lemma_joins_same::<X, Y, Z, V>(a, b, face, done, origin, start);
        lemma_run_width_same::<X, Y, Z, V>(
            a,
            b,
            face,
            done,
            origin,
            start.shifted(face.u, 1),
            (limit - 1) as nat,
        );
    }
}

/// The height of a run of rows depends on what the mesher sees alone.
proof fn lemma_run_height_same<const X: u32, const Y: u32, const Z: u32, V: MergeVoxel>(
    a: Seq<V>,
    b: Seq<V>,
    face: OrientedBlockFace,
    done: Seq<UnorientedQuad>,
    origin: UVec3,
    start: UVec3,
    width: nat,
    limit: nat,
)
    requires
        ChunkShape::<X, Y, Z>::valid(),
        face.wf(),
        a.len() == ChunkShape::<X, Y, Z>::volume(),
        same_seen::<X, Y, Z, V>(a, b),
        ChunkShape::<X, Y, Z>::is_interior(origin),
        limit > 0 ==> ChunkShape::<X, Y, Z>::is_interior(start),
        start.along(face.u) + width <= ChunkShape::<X, Y, Z>::dim(face.u) - 1,
        start.along(face.v) + limit <= ChunkShape::<X, Y, Z>::dim(face.v) - 1,
    ensures
        run_height::<X, Y, Z, V>(a, face, done, origin, start, width, limit) == run_height::<
            X,
            Y,
            Z,
            V,
        >(b, face, done, origin, start, width, limit),
    decreases limit,
{
    if limit > 0 {
        lemma_run_width_same::<X, Y, Z, V>(a, b, face, done, origin, start, width);
        lemma_run_height_same::<X, Y, Z, V>(
            a,
            b,
            face,
            done,
            origin,
            start.shifted(face.v, 1),
            width,
            (limit - 1) as nat,
        );
    }
}

/// The rectangle that starts at a cell depends on what the mesher sees
/// alone.
proof fn lemma_greedy_quad_same<const X: u32, const Y: u32, const Z: u32, V: MergeVoxel>(
    a: Seq<V>,
    b: Seq<V>,
    face: OrientedBlockFace,
    done: Seq<UnorientedQuad>,
    p: UVec3,
)
    requires
        ChunkShape::<X, Y, Z>::valid(),
        face.wf(),
        a.len() == ChunkShape::<X, Y, Z>::volume(),
        same_seen::<X, Y, Z, V>(a, b),
        ChunkShape::<X, Y, Z>::is_interior(p),
    ensures
        greedy_quad::<X, Y, Z, V>(a, face, done, p) == greedy_quad::<X, Y, Z, V>(b, face, done, p),
{
    let limit_u = (ChunkShape::<X, Y, Z>::dim(face.u) - 1 - p.along(face.u)) as nat;
    let limit_v = (ChunkShape::<X, Y, Z>::dim(face.v) - 2 - p.along(face.v)) as nat;
    lemma_run_width_same::<X, Y, Z, V>(a, b, face, done, p, p, limit_u);
    let width = run_width::<X, Y, Z, V>(a, face, done, p, p, limit_u);
    lemma_run_width_bound::<X, Y, Z, V>(a, face, done, p, p, limit_u);
    lemma_run_height_same::<X, Y, Z, V>(
        a,
        b,
        face,
        done,
        p,
        p.shifted(face.v, 1),
        width,
        limit_v,
    );
}

/// The rectangles of a plane depend on what the mesher sees alone.
proof fn lemma_plane_same<const X: u32, const Y: u32, const Z: u32, V: MergeVoxel>(
    a: Seq<V>,
    b: Seq<V>,
    face: OrientedBlockFace,
    n: int,
    done: Seq<UnorientedQuad>,
    k: int,
)
    requires
        ChunkShape::<X, Y, Z>::valid(),
        face.wf(),
        a.len() == ChunkShape::<X, Y, Z>::volume(),
        same_seen::<X, Y, Z, V>(a, b),
        1 <= n <= ChunkShape::<X, Y, Z>::dim(face.n) - 2,
        0 <= k <= ChunkShape::<X, Y, Z>::slice_len(face),
    ensures
        plane_quads_upto::<X, Y, Z, V>(a, face, n, done, k) == plane_quads_upto::<X, Y, Z, V>(
            b,
            face,
            n,
            done,
            k,
        ),
    decreases k,
{
    if k > 0 {
        lemma_plane_same::<X, Y, Z, V>(a, b, face, n, done, k - 1);
        let before = plane_quads_upto::<X, Y, Z, V>(a, face, n, done, k - 1);
        let p = ChunkShape::<X, Y, Z>::slice_cell(face, n, k - 1);
        ChunkShape::<X, Y, Z>::lemma_slice_cell_interior(face, n, k - 1);
        lemma_exposed_by_visibility::<X, Y, Z, V>(a, b, face, p);
        lemma_greedy_quad_same::<X, Y, Z, V>(a, b, face, before, p);
    }
}

/// The rectangles of the first planes depend on what the mesher sees
/// alone.
proof fn lemma_planes_same<const X: u32, const Y: u32, const Z: u32, V: MergeVoxel>(
    a: Seq<V>,
    b: Seq<V>,
    face: OrientedBlockFace,
    planes: int,
)
    requires
        ChunkShape::<X, Y, Z>::valid(),
        face.wf(),
        a.len() == ChunkShape::<X, Y, Z>::volume(),
        same_seen::<X, Y, Z, V>(a, b),
        0 <= planes <= ChunkShape::<X, Y, Z>::dim(face.n) - 2,
    ensures
        face_quads_upto::<X, Y, Z, V>(a, face, planes) == face_quads_upto::<X, Y, Z, V>(
            b,
            face,
            planes,
        ),
    decreases planes,
{
    if planes > 0 {
        lemma_planes_same::<X, Y, Z, V>(a, b, face, planes - 1);
        ChunkShape::<X, Y, Z>::lemma_inner_len_positive(face);
        lemma_plane_same::<X, Y, Z, V>(
            a,
            b,
            face,
            planes,
            face_quads_upto::<X, Y, Z, V>(a, face, planes - 1),
            ChunkShape::<X, Y, Z>::slice_len(face),
        );
    }
}

/// The rectangles depend on what the mesher sees alone: two chunks whose
/// voxels have the same visibility and the same merge value for their
/// neighbours, cell by cell, and the same merge value in the interior, get
/// the same rectangles, whatever else their voxels hold. The merge value of
/// a voxel of the padding has no part in them.
pub proof fn lemma_rectangles_by_what_is_seen<
    const X: u32,
    const Y: u32,
    const Z: u32,
    V: MergeVoxel,
>(a: Seq<V>, b: Seq<V>, face: OrientedBlockFace)
    requires
        ChunkShape::<X, Y, Z>::valid(),
        face.wf(),
        a.len() == ChunkShape::<X, Y, Z>::volume(),
        same_seen::<X, Y, Z, V>(a, b),
    ensures
        greedy_face_quads::<X, Y, Z, V>(a, face) == greedy_face_quads::<X, Y, Z, V>(b, face),
{
    lemma_planes_same::<X, Y, Z, V>(a, b, face, ChunkShape::<X, Y, Z>::dim(face.n) - 2);
}

/// Whether the buckets of `buffer` hold the rectangles of the chunk
/// `voxels`, and no others: what the mesher leaves in a buffer that was
/// empty.
pub open spec fn holds_rectangles<
    const X: u32,
    const Y: u32,
    const Z: u32,
    const M: usize,
    V: MergeVoxel,
>(buffer: PopBuffer<M, UnorientedQuad>, voxels: Seq<V>) -> bool {
    forall|lod: int, f: int|
        0 <= lod < M && 0 <= f < 6 ==> #[trigger] buffer.bucket(lod, f) == quads_of_level(
            greedy_face_quads::<X, Y, Z, V>(voxels, OrientedBlockFace::face(f)),
            OrientedBlockFace::face(f),
            lod,
            M as nat,
        )
}

/// The level of a rectangle is one of the levels.
pub proof fn lemma_quad_lod_bound(quad: UnorientedQuad, face: OrientedBlockFace, levels: nat)
    ensures
        0 <= quad_lod(quad, face, levels),
        levels > 0 ==> quad_lod(quad, face, levels) < levels,
{
    let u_min = quad.minimum.along(face.u) as u32;
    let u_max = (u_min + quad.width) as u32;
    let v_min = quad.minimum.along(face.v) as u32;
    let v_max = (v_min + quad.height) as u32;
    vstd::std_specs::bits::axiom_u32_leading_zeros(u_min ^ u_max);
    vstd::std_specs::bits::axiom_u32_leading_zeros(v_min ^ v_max);
}

/// Among the rectangles that are drawn at level `lod` on a face, as many
/// satisfy `pred` as there are rectangles of the face that satisfy it and
/// have the level `lod` or a higher one.
pub proof fn lemma_drawn_rectangles<
    const X: u32,
    const Y: u32,
    const Z: u32,
    const M: usize,
    V: MergeVoxel,
>(
    buffer: PopBuffer<M, UnorientedQuad>,
    voxels: Seq<V>,
    f: int,
    lod: int,
    pred: spec_fn(UnorientedQuad) -> bool,
)
    requires
        holds_rectangles::<X, Y, Z, M, V>(buffer, voxels),
        1 <= M,
        0 <= f < 6,
        0 <= lod <= M,
    ensures
        count_where(buffer.drawn_from(lod, f), pred) == count_where(
            greedy_face_quads::<X, Y, Z, V>(voxels, OrientedBlockFace::face(f)),
            |quad: UnorientedQuad|
                pred(quad) && quad_lod(quad, OrientedBlockFace::face(f), M as nat) >= lod,
        ),
    decreases M - lod,
{
    let face = OrientedBlockFace::face(f);
    let quads = greedy_face_quads::<X, Y, Z, V>(voxels, face);
    let from = |quad: UnorientedQuad| pred(quad) && quad_lod(quad, face, M as nat) >= lod;
    assert forall|i: int| 0 <= i < quads.len() implies 0 <= quad_lod(
        #[trigger] quads[i],
        face,
        M as nat,
    ) < M by {
        lemma_quad_lod_bound(quads[i], face, M as nat);
    }
    if lod < M {
        let above = |quad: UnorientedQuad|
            pred(quad) && quad_lod(quad, face, M as nat) >= lod + 1;
        let keep = |quad: UnorientedQuad| quad_lod(quad, face, M as nat) == lod;
        let here = |quad: UnorientedQuad| pred(quad) && quad_lod(quad, face, M as nat) == lod;
        lemma_drawn_rectangles::<X, Y, Z, M, V>(buffer, voxels, f, lod + 1, pred);
        lemma_count_where_add(buffer.drawn_from(lod + 1, f), buffer.bucket(lod, f), pred);
        assert(buffer.bucket(lod, f) == quads.filter(keep));
        lemma_count_where_filter(quads, keep, pred, here);
        lemma_count_where_split(quads, from, here, above);
    } else {
        lemma_count_where_all(quads, from);
    }
}

/// Where no two rectangles hold the same cell, a cell that a rectangle
/// holds is held by one.
proof fn lemma_count_covering<const X: u32, const Y: u32, const Z: u32, V: MergeVoxel>(
    voxels: Seq<V>,
    face: OrientedBlockFace,
    quads: Seq<UnorientedQuad>,
    c: UVec3,
)
    requires
        sound::<X, Y, Z, V>(voxels, face, quads),
    ensures
        count_where(quads, |quad: UnorientedQuad| quad_covers(quad, face, c)) == if covered(
            quads,
            face,
            c,
        ) {
            1nat
        } else {
            0nat
        },
    decreases quads.len(),
{
    let holds = |quad: UnorientedQuad| quad_covers(quad, face, c);
    if quads.len() > 0 {
        let rest = quads.drop_last();
        assert forall|i: int, d: UVec3|
            0 <= i < rest.len() && #[trigger] quad_covers(rest[i], face, d) implies {
            &&& ChunkShape::<X, Y, Z>::is_interior(d)
            &&& exposed::<X, Y, Z, V>(voxels, face, d)
            &&& merges_with::<X, Y, Z, V>(voxels, face, rest[i].minimum, d)
        } by {
            assert(quad_covers(quads[i], face, d));
        }
        assert forall|i: int, j: int, d: UVec3| 0 <= i < j < rest.len() implies !(
        #[trigger] quad_covers(rest[i], face, d) && #[trigger] quad_covers(rest[j], face, d)) by {
            assert(!(quad_covers(quads[i], face, d) && quad_covers(quads[j], face, d)));
        }
        assert forall|i: int| 0 <= i < rest.len() implies quad_inside::<X, Y, Z>(
            #[trigger] rest[i],
            face,
        ) by {
            assert(quad_inside::<X, Y, Z>(quads[i], face));
        }
        lemma_count_covering::<X, Y, Z, V>(voxels, face, rest, c);
        assert(quads =~= rest.push(quads.last()));
        lemma_covered_push(rest, quads.last(), face, c);
        if quad_covers(quads.last(), face, c) && covered(rest, face, c) {
            let i = choose|i: int| 0 <= i < rest.len() && quad_covers(#[trigger] rest[i], face, c);
            assert(!(quad_covers(quads[i], face, c) && quad_covers(
                quads[quads.len() - 1],
                face,
                c,
            )));
        }
    }
}

/// Drawn at level 0, the rectangles of a meshed chunk cover each exposed
/// face of each cell of the interior once, and nothing else: one of them
/// holds the cell `c` where `c` is a cell of the interior whose face is
/// exposed, and none holds it otherwise. This rests on each merge value
/// being equal to itself.
pub proof fn lemma_level_zero_rectangles_cover_exposed_faces_once<
    const X: u32,
    const Y: u32,
    const Z: u32,
    const M: usize,
    V: MergeVoxel,
>(buffer: PopBuffer<M, UnorientedQuad>, voxels: Seq<V>, f: int, c: UVec3)
    requires
        ChunkShape::<X, Y, Z>::valid(),
        holds_rectangles::<X, Y, Z, M, V>(buffer, voxels),
        1 <= M,
        0 <= f < 6,
        reflexive::<V>(),
    ensures
        count_where(
            inflated_from(buffer, 0, f),
            |quad: UnorientedQuad| quad_covers(quad, OrientedBlockFace::face(f), c),
        ) == if ChunkShape::<X, Y, Z>::is_interior(c) && exposed::<X, Y, Z, V>(
            voxels,
            OrientedBlockFace::face(f),
            c,
        ) {
            1nat
        } else {
            0nat
        },
{
    let face = OrientedBlockFace::face(f);
    OrientedBlockFace::lemma_face_wf(f);
    let quads = greedy_face_quads::<X, Y, Z, V>(voxels, face);
    let holds = |quad: UnorientedQuad| quad_covers(quad, face, c);
    let from = |quad: UnorientedQuad| holds(quad) && quad_lod(quad, face, M as nat) >= 0;
    vstd::arithmetic::power2::lemma2_to64();
    let drawn = buffer.drawn_from(0, f);
    assert forall|i: int| 0 <= i < drawn.len() implies into_lod_spec(#[trigger] drawn[i], face, 0)
        == drawn[i] by {
        let q = drawn[i];
        let u = q.minimum.along(face.u);
        let v = q.minimum.along(face.v);
        assert((q.minimum.x - 1) / 1 * 1 + 1 == q.minimum.x);
        assert((q.minimum.y - 1) / 1 * 1 + 1 == q.minimum.y);
        assert((q.minimum.z - 1) / 1 * 1 + 1 == q.minimum.z);
        assert((u - 1) / 1 * 1 + 1 == u);
        assert((v - 1) / 1 * 1 + 1 == v);
        assert((u + q.width - 1 + 1 - 1) / 1 * 1 + 1 == u + q.width);
        assert((v + q.height - 1 + 1 - 1) / 1 * 1 + 1 == v + q.height);
    }
    assert(inflated_from(buffer, 0, f) =~= drawn);
    lemma_drawn_rectangles::<X, Y, Z, M, V>(buffer, voxels, f, 0, holds);
    assert forall|i: int| 0 <= i < quads.len() implies (from(#[trigger] quads[i]) <==> holds(
        quads[i],
    ) || false) && !(holds(quads[i]) && false) by {
        lemma_quad_lod_bound(quads[i], face, M as nat);
    }
    lemma_count_where_split(quads, from, holds, |quad: UnorientedQuad| false);
    lemma_count_where_all(quads, |quad: UnorientedQuad| false);
    lemma_planes::<X, Y, Z, V>(voxels, face, ChunkShape::<X, Y, Z>::dim(face.n) - 2);
    lemma_count_covering::<X, Y, Z, V>(voxels, face, quads, c);
    lemma_rectangles_cover_exposed_faces::<X, Y, Z, V>(voxels, face, c);
}

/// Whether the voxels of the interior all have equal merge values, and
/// those of the padding all have equal merge values for their neighbours.
pub open spec fn uniform<const X: u32, const Y: u32, const Z: u32, V: MergeVoxel>(
    voxels: Seq<V>,
) -> bool {
    &&& forall|p: UVec3, q: UVec3|
        ChunkShape::<X, Y, Z>::is_interior(p) && ChunkShape::<X, Y, Z>::is_interior(q)
            ==> voxels[#[trigger] ChunkShape::<X, Y, Z>::linearize_spec(
            p,
        )].merge_value_of().eq_spec(
            &voxels[#[trigger] ChunkShape::<X, Y, Z>::linearize_spec(q)].merge_value_of(),
        )
    &&& forall|p: UVec3, q: UVec3|
        ChunkShape::<X, Y, Z>::contains(p) && !ChunkShape::<X, Y, Z>::is_interior(p)
            && ChunkShape::<X, Y, Z>::contains(q) && !ChunkShape::<X, Y, Z>::is_interior(q)
            ==> voxels[#[trigger] ChunkShape::<X, Y, Z>::linearize_spec(
            p,
        )].merge_value_facing_neighbour_of().eq_spec(
            &voxels[#[trigger] ChunkShape::<X, Y, Z>::linearize_spec(
                q,
            )].merge_value_facing_neighbour_of(),
        )
}

/// The plane of `face` whose cells look at the padding.
pub open spec fn outer_plane<const X: u32, const Y: u32, const Z: u32>(
    face: OrientedBlockFace,
) -> int {
    if face.is_front {
        ChunkShape::<X, Y, Z>::dim(face.n) - 2
    } else {
        1
    }
}

/// The rectangle of all interior cells of the outer plane of `face`.
pub open spec fn outer_quad<const X: u32, const Y: u32, const Z: u32>(
    face: OrientedBlockFace,
) -> UnorientedQuad {
    UnorientedQuad {
        minimum: face.cell(outer_plane::<X, Y, Z>(face), 1, 1),
        width: (ChunkShape::<X, Y, Z>::dim(face.u) - 2) as u32,
        height: (ChunkShape::<X, Y, Z>::dim(face.v) - 2) as u32,
    }
}

/// In the outer plane of a solid chunk whose voxels all merge, each cell
/// can join a rectangle that starts at a cell of that plane.
proof fn lemma_solid_joins<const X: u32, const Y: u32, const Z: u32, V: MergeVoxel>(
    voxels: Seq<V>,
    face: OrientedBlockFace,
    origin: UVec3,
    p: UVec3,
)
    requires
        ChunkShape::<X, Y, Z>::valid(),
        face.wf(),
        solid::<X, Y, Z, V>(voxels),
        uniform::<X, Y, Z, V>(voxels),
        ChunkShape::<X, Y, Z>::is_interior(origin),
        ChunkShape::<X, Y, Z>::is_interior(p),
        origin.along(face.n) == outer_plane::<X, Y, Z>(face),
        p.along(face.n) == outer_plane::<X, Y, Z>(face),
    ensures
        joins::<X, Y, Z, V>(voxels, face, Seq::empty(), origin, p),
{
    lemma_solid_exposed::<X, Y, Z, V>(voxels, face, p);
    lemma_solid_exposed::<X, Y, Z, V>(voxels, face, origin);
    lemma_facing_index::<X, Y, Z>(face, p);
    lemma_facing_index::<X, Y, Z>(face, origin);
    let i = ChunkShape::<X, Y, Z>::linearize_spec(p);
    let o = ChunkShape::<X, Y, Z>::linearize_spec(origin);
    let fi = ChunkShape::<X, Y, Z>::linearize_spec(facing(face, p));
    let fo = ChunkShape::<X, Y, Z>::linearize_spec(facing(face, origin));
    assert(voxels[i].merge_value_of().eq_spec(&voxels[o].merge_value_of()));
    assert(voxels[fi].merge_value_facing_neighbour_of().eq_spec(
        &voxels[fo].merge_value_facing_neighbour_of(),
    ));
}

/// In the outer plane of a solid chunk whose voxels all merge, a run is as
/// wide as its limit.
proof fn lemma_solid_run_width<const X: u32, const Y: u32, const Z: u32, V: MergeVoxel>(
    voxels: Seq<V>,
    face: OrientedBlockFace,
    origin: UVec3,
    start: UVec3,
    limit: nat,
)
    requires
        ChunkShape::<X, Y, Z>::valid(),
        face.wf(),
        solid::<X, Y, Z, V>(voxels),
        uniform::<X, Y, Z, V>(voxels),
        ChunkShape::<X, Y, Z>::is_interior(origin),
        origin.along(face.n) == outer_plane::<X, Y, Z>(face),
        limit > 0 ==> ChunkShape::<X, Y, Z>::is_interior(start) && start.along(face.n)
            == outer_plane::<X, Y, Z>(face),
        start.along(face.u) + limit <= ChunkShape::<X, Y, Z>::dim(face.u) - 1,
    ensures
        run_width::<X, Y, Z, V>(voxels, face, Seq::empty(), origin, start, limit) == limit,
    decreases limit,
{
    if limit > 0 {
        lemma_solid_joins::<X, Y, Z, V>(voxels, face, origin, start);
        lemma_solid_run_width::<X, Y, Z, V>(
            voxels,
            face,
            origin,
            start.shifted(face.u, 1),
            (limit - 1) as nat,
        );
    }
}

/// In the outer plane of a solid chunk whose voxels all merge, a run of
/// rows is as high as its limit.
proof fn lemma_solid_run_height<const X: u32, const Y: u32, const Z: u32, V: MergeVoxel>(
    voxels: Seq<V>,
    face: OrientedBlockFace,
    origin: UVec3,
    start: UVec3,
    width: nat,
    limit: nat,
)
    requires
        ChunkShape::<X, Y, Z>::valid(),
        face.wf(),
        solid::<X, Y, Z, V>(voxels),
        uniform::<X, Y, Z, V>(voxels),
        ChunkShape::<X, Y, Z>::is_interior(origin),
        origin.along(face.n) == outer_plane::<X, Y, Z>(face),
        limit > 0 ==> ChunkShape::<X, Y, Z>::is_interior(start) && start.along(face.n)
            == outer_plane::<X, Y, Z>(face),
        start.along(face.u) + width <= ChunkShape::<X, Y, Z>::dim(face.u) - 1,
        start.along(face.v) + limit <= ChunkShape::<X, Y, Z>::dim(face.v) - 1,
    ensures
        run_height::<X, Y, Z, V>(voxels, face, Seq::empty(), origin, start, width, limit)
            == limit,
    decreases limit,
{
    if limit > 0 {
        lemma_solid_run_width::<X, Y, Z, V>(voxels, face, origin, start, width);
        lemma_solid_run_height::<X, Y, Z, V>(
            voxels,
            face,
            origin,
            start.shifted(face.v, 1),
            width,
            (limit - 1) as nat,
        );
    }
}

/// The first cell of the outer plane of a solid chunk whose voxels all
/// merge starts the rectangle of the whole plane, and no other cell starts
/// one.
proof fn lemma_solid_outer_plane<const X: u32, const Y: u32, const Z: u32, V: MergeVoxel>(
    voxels: Seq<V>,
    face: OrientedBlockFace,
    k: int,
)
    requires
        ChunkShape::<X, Y, Z>::valid(),
        face.wf(),
        solid::<X, Y, Z, V>(voxels),
        uniform::<X, Y, Z, V>(voxels),
        1 <= k <= ChunkShape::<X, Y, Z>::slice_len(face),
    ensures
        plane_quads_upto::<X, Y, Z, V>(
            voxels,
            face,
            outer_plane::<X, Y, Z>(face),
            Seq::empty(),
            k,
        ) == seq![outer_quad::<X, Y, Z>(face)],
    decreases k,
{
    let n = outer_plane::<X, Y, Z>(face);
    let empty = Seq::<UnorientedQuad>::empty();
    let p = ChunkShape::<X, Y, Z>::slice_cell(face, n, k - 1);
    ChunkShape::<X, Y, Z>::lemma_slice_cell_interior(face, n, k - 1);
    lemma_solid_exposed::<X, Y, Z, V>(voxels, face, p);
    let full = outer_quad::<X, Y, Z>(face);
    if k == 1 {
        assert(plane_quads_upto::<X, Y, Z, V>(voxels, face, n, empty, 0) == empty);
        assert(p == face.cell(n, 1, 1)) by {
            let w = ChunkShape::<X, Y, Z>::dim(face.u) - 2;
            assert(0int % w == 0 && 0int / w == 0) by {
                crate::geometry::shape::lemma_div_mod_of_sum(0, 0, w);
            }
        }
        let limit_u = (ChunkShape::<X, Y, Z>::dim(face.u) - 2) as nat;
        let limit_v = (ChunkShape::<X, Y, Z>::dim(face.v) - 3) as nat;
        lemma_solid_run_width::<X, Y, Z, V>(voxels, face, p, p, limit_u);
        lemma_solid_run_height::<X, Y, Z, V>(
            voxels,
            face,
            p,
            p.shifted(face.v, 1),
            limit_u,
            limit_v,
        );
        assert(greedy_quad::<X, Y, Z, V>(voxels, face, empty, p) == full);
        assert(empty.push(full) =~= seq![full]);
    } else {
        lemma_solid_outer_plane::<X, Y, Z, V>(voxels, face, k - 1);
        let before = seq![full];
        assert(quad_covers(before[0], face, p));
    }
}

/// A plane of a solid chunk that does not look at the padding adds no
/// rectangle.
proof fn lemma_solid_inner_plane<const X: u32, const Y: u32, const Z: u32, V: MergeVoxel>(
    voxels: Seq<V>,
    face: OrientedBlockFace,
    n: int,
    done: Seq<UnorientedQuad>,
    k: int,
)
    requires
        ChunkShape::<X, Y, Z>::valid(),
        face.wf(),
        solid::<X, Y, Z, V>(voxels),
        1 <= n <= ChunkShape::<X, Y, Z>::dim(face.n) - 2,
        n != outer_plane::<X, Y, Z>(face),
        0 <= k <= ChunkShape::<X, Y, Z>::slice_len(face),
    ensures
        plane_quads_upto::<X, Y, Z, V>(voxels, face, n, done, k) == done,
    decreases k,
{
    if k > 0 {
        lemma_solid_inner_plane::<X, Y, Z, V>(voxels, face, n, done, k - 1);
        ChunkShape::<X, Y, Z>::lemma_slice_cell_interior(face, n, k - 1);
        lemma_solid_exposed::<X, Y, Z, V>(
            voxels,
            face,
            ChunkShape::<X, Y, Z>::slice_cell(face, n, k - 1),
        );
    }
}

/// The first planes of a solid chunk whose voxels all merge have the
/// rectangle of the outer plane once that plane is among them, and none
/// before.
proof fn lemma_solid_planes<const X: u32, const Y: u32, const Z: u32, V: MergeVoxel>(
    voxels: Seq<V>,
    face: OrientedBlockFace,
    planes: int,
)
    requires
        ChunkShape::<X, Y, Z>::valid(),
        face.wf(),
        solid::<X, Y, Z, V>(voxels),
        uniform::<X, Y, Z, V>(voxels),
        0 <= planes <= ChunkShape::<X, Y, Z>::dim(face.n) - 2,
    ensures
        face_quads_upto::<X, Y, Z, V>(voxels, face, planes) == if planes >= outer_plane::<X, Y, Z>(
            face,
        ) {
            seq![outer_quad::<X, Y, Z>(face)]
        } else {
            Seq::<UnorientedQuad>::empty()
        },
    decreases planes,
{
    if planes > 0 {
        lemma_solid_planes::<X, Y, Z, V>(voxels, face, planes - 1);
        ChunkShape::<X, Y, Z>::lemma_inner_len_positive(face);
        let len = ChunkShape::<X, Y, Z>::slice_len(face);
        if planes == outer_plane::<X, Y, Z>(face) {
            lemma_solid_outer_plane::<X, Y, Z, V>(voxels, face, len);
        } else {
            lemma_solid_inner_plane::<X, Y, Z, V>(
                voxels,
                face,
                planes,
                face_quads_upto::<X, Y, Z, V>(voxels, face, planes - 1),
                len,
            );
        }
    }
}

/// On each face a solid chunk whose voxels all merge gets one rectangle:
/// that of all interior cells of the plane that looks at the padding.
pub proof fn lemma_solid_chunk_face_rectangle<
    const X: u32,
    const Y: u32,
    const Z: u32,
    V: MergeVoxel,
>(voxels: Seq<V>, face: OrientedBlockFace)
    requires
        ChunkShape::<X, Y, Z>::valid(),
        face.wf(),
        solid::<X, Y, Z, V>(voxels),
        uniform::<X, Y, Z, V>(voxels),
    ensures
        greedy_face_quads::<X, Y, Z, V>(voxels, face) == seq![outer_quad::<X, Y, Z>(face)],
{
    lemma_solid_planes::<X, Y, Z, V>(voxels, face, ChunkShape::<X, Y, Z>::dim(face.n) - 2);
}

/// A solid chunk whose voxels all merge gets six rectangles.
pub proof fn lemma_solid_chunk_rectangles<
    const X: u32,
    const Y: u32,
    const Z: u32,
    const M: usize,
    V: MergeVoxel,
>(buffer: PopBuffer<M, UnorientedQuad>, voxels: Seq<V>)
    requires
        ChunkShape::<X, Y, Z>::valid(),
        solid::<X, Y, Z, V>(voxels),
        uniform::<X, Y, Z, V>(voxels),
        1 <= M,
        holds_rectangles::<X, Y, Z, M, V>(buffer, voxels),
    ensures
        buffer.count_from(0) == 6,
{
    buffer.lemma_count_from_by_face(0);
    assert forall|f: int| 0 <= f < 6 implies #[trigger] buffer.drawn_from(0, f).len() == 1 by {
        let face = OrientedBlockFace::face(f);
        OrientedBlockFace::lemma_face_wf(f);
        let quads = greedy_face_quads::<X, Y, Z, V>(voxels, face);
        let all = |quad: UnorientedQuad| true;
        let from = |quad: UnorientedQuad| all(quad) && quad_lod(quad, face, M as nat) >= 0;
        lemma_solid_chunk_face_rectangle::<X, Y, Z, V>(voxels, face);
        lemma_drawn_rectangles::<X, Y, Z, M, V>(buffer, voxels, f, 0, all);
        lemma_count_where_all(buffer.drawn_from(0, f), all);
        assert forall|i: int| 0 <= i < quads.len() implies from(#[trigger] quads[i]) by {
            lemma_quad_lod_bound(quads[i], face, M as nat);
        }
        lemma_count_where_all(quads, from);
    }
}

/// Each rectangle of a face lies in the interior.
pub proof fn lemma_rectangles_lie_inside<const X: u32, const Y: u32, const Z: u32, V: MergeVoxel>(
    voxels: Seq<V>,
    face: OrientedBlockFace,
    i: int,
)
    requires
        ChunkShape::<X, Y, Z>::valid(),
        face.wf(),
        0 <= i < greedy_face_quads::<X, Y, Z, V>(voxels, face).len(),
    ensures
        quad_inside::<X, Y, Z>(greedy_face_quads::<X, Y, Z, V>(voxels, face)[i], face),
{
    lemma_planes::<X, Y, Z, V>(voxels, face, ChunkShape::<X, Y, Z>::dim(face.n) - 2);
}

/// The rectangles of a meshed chunk can be drawn at each level up to 30.
pub proof fn lemma_rectangles_can_be_drawn<
    const X: u32,
    const Y: u32,
    const Z: u32,
    const M: usize,
    V: MergeVoxel,
>(buffer: PopBuffer<M, UnorientedQuad>, voxels: Seq<V>, lod: nat)
    requires
        ChunkShape::<X, Y, Z>::valid(),
        holds_rectangles::<X, Y, Z, M, V>(buffer, voxels),
        lod <= 30,
    ensures
        all_inflatable(buffer, lod),
{
    assert forall|l: int, f: int, i: int|
        lod <= l < M && 0 <= f < 6 && 0 <= i < buffer.bucket(l, f).len() implies (
        #[trigger] buffer.bucket(l, f)[i]).inflatable(OrientedBlockFace::face(f), lod) by {
        let face = OrientedBlockFace::face(f);
        OrientedBlockFace::lemma_face_wf(f);
        let quads = greedy_face_quads::<X, Y, Z, V>(voxels, face);
        let keep = |quad: UnorientedQuad| quad_lod(quad, face, M as nat) == l;
        let quad = buffer.bucket(l, f)[i];
        assert(buffer.bucket(l, f) == quads.filter(keep));
        assert(quads.filter(keep).contains(quad));
        quads.lemma_filter_contains_rev(keep, quad);
        let j = choose|j: int| 0 <= j < quads.len() && quads[j] == quad;
        lemma_rectangles_lie_inside::<X, Y, Z, V>(voxels, face, j);
        vstd::arithmetic::power2::lemma_pow2_strictly_increases(lod, 31);
        vstd::arithmetic::power2::lemma2_to64();
        let a = X as int;
        let b = Y as int;
        let c = Z as int;
        assert(9 * a <= a * b * c && 9 * b <= a * b * c && 9 * c <= a * b * c)
            by (nonlinear_arith)
            requires
                a >= 3,
                b >= 3,
                c >= 3,
        ;
    }
}

} // verus!
