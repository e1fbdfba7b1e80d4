//! What holds of the quads of the mesher of single faces.

use crate::buffer::PopBuffer;
use crate::exposure::exposed;
use crate::geometry::face::OrientedBlockFace;
use crate::geometry::quad::{UnorientedRegularQuad, UnorientedUnitQuad};
use crate::geometry::shape::ChunkShape;
use crate::geometry::vector::UVec3;
use crate::grid::{coarse, lemma_cells_of_grids_are_nested, lemma_coarse_in_chunk};
use crate::lod::{all_inflatable, inflated_from, LodQuad};
use crate::theory::counting::{
    lemma_occurrences_add, lemma_occurrences_index, lemma_occurrences_map, lemma_occurrences_push,
    occurrences,
};
use crate::theory::exposure::{
    all_empty, lemma_empty_chunk_exposes_nothing, lemma_exposed_by_visibility,
    lemma_solid_exposed, same_visibility, solid,
};
use crate::visible_faces::{
    emits, lod_class, marked, marks_event, visible_quads, visible_quads_upto,
};
use crate::voxel::MeshVoxel;
use vstd::prelude::*;

verus! {

/// The level of a quad is one of the levels.
pub proof fn lemma_lod_class_bound<const X: u32, const Y: u32, const Z: u32, V: MeshVoxel>(
    voxels: Seq<V>,
    f: int,
    k: int,
    levels: nat,
)
    ensures
        levels > 0 ==> lod_class::<X, Y, Z, V>(voxels, f, k, levels) < levels,
        levels == 0 ==> lod_class::<X, Y, Z, V>(voxels, f, k, levels) == 0,
    decreases levels,
{
    if levels > 0 {
        lemma_lod_class_bound::<X, Y, Z, V>(voxels, f, k, (levels - 1) as nat);
    }
}

/// Among the quads of the first `k` cells, the quad of the cell with number
/// `i` occurs once where that cell is one of them, its face is exposed and
/// its level is `lod`, and not at all otherwise.
pub proof fn lemma_unit_quads_upto<const X: u32, const Y: u32, const Z: u32, V: MeshVoxel>(
    voxels: Seq<V>,
    f: int,
    lod: int,
    levels: nat,
    k: int,
    i: int,
)
    requires
        ChunkShape::<X, Y, Z>::valid(),
        0 <= f < 6,
        0 <= k <= ChunkShape::<X, Y, Z>::inner_len(OrientedBlockFace::face(f)),
        0 <= i < ChunkShape::<X, Y, Z>::inner_len(OrientedBlockFace::face(f)),
    ensures
        occurrences(
            visible_quads_upto::<X, Y, Z, V>(voxels, f, lod, levels, k),
            UnorientedUnitQuad {
                minimum: ChunkShape::<X, Y, Z>::inner_cell(OrientedBlockFace::face(f), i),
            },
        ) == if i < k && emits::<X, Y, Z, V>(voxels, f, i) && lod_class::<X, Y, Z, V>(
            voxels,
            f,
            i,
            levels,
        ) == lod {
            1nat
        } else {
            0nat
        },
    decreases k,
{
    if k > 0 {
        let face = OrientedBlockFace::face(f);
        OrientedBlockFace::lemma_face_wf(f);
        lemma_unit_quads_upto::<X, Y, Z, V>(voxels, f, lod, levels, k - 1, i);
        let rest = visible_quads_upto::<X, Y, Z, V>(voxels, f, lod, levels, k - 1);
        let last = UnorientedUnitQuad { minimum: ChunkShape::<X, Y, Z>::inner_cell(face, k - 1) };
        let mine = UnorientedUnitQuad { minimum: ChunkShape::<X, Y, Z>::inner_cell(face, i) };
        lemma_occurrences_push(rest, last, mine);
        ChunkShape::<X, Y, Z>::lemma_inner_cell_index(face, k - 1);
        ChunkShape::<X, Y, Z>::lemma_inner_cell_index(face, i);
    }
}

/// No quad lies outside the interior.
pub proof fn lemma_unit_quads_inside<const X: u32, const Y: u32, const Z: u32, V: MeshVoxel>(
    voxels: Seq<V>,
    f: int,
    lod: int,
    levels: nat,
    k: int,
    quad: UnorientedUnitQuad,
)
    requires
        ChunkShape::<X, Y, Z>::valid(),
        0 <= f < 6,
        0 <= k <= ChunkShape::<X, Y, Z>::inner_len(OrientedBlockFace::face(f)),
        !ChunkShape::<X, Y, Z>::is_interior(quad.minimum),
    ensures
        occurrences(visible_quads_upto::<X, Y, Z, V>(voxels, f, lod, levels, k), quad) == 0,
    decreases k,
{
    if k > 0 {
        let face = OrientedBlockFace::face(f);
        OrientedBlockFace::lemma_face_wf(f);
        lemma_unit_quads_inside::<X, Y, Z, V>(voxels, f, lod, levels, k - 1, quad);
        let rest = visible_quads_upto::<X, Y, Z, V>(voxels, f, lod, levels, k - 1);
        let last = UnorientedUnitQuad { minimum: ChunkShape::<X, Y, Z>::inner_cell(face, k - 1) };
        lemma_occurrences_push(rest, last, quad);
        ChunkShape::<X, Y, Z>::lemma_inner_cell_index(face, k - 1);
    }
}

/// Each exposed face of a cell of the interior has one quad, in the bucket
/// of its level and in no other, and no other quad is made: the quad of the
/// cell `p` occurs once among the quads of level `lod` on the face with index
/// `f` where `p` is a cell of the interior, its face is exposed and its
/// level is `lod`, and not at all otherwise.
pub proof fn lemma_one_quad_for_each_exposed_face<
    const X: u32,
    const Y: u32,
    const Z: u32,
    V: MeshVoxel,
>(voxels: Seq<V>, f: int, lod: int, levels: nat, p: UVec3)
    requires
        ChunkShape::<X, Y, Z>::valid(),
        0 <= f < 6,
    ensures
        occurrences(
            visible_quads::<X, Y, Z, V>(voxels, f, lod, levels),
            UnorientedUnitQuad { minimum: p },
        ) == if ChunkShape::<X, Y, Z>::is_interior(p) && exposed::<X, Y, Z, V>(
            voxels,
            OrientedBlockFace::face(f),
            p,
        ) && lod_class::<X, Y, Z, V>(
            voxels,
            f,
            ChunkShape::<X, Y, Z>::inner_index(OrientedBlockFace::face(f), p),
            levels,
        ) == lod {
            1nat
        } else {
            0nat
        },
{
    let face = OrientedBlockFace::face(f);
    OrientedBlockFace::lemma_face_wf(f);
    let len = ChunkShape::<X, Y, Z>::inner_len(face);
    ChunkShape::<X, Y, Z>::lemma_inner_len_positive(face);
    if ChunkShape::<X, Y, Z>::is_interior(p) {
        ChunkShape::<X, Y, Z>::lemma_inner_index(face, p);
        lemma_unit_quads_upto::<X, Y, Z, V>(
            voxels,
            f,
            lod,
            levels,
            len,
            ChunkShape::<X, Y, Z>::inner_index(face, p),
        );
    } else {
        lemma_unit_quads_inside::<X, Y, Z, V>(
            voxels,
            f,
            lod,
            levels,
            len,
            UnorientedUnitQuad { minimum: p },
        );
    }
}

/// Whether the buckets of `buffer` hold the quads of the chunk `voxels`, and
/// no others: what the mesher leaves in a buffer that was empty.
pub open spec fn holds_visible_quads<
    const X: u32,
    const Y: u32,
    const Z: u32,
    const M: usize,
    V: MeshVoxel,
>(buffer: PopBuffer<M, UnorientedUnitQuad>, voxels: Seq<V>) -> bool {
    forall|lod: int, f: int|
        0 <= lod < M && 0 <= f < 6 ==> #[trigger] buffer.bucket(lod, f) == visible_quads::<
            X,
            Y,
            Z,
            V,
        >(voxels, f, lod, M as nat)
}

/// The quads that are drawn at level `lod` are those of the exposed faces
/// whose level is `lod` or higher, each once.
pub proof fn lemma_drawn_from_level<
    const X: u32,
    const Y: u32,
    const Z: u32,
    const M: usize,
    V: MeshVoxel,
>(buffer: PopBuffer<M, UnorientedUnitQuad>, voxels: Seq<V>, f: int, lod: int, p: UVec3)
    requires
        ChunkShape::<X, Y, Z>::valid(),
        holds_visible_quads::<X, Y, Z, M, V>(buffer, voxels),
        1 <= M,
        0 <= f < 6,
        0 <= lod,
    ensures
        occurrences(buffer.drawn_from(lod, f), UnorientedUnitQuad { minimum: p })
            == if ChunkShape::<X, Y, Z>::is_interior(p) && exposed::<X, Y, Z, V>(
            voxels,
            OrientedBlockFace::face(f),
            p,
        ) && lod_class::<X, Y, Z, V>(
            voxels,
            f,
            ChunkShape::<X, Y, Z>::inner_index(OrientedBlockFace::face(f), p),
            M as nat,
        ) >= lod {
            1nat
        } else {
            0nat
        },
    decreases M - lod,
{
    let quad = UnorientedUnitQuad { minimum: p };
    let k = ChunkShape::<X, Y, Z>::inner_index(OrientedBlockFace::face(f), p);
    lemma_lod_class_bound::<X, Y, Z, V>(voxels, f, k, M as nat);
    if lod < M {
        lemma_drawn_from_level::<X, Y, Z, M, V>(buffer, voxels, f, lod + 1, p);
        lemma_one_quad_for_each_exposed_face::<X, Y, Z, V>(voxels, f, lod, M as nat, p);
        lemma_occurrences_add(buffer.drawn_from(lod + 1, f), buffer.bucket(lod, f), quad);
    }
}

/// Drawn at level 0, the quads of a meshed chunk cover each exposed face of
/// each cell of the interior once, and nothing else: the square of one cell
/// at `p` occurs once among them where `p` is a cell of the interior whose
/// face is exposed, and not at all otherwise.
pub proof fn lemma_level_zero_covers_exposed_faces_once<
    const X: u32,
    const Y: u32,
    const Z: u32,
    const M: usize,
    V: MeshVoxel,
>(buffer: PopBuffer<M, UnorientedUnitQuad>, voxels: Seq<V>, f: int, p: UVec3)
    requires
        ChunkShape::<X, Y, Z>::valid(),
        holds_visible_quads::<X, Y, Z, M, V>(buffer, voxels),
        1 <= M,
        0 <= f < 6,
    ensures
        occurrences(
            inflated_from(buffer, 0, f),
            UnorientedRegularQuad { minimum: p, size: 1 },
        ) == if ChunkShape::<X, Y, Z>::is_interior(p) && exposed::<X, Y, Z, V>(
            voxels,
            OrientedBlockFace::face(f),
            p,
        ) {
            1nat
        } else {
            0nat
        },
{
    let face = OrientedBlockFace::face(f);
    let quad = UnorientedUnitQuad { minimum: p };
    let inflate = |quad: UnorientedUnitQuad| quad.inflated(face, 0nat);
    vstd::arithmetic::power2::lemma2_to64();
    assert forall|q: UnorientedUnitQuad| #[trigger] inflate(q) == (UnorientedRegularQuad {
        minimum: q.minimum,
        size: 1,
    }) by {
        assert((q.minimum.x - 1) / 1 * 1 + 1 == q.minimum.x);
        assert((q.minimum.y - 1) / 1 * 1 + 1 == q.minimum.y);
        assert((q.minimum.z - 1) / 1 * 1 + 1 == q.minimum.z);
    }
    lemma_occurrences_map(buffer.drawn_from(0, f), inflate, quad);
    lemma_drawn_from_level::<X, Y, Z, M, V>(buffer, voxels, f, 0, p);
    assert(inflated_from(buffer, 0, f) =~= buffer.drawn_from(0, f).map_values(inflate));
}

/// A chunk of empty voxels has no quads: each bucket of each face gets none.
pub proof fn lemma_empty_chunk_has_no_unit_quads<
    const X: u32,
    const Y: u32,
    const Z: u32,
    V: MeshVoxel,
>(voxels: Seq<V>, f: int, lod: int, levels: nat)
    requires
        ChunkShape::<X, Y, Z>::valid(),
        voxels.len() == ChunkShape::<X, Y, Z>::volume(),
        all_empty(voxels),
        0 <= f < 6,
    ensures
        visible_quads::<X, Y, Z, V>(voxels, f, lod, levels) == Seq::<UnorientedUnitQuad>::empty(),
{
    OrientedBlockFace::lemma_face_wf(f);
    ChunkShape::<X, Y, Z>::lemma_inner_len_positive(OrientedBlockFace::face(f));
    lemma_empty_chunk_upto::<X, Y, Z, V>(
        voxels,
        f,
        lod,
        levels,
        ChunkShape::<X, Y, Z>::inner_len(OrientedBlockFace::face(f)),
    );
}

/// The first cells of a chunk of empty voxels get no quads.
proof fn lemma_empty_chunk_upto<const X: u32, const Y: u32, const Z: u32, V: MeshVoxel>(
    voxels: Seq<V>,
    f: int,
    lod: int,
    levels: nat,
    k: int,
)
    requires
        ChunkShape::<X, Y, Z>::valid(),
        voxels.len() == ChunkShape::<X, Y, Z>::volume(),
        all_empty(voxels),
        0 <= f < 6,
        0 <= k <= ChunkShape::<X, Y, Z>::inner_len(OrientedBlockFace::face(f)),
    ensures
        visible_quads_upto::<X, Y, Z, V>(voxels, f, lod, levels, k) == Seq::<
            UnorientedUnitQuad,
        >::empty(),
    decreases k,
{
    if k > 0 {
        let face = OrientedBlockFace::face(f);
        OrientedBlockFace::lemma_face_wf(f);
        lemma_empty_chunk_upto::<X, Y, Z, V>(voxels, f, lod, levels, k - 1);
        ChunkShape::<X, Y, Z>::lemma_inner_cell_interior(face, k - 1);
        lemma_empty_chunk_exposes_nothing::<X, Y, Z, V>(
            voxels,
            face,
            ChunkShape::<X, Y, Z>::inner_cell(face, k - 1),
        );
    }
}

/// Where the earlier quads lie depends on the visibility of the voxels
/// alone.
proof fn lemma_marked_by_visibility<const X: u32, const Y: u32, const Z: u32, V: MeshVoxel>(
    a: Seq<V>,
    b: Seq<V>,
    f: int,
    k: int,
    lod: nat,
    c: UVec3,
)
    requires
        ChunkShape::<X, Y, Z>::valid(),
        a.len() == ChunkShape::<X, Y, Z>::volume(),
        same_visibility(a, b),
    ensures
        marked::<X, Y, Z, V>(a, f, k, lod, c) ==> marked::<X, Y, Z, V>(b, f, k, lod, c),
{
    if marked::<X, Y, Z, V>(a, f, k, lod, c) {
        let (g, i) = choose|g: int, i: int|
            (g < f || (g == f && i < k)) && #[trigger] marks_event::<X, Y, Z, V>(a, g, i, lod, c);
        OrientedBlockFace::lemma_face_wf(g);
        ChunkShape::<X, Y, Z>::lemma_inner_cell_interior(OrientedBlockFace::face(g), i);
        lemma_exposed_by_visibility::<X, Y, Z, V>(
            a,
            b,
            OrientedBlockFace::face(g),
            ChunkShape::<X, Y, Z>::inner_cell(OrientedBlockFace::face(g), i),
        );
        assert((g < f || (g == f && i < k)) && marks_event::<X, Y, Z, V>(b, g, i, lod, c));
    }
}

/// The level of a quad depends on the visibility of the voxels alone.
proof fn lemma_lod_class_by_visibility<const X: u32, const Y: u32, const Z: u32, V: MeshVoxel>(
    a: Seq<V>,
    b: Seq<V>,
    f: int,
    k: int,
    levels: nat,
)
    requires
        ChunkShape::<X, Y, Z>::valid(),
        a.len() == ChunkShape::<X, Y, Z>::volume(),
        same_visibility(a, b),
    ensures
        lod_class::<X, Y, Z, V>(a, f, k, levels) == lod_class::<X, Y, Z, V>(b, f, k, levels),
    decreases levels,
{
    if levels > 0 {
        let l = (levels - 1) as nat;
        let c = coarse(
            ChunkShape::<X, Y, Z>::inner_cell(OrientedBlockFace::face(f), k),
            l,
        );
        lemma_marked_by_visibility::<X, Y, Z, V>(a, b, f, k, l, c);
        lemma_marked_by_visibility::<X, Y, Z, V>(b, a, f, k, l, c);
        lemma_lod_class_by_visibility::<X, Y, Z, V>(a, b, f, k, l);
    }
}

/// The quads of the first cells depend on the visibility of the voxels
/// alone.
proof fn lemma_unit_quads_upto_by_visibility<
    const X: u32,
    const Y: u32,
    const Z: u32,
    V: MeshVoxel,
>(a: Seq<V>, b: Seq<V>, f: int, lod: int, levels: nat, k: int)
    requires
        ChunkShape::<X, Y, Z>::valid(),
        a.len() == ChunkShape::<X, Y, Z>::volume(),
        same_visibility(a, b),
        0 <= f < 6,
        0 <= k <= ChunkShape::<X, Y, Z>::inner_len(OrientedBlockFace::face(f)),
    ensures
        visible_quads_upto::<X, Y, Z, V>(a, f, lod, levels, k) == visible_quads_upto::<X, Y, Z, V>(
            b,
            f,
            lod,
            levels,
            k,
        ),
    decreases k,
{
    if k > 0 {
        let face = OrientedBlockFace::face(f);
        OrientedBlockFace::lemma_face_wf(f);
        lemma_unit_quads_upto_by_visibility::<X, Y, Z, V>(a, b, f, lod, levels, k - 1);
        ChunkShape::<X, Y, Z>::lemma_inner_cell_interior(face, k - 1);
        lemma_exposed_by_visibility::<X, Y, Z, V>(
            a,
            b,
            face,
            ChunkShape::<X, Y, Z>::inner_cell(face, k - 1),
        );
        lemma_lod_class_by_visibility::<X, Y, Z, V>(a, b, f, k - 1, levels);
    }
}

/// The quads depend on the visibility of the voxels alone: two chunks whose
/// voxels have the same visibility, cell by cell, get the same quads, whatever
/// else their voxels hold, in the padding or in the interior.
pub proof fn lemma_unit_quads_by_visibility<const X: u32, const Y: u32, const Z: u32, V: MeshVoxel>(
    a: Seq<V>,
    b: Seq<V>,
    f: int,
    lod: int,
    levels: nat,
)
    requires
        ChunkShape::<X, Y, Z>::valid(),
        a.len() == ChunkShape::<X, Y, Z>::volume(),
        same_visibility(a, b),
        0 <= f < 6,
    ensures
        visible_quads::<X, Y, Z, V>(a, f, lod, levels) == visible_quads::<X, Y, Z, V>(
            b,
            f,
            lod,
            levels,
        ),
{
    OrientedBlockFace::lemma_face_wf(f);
    ChunkShape::<X, Y, Z>::lemma_inner_len_positive(OrientedBlockFace::face(f));
    lemma_unit_quads_upto_by_visibility::<X, Y, Z, V>(
        a,
        b,
        f,
        lod,
        levels,
        ChunkShape::<X, Y, Z>::inner_len(OrientedBlockFace::face(f)),
    );
}

/// How many of the first `k` cells get a quad whose level is `low` at least
/// and below `high`.
pub open spec fn count_cells<const X: u32, const Y: u32, const Z: u32, V: MeshVoxel>(
    voxels: Seq<V>,
    f: int,
    levels: nat,
    low: int,
    high: int,
    k: int,
) -> nat
    decreases k,
{
    if k <= 0 {
        0
    } else {
        count_cells::<X, Y, Z, V>(voxels, f, levels, low, high, k - 1) + if emits::<X, Y, Z, V>(
            voxels,
            f,
            k - 1,
        ) && low <= lod_class::<X, Y, Z, V>(voxels, f, k - 1, levels) < high {
            1nat
        } else {
            0nat
        }
    }
}

/// As many quads of a level are made as cells get a quad of that level.
proof fn lemma_len_is_count<const X: u32, const Y: u32, const Z: u32, V: MeshVoxel>(
    voxels: Seq<V>,
    f: int,
    lod: int,
    levels: nat,
    k: int,
)
    ensures
        visible_quads_upto::<X, Y, Z, V>(voxels, f, lod, levels, k).len() == count_cells::<
            X,
            Y,
            Z,
            V,
        >(voxels, f, levels, lod, lod + 1, k),
    decreases k,
{
    if k > 0 {
        lemma_len_is_count::<X, Y, Z, V>(voxels, f, lod, levels, k - 1);
    }
}

/// The cells whose level lies in a range are those whose level lies in one
/// of two ranges that split it.
proof fn lemma_count_split<const X: u32, const Y: u32, const Z: u32, V: MeshVoxel>(
    voxels: Seq<V>,
    f: int,
    levels: nat,
    low: int,
    middle: int,
    high: int,
    k: int,
)
    requires
        low <= middle <= high,
    ensures
        count_cells::<X, Y, Z, V>(voxels, f, levels, low, high, k) == count_cells::<X, Y, Z, V>(
            voxels,
            f,
            levels,
            low,
            middle,
            k,
        ) + count_cells::<X, Y, Z, V>(voxels, f, levels, middle, high, k),
    decreases k,
{
    if k > 0 {
        lemma_count_split::<X, Y, Z, V>(voxels, f, levels, low, middle, high, k - 1);
    }
}

/// As many quads are drawn at a level on a face as cells get a quad of that
/// level or of a higher one.
pub proof fn lemma_drawn_from_len<
    const X: u32,
    const Y: u32,
    const Z: u32,
    const M: usize,
    V: MeshVoxel,
>(buffer: PopBuffer<M, UnorientedUnitQuad>, voxels: Seq<V>, f: int, lod: int)
    requires
        holds_visible_quads::<X, Y, Z, M, V>(buffer, voxels),
        0 <= f < 6,
        0 <= lod <= M,
    ensures
        buffer.drawn_from(lod, f).len() == count_cells::<X, Y, Z, V>(
            voxels,
            f,
            M as nat,
            lod,
            M as int,
            ChunkShape::<X, Y, Z>::inner_len(OrientedBlockFace::face(f)),
        ),
    decreases M - lod,
{
    let len = ChunkShape::<X, Y, Z>::inner_len(OrientedBlockFace::face(f));
    if lod < M {
        lemma_drawn_from_len::<X, Y, Z, M, V>(buffer, voxels, f, lod + 1);
        lemma_len_is_count::<X, Y, Z, V>(voxels, f, lod, M as nat, len);
        lemma_count_split::<X, Y, Z, V>(voxels, f, M as nat, lod, lod + 1, M as int, len);
        assert(buffer.bucket(lod, f) == visible_quads::<X, Y, Z, V>(voxels, f, lod, M as nat));
    } else {
        lemma_count_none::<X, Y, Z, V>(voxels, f, M as nat, lod, len);
    }
}

/// No level lies in a range without levels.
proof fn lemma_count_none<const X: u32, const Y: u32, const Z: u32, V: MeshVoxel>(
    voxels: Seq<V>,
    f: int,
    levels: nat,
    low: int,
    k: int,
)
    ensures
        count_cells::<X, Y, Z, V>(voxels, f, levels, low, low, k) == 0,
    decreases k,
{
    if k > 0 {
        lemma_count_none::<X, Y, Z, V>(voxels, f, levels, low, k - 1);
    }
}

/// Of the first cells of a solid chunk, in the order of a face, those of
/// the first plane get a quad, and no others.
proof fn lemma_solid_count<const X: u32, const Y: u32, const Z: u32, V: MeshVoxel>(
    voxels: Seq<V>,
    f: int,
    levels: nat,
    k: int,
)
    requires
        ChunkShape::<X, Y, Z>::valid(),
        solid::<X, Y, Z, V>(voxels),
        0 <= f < 6,
        levels >= 1,
        0 <= k <= ChunkShape::<X, Y, Z>::inner_len(OrientedBlockFace::face(f)),
    ensures
        count_cells::<X, Y, Z, V>(voxels, f, levels, 0, levels as int, k) == if k
            <= ChunkShape::<X, Y, Z>::slice_len(OrientedBlockFace::face(f)) {
            k
        } else {
            ChunkShape::<X, Y, Z>::slice_len(OrientedBlockFace::face(f))
        },
    decreases k,
{
    if k > 0 {
        let face = OrientedBlockFace::face(f);
        OrientedBlockFace::lemma_face_wf(f);
        lemma_solid_count::<X, Y, Z, V>(voxels, f, levels, k - 1);
        let len = ChunkShape::<X, Y, Z>::slice_len(face);
        let depth = ChunkShape::<X, Y, Z>::dim(face.n) - 2;
        ChunkShape::<X, Y, Z>::lemma_inner_len_positive(face);
        ChunkShape::<X, Y, Z>::lemma_inner_cell_interior(face, k - 1);
        assert(k - 1 < len * depth) by (nonlinear_arith)
            requires
                k - 1 < depth * len,
        ;
        ChunkShape::<X, Y, Z>::lemma_row_and_column(k - 1, len, depth);
        let j = (k - 1) / len;
        ChunkShape::<X, Y, Z>::lemma_slice_cell_interior(
            face,
            ChunkShape::<X, Y, Z>::plane_at(face, j),
            (k - 1) % len,
        );
        lemma_solid_exposed::<X, Y, Z, V>(
            voxels,
            face,
            ChunkShape::<X, Y, Z>::inner_cell(face, k - 1),
        );
        lemma_lod_class_bound::<X, Y, Z, V>(voxels, f, k - 1, levels);
        assert(j == 0 <==> k - 1 < len) by (nonlinear_arith)
            requires
                k - 1 == j * len + (k - 1) % len,
                0 <= (k - 1) % len < len,
                0 <= j,
        ;
    }
}

/// On each face a solid chunk gets as many quads as a plane of the face
/// has interior cells.
pub proof fn lemma_solid_chunk_face<
    const X: u32,
    const Y: u32,
    const Z: u32,
    const M: usize,
    V: MeshVoxel,
>(buffer: PopBuffer<M, UnorientedUnitQuad>, voxels: Seq<V>, f: int)
    requires
        ChunkShape::<X, Y, Z>::valid(),
        solid::<X, Y, Z, V>(voxels),
        1 <= M,
        holds_visible_quads::<X, Y, Z, M, V>(buffer, voxels),
        0 <= f < 6,
    ensures
        buffer.drawn_from(0, f).len() == ChunkShape::<X, Y, Z>::slice_len(
            OrientedBlockFace::face(f),
        ),
{
    let face = OrientedBlockFace::face(f);
    OrientedBlockFace::lemma_face_wf(f);
    ChunkShape::<X, Y, Z>::lemma_inner_len_positive(face);
    let len = ChunkShape::<X, Y, Z>::inner_len(face);
    lemma_drawn_from_len::<X, Y, Z, M, V>(buffer, voxels, f, 0);
    lemma_solid_count::<X, Y, Z, V>(voxels, f, M as nat, len);
    assert(ChunkShape::<X, Y, Z>::slice_len(face) <= len) by (nonlinear_arith)
        requires
            len == (ChunkShape::<X, Y, Z>::dim(face.n) - 2) * ChunkShape::<X, Y, Z>::slice_len(
                face,
            ),
            ChunkShape::<X, Y, Z>::dim(face.n) - 2 >= 1,
            ChunkShape::<X, Y, Z>::slice_len(face) > 0,
    ;
}

/// The number of interior cells in a plane of each of the six faces.
pub proof fn lemma_slice_len_of_faces<const X: u32, const Y: u32, const Z: u32>()
    ensures
        ChunkShape::<X, Y, Z>::slice_len(OrientedBlockFace::face(0)) == (Y - 2) * (Z - 2),
        ChunkShape::<X, Y, Z>::slice_len(OrientedBlockFace::face(1)) == (Z - 2) * (X - 2),
        ChunkShape::<X, Y, Z>::slice_len(OrientedBlockFace::face(2)) == (X - 2) * (Y - 2),
        ChunkShape::<X, Y, Z>::slice_len(OrientedBlockFace::face(3)) == (Y - 2) * (Z - 2),
        ChunkShape::<X, Y, Z>::slice_len(OrientedBlockFace::face(4)) == (Z - 2) * (X - 2),
        ChunkShape::<X, Y, Z>::slice_len(OrientedBlockFace::face(5)) == (X - 2) * (Y - 2),
{
    let a = X - 2;
    let b = Y - 2;
    let c = Z - 2;
    assert(c * b == b * c) by (nonlinear_arith);
}

/// A solid chunk gets one quad for each cell of the surface of its interior:
/// twice as many as the cells of three sides that meet in a corner.
pub proof fn lemma_solid_chunk_unit_quads<
    const X: u32,
    const Y: u32,
    const Z: u32,
    const M: usize,
    V: MeshVoxel,
>(buffer: PopBuffer<M, UnorientedUnitQuad>, voxels: Seq<V>)
    requires
        ChunkShape::<X, Y, Z>::valid(),
        solid::<X, Y, Z, V>(voxels),
        1 <= M,
        holds_visible_quads::<X, Y, Z, M, V>(buffer, voxels),
    ensures
        buffer.count_from(0) == 2 * ((X - 2) * (Y - 2) + (Y - 2) * (Z - 2) + (Z - 2) * (X - 2)),
{
    buffer.lemma_count_from_by_face(0);
    lemma_solid_chunk_face::<X, Y, Z, M, V>(buffer, voxels, 0);
    lemma_solid_chunk_face::<X, Y, Z, M, V>(buffer, voxels, 1);
    lemma_solid_chunk_face::<X, Y, Z, M, V>(buffer, voxels, 2);
    lemma_solid_chunk_face::<X, Y, Z, M, V>(buffer, voxels, 3);
    lemma_solid_chunk_face::<X, Y, Z, M, V>(buffer, voxels, 4);
    lemma_solid_chunk_face::<X, Y, Z, M, V>(buffer, voxels, 5);
    lemma_slice_len_of_faces::<X, Y, Z>();
}

/// The quads of a meshed chunk can be drawn at each level.
pub proof fn lemma_unit_quads_can_be_drawn<
    const X: u32,
    const Y: u32,
    const Z: u32,
    const M: usize,
    V: MeshVoxel,
>(buffer: PopBuffer<M, UnorientedUnitQuad>, voxels: Seq<V>, lod: nat)
    requires
        ChunkShape::<X, Y, Z>::valid(),
        holds_visible_quads::<X, Y, Z, M, V>(buffer, voxels),
        lod < 32,
    ensures
        all_inflatable(buffer, lod),
{
    assert forall|l: int, f: int, i: int|
        lod <= l < M && 0 <= f < 6 && 0 <= i < buffer.bucket(l, f).len() implies (
        #[trigger] buffer.bucket(l, f)[i]).inflatable(OrientedBlockFace::face(f), lod) by {
        let face = OrientedBlockFace::face(f);
        OrientedBlockFace::lemma_face_wf(f);
        ChunkShape::<X, Y, Z>::lemma_inner_len_positive(face);
        let quad = buffer.bucket(l, f)[i];
        let quads = visible_quads::<X, Y, Z, V>(voxels, f, l, M as nat);
        assert(quads[i] == quad);
        lemma_occurrences_index(quads, quad);
        if !ChunkShape::<X, Y, Z>::is_interior(quad.minimum) {
            lemma_unit_quads_inside::<X, Y, Z, V>(
                voxels,
                f,
                l,
                M as nat,
                ChunkShape::<X, Y, Z>::inner_len(face),
                quad,
            );
        }
    }
}

/// A quad of a level above 0 has that level because no earlier quad lies in
/// its cell of the grid of that level.
pub proof fn lemma_level_above_zero_is_free<const X: u32, const Y: u32, const Z: u32, V: MeshVoxel>(
    voxels: Seq<V>,
    f: int,
    k: int,
    levels: nat,
)
    ensures
        lod_class::<X, Y, Z, V>(voxels, f, k, levels) > 0 ==> !marked::<X, Y, Z, V>(
            voxels,
            f,
            k,
            lod_class::<X, Y, Z, V>(voxels, f, k, levels),
            coarse(
                ChunkShape::<X, Y, Z>::inner_cell(OrientedBlockFace::face(f), k),
                lod_class::<X, Y, Z, V>(voxels, f, k, levels),
            ),
        ),
    decreases levels,
{
    if levels > 0 {
        lemma_level_above_zero_is_free::<X, Y, Z, V>(voxels, f, k, (levels - 1) as nat);
    }
}

/// No two quads that are drawn at a level on one face lie in the same cell
/// of the grid of that level: drawn at the level, each covers a cell of its
/// own.
pub proof fn lemma_drawn_quads_lie_in_different_cells<
    const X: u32,
    const Y: u32,
    const Z: u32,
    V: MeshVoxel,
>(voxels: Seq<V>, f: int, levels: nat, lod: nat, i: int, j: int)
    requires
        ChunkShape::<X, Y, Z>::valid(),
        0 <= f < 6,
        0 <= i < j < ChunkShape::<X, Y, Z>::inner_len(OrientedBlockFace::face(f)),
        emits::<X, Y, Z, V>(voxels, f, i),
        emits::<X, Y, Z, V>(voxels, f, j),
        lod_class::<X, Y, Z, V>(voxels, f, i, levels) >= lod,
        lod_class::<X, Y, Z, V>(voxels, f, j, levels) >= lod,
    ensures
        coarse(ChunkShape::<X, Y, Z>::inner_cell(OrientedBlockFace::face(f), i), lod) != coarse(
            ChunkShape::<X, Y, Z>::inner_cell(OrientedBlockFace::face(f), j),
            lod,
        ),
{
    let face = OrientedBlockFace::face(f);
    OrientedBlockFace::lemma_face_wf(f);
    let p = ChunkShape::<X, Y, Z>::inner_cell(face, i);
    let q = ChunkShape::<X, Y, Z>::inner_cell(face, j);
    ChunkShape::<X, Y, Z>::lemma_inner_cell_index(face, i);
    ChunkShape::<X, Y, Z>::lemma_inner_cell_index(face, j);
    let level = lod_class::<X, Y, Z, V>(voxels, f, j, levels);
    if coarse(p, lod) == coarse(q, lod) {
        if level > 0 {
            lemma_level_above_zero_is_free::<X, Y, Z, V>(voxels, f, j, levels);
            lemma_cells_of_grids_are_nested::<X, Y, Z>(p, q, lod, level);
            assert((f < f || (f == f && i < j)) && marks_event::<X, Y, Z, V>(
                voxels,
                f,
                i,
                level,
                coarse(q, level),
            ));
        } else {
            lemma_coarse_in_chunk::<X, Y, Z>(p, 0);
            lemma_coarse_in_chunk::<X, Y, Z>(q, 0);
        }
    }
}

} // verus!
