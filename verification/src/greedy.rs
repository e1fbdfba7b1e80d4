//! The mesher that merges exposed faces of one plane into rectangles.

use crate::buffer::{bit, lemma_bit_set, PopBuffer, VisitedBuffer};
use crate::exposure::{exposed, facing, lemma_facing_index};
use crate::geometry::face::{FaceStrides, OrientedBlockFace};
use crate::geometry::quad::UnorientedQuad;
use crate::geometry::shape::ChunkShape;
use crate::geometry::vector::UVec3;
use crate::grid::{coarse, coarse_coordinate, coarsen, round_up, round_up_coordinate};
use crate::voxel::{face_exposed, MergeVoxel, MeshVoxel, VoxelVisibility};
use vstd::arithmetic::power2::pow2;
use vstd::prelude::*;
use vstd::std_specs::bits::u32_leading_zeros;
use vstd::std_specs::cmp::PartialEqSpec;

verus! {

/// The offset that a stride stands for: a stride of 2^31 and more stands for
/// a step back, by as much as it lacks to 2^32.
pub open spec fn signed_stride(stride: u32) -> int {
    if stride < 0x8000_0000 {
        stride as int
    } else {
        stride - 0x1_0000_0000
    }
}

/// Whether the cell with index `index` needs a quad on the face that looks
/// at the cell with index `neighbor`: no quad covers it yet, and the face is
/// exposed.
pub open spec fn needs_mesh_at<V: MeshVoxel>(
    voxels: Seq<V>,
    visited: Seq<u8>,
    index: int,
    neighbor: int,
) -> bool {
    &&& !bit(visited[index], 0)
    &&& face_exposed(voxels[index].visibility(), voxels[neighbor].visibility())
}

/// Whether the cell with index `index` can join a quad whose first cell has
/// the merge value `merge_value` and looks at a cell with the merge value
/// `merge_neighbor_value`.
pub open spec fn merges_at<V: MergeVoxel>(
    voxels: Seq<V>,
    visited: Seq<u8>,
    merge_value: V::MergeValue,
    merge_neighbor_value: V::MergeValueFacingNeighbour,
    index: int,
    neighbor: int,
) -> bool {
    &&& needs_mesh_at(voxels, visited, index, neighbor)
    &&& voxels[index].merge_value_of().eq_spec(&merge_value)
    &&& voxels[neighbor].merge_value_facing_neighbour_of().eq_spec(&merge_neighbor_value)
}

/// How many cells in a row, from the cell with index `index` on and at most
/// `limit`, can join the quad: the row ends before the first cell that
/// cannot.
pub open spec fn width_at<V: MergeVoxel>(
    voxels: Seq<V>,
    visited: Seq<u8>,
    merge_value: V::MergeValue,
    merge_neighbor_value: V::MergeValueFacingNeighbour,
    index: int,
    n_offset: int,
    u_stride: int,
    limit: nat,
) -> nat
    decreases limit,
{
    if limit == 0 {
        0
    } else if merges_at(
        voxels,
        visited,
        merge_value,
        merge_neighbor_value,
        index,
        index + n_offset,
    ) {
        1 + width_at(
            voxels,
            visited,
            merge_value,
            merge_neighbor_value,
            index + u_stride,
            n_offset,
            u_stride,
            (limit - 1) as nat,
        )
    } else {
        0
    }
}

/// How many rows, from the row that starts at the cell with index `index`
/// on and at most `limit`, can join the quad with all of their first `width`
/// cells.
pub open spec fn height_at<V: MergeVoxel>(
    voxels: Seq<V>,
    visited: Seq<u8>,
    merge_value: V::MergeValue,
    merge_neighbor_value: V::MergeValueFacingNeighbour,
    index: int,
    n_offset: int,
    u_stride: int,
    v_stride: int,
    width: nat,
    limit: nat,
) -> nat
    decreases limit,
{
    if limit == 0 {
        0
    } else if width_at(
        voxels,
        visited,
        merge_value,
        merge_neighbor_value,
        index,
        n_offset,
        u_stride,
        width,
    ) >= width {
        1 + height_at(
            voxels,
            visited,
            merge_value,
            merge_neighbor_value,
            index + v_stride,
            n_offset,
            u_stride,
            v_stride,
            width,
            (limit - 1) as nat,
        )
    } else {
        0
    }
}

/// Whether the `rows` rows of `count` cells that start at the cell with
/// index `index`, and the cells that they look at, have indices below `len`.
pub open spec fn rows_in_bounds(
    len: int,
    index: int,
    n_offset: int,
    u_stride: int,
    v_stride: int,
    count: int,
    rows: int,
) -> bool {
    count <= 0 || rows <= 0 || {
        &&& len <= 0x1_0000_0000
        &&& 0 <= index
        &&& 0 <= index + n_offset
        &&& index + (rows - 1) * v_stride + (count - 1) * u_stride < len
        &&& index + (rows - 1) * v_stride + (count - 1) * u_stride + n_offset < len
    }
}

/// Whether a face of `voxel` needs a quad where it looks at `neighbor`: no
/// quad covers the cell with index `index` yet, the voxel is not empty, and
/// the neighbour lets the face be seen.
#[inline]
pub fn face_needs_mesh<T>(visited: &[u8], index: u32, voxel: &T, neighbor: &T) -> (r: bool) where
    T: MeshVoxel,

    requires
        voxel.visibility() != VoxelVisibility::Empty ==> index < visited@.len(),
    ensures
        r == (face_exposed(voxel.visibility(), neighbor.visibility()) && !bit(
            visited@[index as int],
            0,
        )),
{
    let visibility = voxel.get_visibility();
    proof {
        assert(1u8 << 0u8 == 1u8) by (bit_vector);
    }
    visibility != VoxelVisibility::Empty && visited[index as usize] & 1 == 0
        && match neighbor.get_visibility() {
        VoxelVisibility::Empty => true,
        VoxelVisibility::Translucent => visibility == VoxelVisibility::Opaque,
        VoxelVisibility::Opaque => false,
    }
}

/// With a width of 0 every row joins.
pub proof fn lemma_height_at_no_width<V: MergeVoxel>(
    voxels: Seq<V>,
    visited: Seq<u8>,
    merge_value: V::MergeValue,
    merge_neighbor_value: V::MergeValueFacingNeighbour,
    index: int,
    n_offset: int,
    u_stride: int,
    v_stride: int,
    limit: nat,
)
    ensures
        height_at(
            voxels,
            visited,
            merge_value,
            merge_neighbor_value,
            index,
            n_offset,
            u_stride,
            v_stride,
            0,
            limit,
        ) == limit,
    decreases limit,
{
    if limit > 0 {
        lemma_height_at_no_width(
            voxels,
            visited,
            merge_value,
            merge_neighbor_value,
            index + v_stride,
            n_offset,
            u_stride,
            v_stride,
            (limit - 1) as nat,
        );
    }
}

/// The number of cells, from the cell with index `index` on and at most
/// `max_width`, that can join a quad with the merge values `merge_value` and
/// `merge_neighbor_value`. From one cell to the next the index grows by
/// `u_stride`; a cell looks at the cell `n_stride` further.
#[inline]
pub fn get_max_width<T>(
    voxels: &[T],
    visited: &[u8],
    merge_value: &T::MergeValue,
    merge_neighbor_value: &T::MergeValueFacingNeighbour,
    index: u32,
    n_stride: u32,
    u_stride: u32,
    max_width: u32,
) -> (r: u32) where T: MergeVoxel
    requires
        T::MergeValue::obeys_eq_spec(),
        T::MergeValueFacingNeighbour::obeys_eq_spec(),
        visited@.len() == voxels@.len(),
        rows_in_bounds(
            voxels@.len() as int,
            index as int,
            signed_stride(n_stride),
            u_stride as int,
            0,
            max_width as int,
            1,
        ),
    ensures
        r == width_at(
            voxels@,
            visited@,
            *merge_value,
            *merge_neighbor_value,
            index as int,
            signed_stride(n_stride),
            u_stride as int,
            max_width as nat,
        ),
        r <= max_width,
{
    let ghost n_offset = signed_stride(n_stride);
    let mut current = index;
    let mut width: u32 = 0;
    while width < max_width
        invariant
            T::MergeValue::obeys_eq_spec(),
            T::MergeValueFacingNeighbour::obeys_eq_spec(),
            visited@.len() == voxels@.len(),
            n_offset == signed_stride(n_stride),
            rows_in_bounds(
                voxels@.len() as int,
                index as int,
                n_offset,
                u_stride as int,
                0,
                max_width as int,
                1,
            ),
            width <= max_width,
            width < max_width ==> current == index + width * u_stride,
            width_at(
                voxels@,
                visited@,
                *merge_value,
                *merge_neighbor_value,
                index as int,
                n_offset,
                u_stride as int,
                max_width as nat,
            ) == width + width_at(
                voxels@,
                visited@,
                *merge_value,
                *merge_neighbor_value,
                index + width * u_stride,
                n_offset,
                u_stride as int,
                (max_width - width) as nat,
            ),
        decreases max_width - width,
    {
        proof {
            assert(0 <= width * u_stride <= (max_width - 1) * u_stride) by (nonlinear_arith)
                requires
                    0 <= width <= max_width - 1,
                    0 <= u_stride,
            ;
            assert((width + 1) * u_stride == width * u_stride + u_stride) by (nonlinear_arith);
        }
        let voxel = &voxels[current as usize];
        let neighbor_index = current.wrapping_add(n_stride);
        assert(neighbor_index == current + n_offset);
        let neighbor = &voxels[neighbor_index as usize];

        let joins = face_needs_mesh(visited, current, voxel, neighbor) && voxel.merge_value().eq(
            merge_value,
        ) && neighbor.merge_value_facing_neighbour().eq(merge_neighbor_value);
        assert(joins == merges_at(
            voxels@,
            visited@,
            *merge_value,
            *merge_neighbor_value,
            current as int,
            current + n_offset,
        ));
        if !joins {
            return width;
        }
        width += 1;
        if width < max_width {
            proof {
                assert(width * u_stride <= (max_width - 1) * u_stride) by (nonlinear_arith)
                    requires
                        0 <= width <= max_width - 1,
                        0 <= u_stride,
                ;
            }
            current += u_stride;
        }
    }
    width
}

/// The height of the quad of width `width` whose second row starts at the
/// cell with index `index`, where the quad may be `max_height` rows high at
/// most: one more than the number of rows, from that row on, whose first
/// `width` cells can all join the quad. From one row to the next the index
/// grows by `v_stride`.
#[inline]
pub fn get_max_height<T>(
    voxels: &[T],
    visited: &[u8],
    merge_value: &T::MergeValue,
    merge_neighbor_value: &T::MergeValueFacingNeighbour,
    index: u32,
    n_stride: u32,
    u_stride: u32,
    v_stride: u32,
    width: u32,
    max_height: u32,
) -> (r: u32) where T: MergeVoxel
    requires
        T::MergeValue::obeys_eq_spec(),
        T::MergeValueFacingNeighbour::obeys_eq_spec(),
        visited@.len() == voxels@.len(),
        rows_in_bounds(
            voxels@.len() as int,
            index as int,
            signed_stride(n_stride),
            u_stride as int,
            v_stride as int,
            width as int,
            max_height - 1,
        ),
    ensures
        max_height == 0 ==> r == 0,
        max_height > 0 ==> r == 1 + height_at(
            voxels@,
            visited@,
            *merge_value,
            *merge_neighbor_value,
            index as int,
            signed_stride(n_stride),
            u_stride as int,
            v_stride as int,
            width as nat,
            (max_height - 1) as nat,
        ),
        r <= max_height,
{
    let ghost n_offset = signed_stride(n_stride);
    let mut current = index;
    let mut height: u32 = 1;
    if max_height == 0 {
        return 0;
    }
    while height < max_height
        invariant
            T::MergeValue::obeys_eq_spec(),
            T::MergeValueFacingNeighbour::obeys_eq_spec(),
            visited@.len() == voxels@.len(),
            n_offset == signed_stride(n_stride),
            rows_in_bounds(
                voxels@.len() as int,
                index as int,
                n_offset,
                u_stride as int,
                v_stride as int,
                width as int,
                max_height - 1,
            ),
            1 <= height <= max_height,
            width > 0 && height < max_height ==> current == index + (height - 1) * v_stride,
            height_at(
                voxels@,
                visited@,
                *merge_value,
                *merge_neighbor_value,
                index as int,
                n_offset,
                u_stride as int,
                v_stride as int,
                width as nat,
                (max_height - 1) as nat,
            ) == (height - 1) + height_at(
                voxels@,
                visited@,
                *merge_value,
                *merge_neighbor_value,
                if width > 0 {
                    index + (height - 1) * v_stride
                } else {
                    current as int
                },
                n_offset,
                u_stride as int,
                v_stride as int,
                width as nat,
                (max_height - height) as nat,
            ),
        decreases max_height - height,
    {
        proof {
            assert(0 <= (height - 1) * v_stride <= (max_height - 2) * v_stride) by (nonlinear_arith)
                requires
                    0 <= height - 1 <= max_height - 2,
                    0 <= v_stride,
            ;
            assert(height * v_stride == (height - 1) * v_stride + v_stride) by (nonlinear_arith);
            assert(0 * v_stride == 0);
            if width == 0 {
                lemma_height_at_no_width(
                    voxels@,
                    visited@,
                    *merge_value,
                    *merge_neighbor_value,
                    current as int,
                    n_offset,
                    u_stride as int,
                    v_stride as int,
                    (max_height - height) as nat,
                );
                lemma_height_at_no_width(
                    voxels@,
                    visited@,
                    *merge_value,
                    *merge_neighbor_value,
                    vstd::wrapping::u32_specs::wrapping_add(current, v_stride) as int,
                    n_offset,
                    u_stride as int,
                    v_stride as int,
                    (max_height - height - 1) as nat,
                );
            }
        }
        let row_width = get_max_width(
            voxels,
            visited,
            merge_value,
            merge_neighbor_value,
            current,
            n_stride,
            u_stride,
            width,
        );

        if row_width < width {
            return height;
        }
        proof {
            if width > 0 && height + 1 < max_height {
                assert(height * v_stride <= (max_height - 2) * v_stride) by (nonlinear_arith)
                    requires
                        0 <= height <= max_height - 2,
                        0 <= v_stride,
                ;
                assert(0 <= (width - 1) * u_stride) by (nonlinear_arith)
                    requires
                        0 <= width - 1,
                        0 <= u_stride,
                ;
            }
        }
        current = current.wrapping_add(v_stride);
        height += 1;
    }
    max_height
}

/// The index of the cell `u` steps along U and `v` steps along V from the
/// cell with index `minimum_index`.
pub open spec fn rect_index(
    minimum_index: int,
    u_stride: int,
    v_stride: int,
    u: int,
    v: int,
) -> int {
    minimum_index + u_stride * u + v_stride * v
}

/// Whether `i` is the index of one of the first cells of a rectangle of rows
/// of `height` cells: a cell of one of the first `u` rows, or one of the
/// first `v` cells of the row after them.
pub open spec fn in_rect_upto(
    i: int,
    minimum_index: int,
    u_stride: int,
    v_stride: int,
    height: int,
    u: int,
    v: int,
) -> bool {
    exists|a: int, b: int|
        0 <= a && 0 <= b < height && (a < u || (a == u && b < v)) && i == #[trigger] rect_index(
            minimum_index,
            u_stride,
            v_stride,
            a,
            b,
        )
}

/// Whether `i` is the index of a cell of the rectangle of `width` by `height`
/// cells whose first cell has the index `minimum_index`.
pub open spec fn in_rect(
    i: int,
    minimum_index: int,
    u_stride: int,
    v_stride: int,
    width: int,
    height: int,
) -> bool {
    in_rect_upto(i, minimum_index, u_stride, v_stride, height, width, 0)
}

/// What one more cell adds to the first cells of a rectangle.
proof fn lemma_in_rect_step(
    i: int,
    minimum_index: int,
    u_stride: int,
    v_stride: int,
    height: int,
    u: int,
    v: int,
)
    requires
        0 <= u,
        0 <= v < height,
    ensures
        in_rect_upto(i, minimum_index, u_stride, v_stride, height, u, v + 1) <==> in_rect_upto(
            i,
            minimum_index,
            u_stride,
            v_stride,
            height,
            u,
            v,
        ) || i == rect_index(minimum_index, u_stride, v_stride, u, v),
        in_rect_upto(i, minimum_index, u_stride, v_stride, height, u, height) <==> in_rect_upto(
            i,
            minimum_index,
            u_stride,
            v_stride,
            height,
            u + 1,
            0,
        ),
        !in_rect_upto(i, minimum_index, u_stride, v_stride, height, 0, 0),
{
    if in_rect_upto(i, minimum_index, u_stride, v_stride, height, u, v + 1) {
        let (a, b) = choose|a: int, b: int|
            0 <= a && 0 <= b < height && (a < u || (a == u && b < v + 1)) && i
                == #[trigger] rect_index(minimum_index, u_stride, v_stride, a, b);
        if !(a == u && b == v) {
            assert(0 <= a && 0 <= b < height && (a < u || (a == u && b < v)) && i == rect_index(
                minimum_index,
                u_stride,
                v_stride,
                a,
                b,
            ));
        }
    }
    if in_rect_upto(i, minimum_index, u_stride, v_stride, height, u, v) {
        let (a, b) = choose|a: int, b: int|
            0 <= a && 0 <= b < height && (a < u || (a == u && b < v)) && i == #[trigger] rect_index(
                minimum_index,
                u_stride,
                v_stride,
                a,
                b,
            );
        assert(0 <= a && 0 <= b < height && (a < u || (a == u && b < v + 1)) && i == rect_index(
            minimum_index,
            u_stride,
            v_stride,
            a,
            b,
        ));
    }
    if i == rect_index(minimum_index, u_stride, v_stride, u, v) {
        assert(0 <= u && 0 <= v < height && (u < u || (u == u && v < v + 1)) && i == rect_index(
            minimum_index,
            u_stride,
            v_stride,
            u,
            v,
        ));
    }
    if in_rect_upto(i, minimum_index, u_stride, v_stride, height, u, height) {
        let (a, b) = choose|a: int, b: int|
            0 <= a && 0 <= b < height && (a < u || (a == u && b < height)) && i
                == #[trigger] rect_index(minimum_index, u_stride, v_stride, a, b);
        assert(0 <= a && 0 <= b < height && (a < u + 1 || (a == u + 1 && b < 0)) && i
            == rect_index(minimum_index, u_stride, v_stride, a, b));
    }
    if in_rect_upto(i, minimum_index, u_stride, v_stride, height, u + 1, 0) {
        let (a, b) = choose|a: int, b: int|
            0 <= a && 0 <= b < height && (a < u + 1 || (a == u + 1 && b < 0)) && i
                == #[trigger] rect_index(minimum_index, u_stride, v_stride, a, b);
        assert(0 <= a && 0 <= b < height && (a < u || (a == u && b < height)) && i == rect_index(
            minimum_index,
            u_stride,
            v_stride,
            a,
            b,
        ));
    }
}

/// Marks, for the level of detail `lod`, each cell of the rectangle `quad`
/// whose first cell has the index `minimum_index`.
#[inline]
fn mark_visited(
    visited: &mut VisitedBuffer,
    quad: UnorientedQuad,
    minimum_index: u32,
    u_stride: u32,
    v_stride: u32,
    lod: usize,
)
    requires
        lod < 8,
        old(visited)@.len() <= 0x1_0000_0000,
        quad.width > 0 && quad.height > 0 ==> rect_index(
            minimum_index as int,
            u_stride as int,
            v_stride as int,
            quad.width - 1,
            quad.height - 1,
        ) < old(visited)@.len(),
    ensures
        final(visited)@.len() == old(visited)@.len(),
        forall|i: int, l: int|
            0 <= i < old(visited)@.len() && 0 <= l < 8 ==> (#[trigger] bit(final(visited)@[i], l)
                <==> bit(old(visited)@[i], l) || (l == lod && in_rect(
                i,
                minimum_index as int,
                u_stride as int,
                v_stride as int,
                quad.width as int,
                quad.height as int,
            ))),
{
    let ghost start = visited@;
    let mut u: u32 = 0;
    proof {
        assert forall|i: int|
            !in_rect_upto(
                i,
                minimum_index as int,
                u_stride as int,
                v_stride as int,
                quad.height as int,
                0,
                0,
            ) by {
            if quad.height > 0 {
                lemma_in_rect_step(
                    i,
                    minimum_index as int,
                    u_stride as int,
                    v_stride as int,
                    quad.height as int,
                    0,
                    0,
                );
            }
        }
    }
    while u < quad.width
        invariant
            lod < 8,
            u <= quad.width,
            visited@.len() == start.len(),
            start.len() <= 0x1_0000_0000,
            quad.width > 0 && quad.height > 0 ==> rect_index(
                minimum_index as int,
                u_stride as int,
                v_stride as int,
                quad.width - 1,
                quad.height - 1,
            ) < start.len(),
            forall|i: int, l: int|
                0 <= i < start.len() && 0 <= l < 8 ==> (#[trigger] bit(visited@[i], l) <==> bit(
                    start[i],
                    l,
                ) || (l == lod && in_rect_upto(
                    i,
                    minimum_index as int,
                    u_stride as int,
                    v_stride as int,
                    quad.height as int,
                    u as int,
                    0,
                ))),
        decreases quad.width - u,
    {
        let mut v: u32 = 0;
        while v < quad.height
            invariant
                lod < 8,
                u < quad.width,
                v <= quad.height,
                visited@.len() == start.len(),
                start.len() <= 0x1_0000_0000,
                quad.width > 0 && quad.height > 0 ==> rect_index(
                    minimum_index as int,
                    u_stride as int,
                    v_stride as int,
                    quad.width - 1,
                    quad.height - 1,
                ) < start.len(),
                forall|i: int, l: int|
                    0 <= i < start.len() && 0 <= l < 8 ==> (#[trigger] bit(visited@[i], l) <==> bit(
                        start[i],
                        l,
                    ) || (l == lod && in_rect_upto(
                        i,
                        minimum_index as int,
                        u_stride as int,
                        v_stride as int,
                        quad.height as int,
                        u as int,
                        v as int,
                    ))),
            decreases quad.height - v,
        {
            proof {
                assert(0 <= u_stride * u <= u_stride * (quad.width - 1) && 0 <= v_stride * v
                    <= v_stride * (quad.height - 1)) by (nonlinear_arith)
                    requires
                        0 <= u <= quad.width - 1,
                        0 <= v <= quad.height - 1,
                        0 <= u_stride,
                        0 <= v_stride,
                ;
            }
            let index = minimum_index + u_stride * u + v_stride * v;
            let ghost before = visited@;
            let marks = visited.get(index as usize);
            visited.set(index as usize, marks | (1u8 << (lod as u8)));
            proof {
                assert forall|i: int, l: int| 0 <= i < start.len() && 0 <= l < 8 implies (
                #[trigger] bit(visited@[i], l) <==> bit(start[i], l) || (l == lod && in_rect_upto(
                    i,
                    minimum_index as int,
                    u_stride as int,
                    v_stride as int,
                    quad.height as int,
                    u as int,
                    v + 1,
                ))) by {
                    lemma_bit_set(marks, lod as int, l);
                    lemma_in_rect_step(
                        i,
                        minimum_index as int,
                        u_stride as int,
                        v_stride as int,
                        quad.height as int,
                        u as int,
                        v as int,
                    );
                    assert(bit(before[i], l) <==> bit(start[i], l) || (l == lod && in_rect_upto(
                        i,
                        minimum_index as int,
                        u_stride as int,
                        v_stride as int,
                        quad.height as int,
                        u as int,
                        v as int,
                    )));
                }
            }
            v += 1;
        }
        proof {
            assert forall|i: int, l: int| 0 <= i < start.len() && 0 <= l < 8 implies (
            #[trigger] bit(
                visited@[i],
                l,
            ) <==> bit(start[i], l) || (l == lod && in_rect_upto(
                i,
                minimum_index as int,
                u_stride as int,
                v_stride as int,
                quad.height as int,
                u + 1,
                0,
            ))) by {
                if quad.height > 0 {
                    lemma_in_rect_step(
                        i,
                        minimum_index as int,
                        u_stride as int,
                        v_stride as int,
                        quad.height as int,
                        u as int,
                        0,
                    );
                } else {
                    assert(!in_rect_upto(
                        i,
                        minimum_index as int,
                        u_stride as int,
                        v_stride as int,
                        quad.height as int,
                        u + 1,
                        0,
                    ));
                    assert(!in_rect_upto(
                        i,
                        minimum_index as int,
                        u_stride as int,
                        v_stride as int,
                        quad.height as int,
                        u as int,
                        0,
                    ));
                }
            }
        }
        u += 1;
    }
}

/// The number of low bits in which `low` and `high` can differ: 32 less the
/// number of high bits that they have in common.
pub open spec fn span_bits(low: u32, high: u32) -> int {
    32 - u32_leading_zeros(low ^ high)
}

/// The level of detail of the rectangle `quad` on `face`, where there are
/// `levels` levels: the number of bits that its two ends along U span, or
/// that its two ends along V span if those are fewer, and the highest level
/// at most.
pub open spec fn quad_lod(quad: UnorientedQuad, face: OrientedBlockFace, levels: nat) -> int {
    let u_min = quad.minimum.along(face.u) as u32;
    let u_max = (u_min + quad.width) as u32;
    let v_min = quad.minimum.along(face.v) as u32;
    let v_max = (v_min + quad.height) as u32;
    let u_bits = span_bits(u_min, u_max);
    let v_bits = span_bits(v_min, v_max);
    let bits = if u_bits <= v_bits {
        u_bits
    } else {
        v_bits
    };
    if levels == 0 {
        0
    } else if bits <= levels - 1 {
        bits
    } else {
        levels - 1
    }
}

/// The level of detail of the rectangle `quad` on `face`, of `M` levels.
#[inline]
fn find_max_lod<const M: usize>(quad: UnorientedQuad, face: OrientedBlockFace) -> (r: usize)
    requires
        face.wf(),
        quad.minimum.along(face.u) + quad.width <= u32::MAX,
        quad.minimum.along(face.v) + quad.height <= u32::MAX,
    ensures
        r == quad_lod(quad, face, M as nat),
        M > 0 ==> r < M,
{
    proof {
        UVec3::lemma_dot_unit(quad.minimum, face.u);
        UVec3::lemma_dot_unit(quad.minimum, face.v);
    }
    let u_min = face.u.dot(quad.minimum);
    let u_max = u_min + quad.width;
    let v_min = face.v.dot(quad.minimum);
    let v_max = v_min + quad.height;
    proof {
        vstd::std_specs::bits::axiom_u32_leading_zeros(u_min ^ u_max);
        vstd::std_specs::bits::axiom_u32_leading_zeros(v_min ^ v_max);
    }
    let u_bits = 32 - (u_min ^ u_max).leading_zeros();
    let v_bits = 32 - (v_min ^ v_max).leading_zeros();
    let bits = if u_bits <= v_bits {
        u_bits
    } else {
        v_bits
    };
    if M == 0 {
        0
    } else if bits as usize <= M - 1 {
        bits as usize
    } else {
        M - 1
    }
}

/// Whether the rectangle `quad` on `face` holds the cell `p`.
pub open spec fn quad_covers(quad: UnorientedQuad, face: OrientedBlockFace, p: UVec3) -> bool {
    &&& p.along(face.n) == quad.minimum.along(face.n)
    &&& quad.minimum.along(face.u) <= p.along(face.u) < quad.minimum.along(face.u) + quad.width
    &&& quad.minimum.along(face.v) <= p.along(face.v) < quad.minimum.along(face.v) + quad.height
}

/// Whether one of the rectangles `quads` on `face` holds the cell `p`.
pub open spec fn covered(quads: Seq<UnorientedQuad>, face: OrientedBlockFace, p: UVec3) -> bool {
    exists|i: int| 0 <= i < quads.len() && quad_covers(#[trigger] quads[i], face, p)
}

/// Whether the cell `p` can join a rectangle on `face` that starts at the
/// cell `origin`: none of the rectangles `done` holds it, its face is
/// exposed, its merge value is that of `origin`, and the cell that it looks
/// at has the merge value of the cell that `origin` looks at.
pub open spec fn joins<const X: u32, const Y: u32, const Z: u32, V: MergeVoxel>(
    voxels: Seq<V>,
    face: OrientedBlockFace,
    done: Seq<UnorientedQuad>,
    origin: UVec3,
    p: UVec3,
) -> bool {
    &&& !covered(done, face, p)
    &&& exposed::<X, Y, Z, V>(voxels, face, p)
    &&& voxels[ChunkShape::<X, Y, Z>::linearize_spec(p)].merge_value_of().eq_spec(
        &voxels[ChunkShape::<X, Y, Z>::linearize_spec(origin)].merge_value_of(),
    )
    &&& voxels[ChunkShape::<X, Y, Z>::linearize_spec(
        facing(face, p),
    )].merge_value_facing_neighbour_of().eq_spec(
        &voxels[ChunkShape::<X, Y, Z>::linearize_spec(
            facing(face, origin),
        )].merge_value_facing_neighbour_of(),
    )
}

/// How many cells along U, from `start` on and at most `limit`, can join the
/// rectangle that starts at `origin`: the run ends before the first cell
/// that cannot.
pub open spec fn run_width<const X: u32, const Y: u32, const Z: u32, V: MergeVoxel>(
    voxels: Seq<V>,
    face: OrientedBlockFace,
    done: Seq<UnorientedQuad>,
    origin: UVec3,
    start: UVec3,
    limit: nat,
) -> nat
    decreases limit,
{
    if limit == 0 {
        0
    } else if joins::<X, Y, Z, V>(voxels, face, done, origin, start) {
        1 + run_width::<X, Y, Z, V>(
            voxels,
            face,
            done,
            origin,
            start.shifted(face.u, 1),
            (limit - 1) as nat,
        )
    } else {
        0
    }
}

/// How many rows along V, from the row that starts at `start` on and at
/// most `limit`, can join the rectangle that starts at `origin` with all of
/// their first `width` cells.
pub open spec fn run_height<const X: u32, const Y: u32, const Z: u32, V: MergeVoxel>(
    voxels: Seq<V>,
    face: OrientedBlockFace,
    done: Seq<UnorientedQuad>,
    origin: UVec3,
    start: UVec3,
    width: nat,
    limit: nat,
) -> nat
    decreases limit,
{
    if limit == 0 {
        0
    } else if run_width::<X, Y, Z, V>(voxels, face, done, origin, start, width) >= width {
        1 + run_height::<X, Y, Z, V>(
            voxels,
            face,
            done,
            origin,
            start.shifted(face.v, 1),
            width,
            (limit - 1) as nat,
        )
    } else {
        0
    }
}

/// The rectangle that starts at the cell `p`, where the rectangles `done`
/// are there already: as wide as cells can join along U, up to the end of
/// the interior, and then as high as whole rows of that width can join.
pub open spec fn greedy_quad<const X: u32, const Y: u32, const Z: u32, V: MergeVoxel>(
    voxels: Seq<V>,
    face: OrientedBlockFace,
    done: Seq<UnorientedQuad>,
    p: UVec3,
) -> UnorientedQuad {
    let width = run_width::<X, Y, Z, V>(
        voxels,
        face,
        done,
        p,
        p,
        (ChunkShape::<X, Y, Z>::dim(face.u) - 1 - p.along(face.u)) as nat,
    );
    let height = 1 + run_height::<X, Y, Z, V>(
        voxels,
        face,
        done,
        p,
        p.shifted(face.v, 1),
        width,
        (ChunkShape::<X, Y, Z>::dim(face.v) - 2 - p.along(face.v)) as nat,
    );
    UnorientedQuad { minimum: p, width: width as u32, height: height as u32 }
}

/// The rectangles `done` and those that the first `k` cells of the plane `n`
/// of `face` add to them. A cell adds a rectangle where its face is exposed
/// and no rectangle holds it yet.
pub open spec fn plane_quads_upto<const X: u32, const Y: u32, const Z: u32, V: MergeVoxel>(
    voxels: Seq<V>,
    face: OrientedBlockFace,
    n: int,
    done: Seq<UnorientedQuad>,
    k: int,
) -> Seq<UnorientedQuad>
    decreases k,
{
    if k <= 0 {
        done
    } else {
        let before = plane_quads_upto::<X, Y, Z, V>(voxels, face, n, done, k - 1);
        let p = ChunkShape::<X, Y, Z>::slice_cell(face, n, k - 1);
        if !covered(before, face, p) && exposed::<X, Y, Z, V>(voxels, face, p) {
            before.push(greedy_quad::<X, Y, Z, V>(voxels, face, before, p))
        } else {
            before
        }
    }
}

/// The rectangles of the planes 1 to `planes` of `face`.
pub open spec fn face_quads_upto<const X: u32, const Y: u32, const Z: u32, V: MergeVoxel>(
    voxels: Seq<V>,
    face: OrientedBlockFace,
    planes: int,
) -> Seq<UnorientedQuad>
    decreases planes,
{
    if planes <= 0 {
        Seq::empty()
    } else {
        plane_quads_upto::<X, Y, Z, V>(
            voxels,
            face,
            planes,
            face_quads_upto::<X, Y, Z, V>(voxels, face, planes - 1),
            ChunkShape::<X, Y, Z>::slice_len(face),
        )
    }
}

/// The rectangles of `face`: those of its interior planes, plane by plane,
/// each plane row by row.
pub open spec fn greedy_face_quads<const X: u32, const Y: u32, const Z: u32, V: MergeVoxel>(
    voxels: Seq<V>,
    face: OrientedBlockFace,
) -> Seq<UnorientedQuad> {
    face_quads_upto::<X, Y, Z, V>(voxels, face, ChunkShape::<X, Y, Z>::dim(face.n) - 2)
}

/// Those of the rectangles `quads` on `face` whose level of detail is `lod`,
/// in their order.
pub open spec fn quads_of_level(
    quads: Seq<UnorientedQuad>,
    face: OrientedBlockFace,
    lod: int,
    levels: nat,
) -> Seq<UnorientedQuad> {
    quads.filter(|quad: UnorientedQuad| quad_lod(quad, face, levels) == lod)
}

/// Whether the marks of level 0 in `visited` are on the cells that the
/// rectangles `done` hold.
pub open spec fn covered_match<const X: u32, const Y: u32, const Z: u32>(
    visited: Seq<u8>,
    done: Seq<UnorientedQuad>,
    face: OrientedBlockFace,
) -> bool {
    &&& visited.len() == ChunkShape::<X, Y, Z>::volume()
    &&& forall|c: UVec3|
        ChunkShape::<X, Y, Z>::contains(c) ==> (bit(
            visited[ChunkShape::<X, Y, Z>::linearize_spec(c)],
            0,
        ) <==> #[trigger] covered(done, face, c))
}

/// The stride along the normal of a face stands for a step to the cell that
/// the face looks at.
pub proof fn lemma_signed_stride<const X: u32, const Y: u32, const Z: u32>(
    face: OrientedBlockFace,
    n_stride: u32,
)
    requires
        ChunkShape::<X, Y, Z>::valid(),
        face.wf(),
        n_stride == if face.is_front {
            ChunkShape::<X, Y, Z>::stride(face.n)
        } else {
            0x1_0000_0000 - ChunkShape::<X, Y, Z>::stride(face.n)
        },
    ensures
        signed_stride(n_stride) == face.n_sign * ChunkShape::<X, Y, Z>::stride(face.n),
        0 < ChunkShape::<X, Y, Z>::stride(face.u) <= u32::MAX,
        0 < ChunkShape::<X, Y, Z>::stride(face.v) <= u32::MAX,
{
    let a = X as int;
    let b = Y as int;
    let c = Z as int;
    assert(0 < a * b && 3 * (a * b) <= a * b * c && a <= a * b) by (nonlinear_arith)
        requires
            a >= 3,
            b >= 3,
            c >= 3,
    ;
    let s = ChunkShape::<X, Y, Z>::stride(face.n);
    assert(1 * s == s && (-1) * s == -s);
}

/// A run of cells of the interior is as wide by the marks and indices as it
/// is by the rectangles and cells.
pub proof fn lemma_width_at_is_run_width<const X: u32, const Y: u32, const Z: u32, V: MergeVoxel>(
    voxels: Seq<V>,
    visited: Seq<u8>,
    face: OrientedBlockFace,
    done: Seq<UnorientedQuad>,
    origin: UVec3,
    start: UVec3,
    limit: nat,
)
    requires
        ChunkShape::<X, Y, Z>::valid(),
        face.wf(),
        covered_match::<X, Y, Z>(visited, done, face),
        limit > 0 ==> ChunkShape::<X, Y, Z>::is_interior(start),
        start.along(face.u) + limit <= ChunkShape::<X, Y, Z>::dim(face.u) - 1,
    ensures
        width_at(
            voxels,
            visited,
            voxels[ChunkShape::<X, Y, Z>::linearize_spec(origin)].merge_value_of(),
            voxels[ChunkShape::<X, Y, Z>::linearize_spec(
                facing(face, origin),
            )].merge_value_facing_neighbour_of(),
            ChunkShape::<X, Y, Z>::linearize_spec(start),
            face.n_sign * ChunkShape::<X, Y, Z>::stride(face.n),
            ChunkShape::<X, Y, Z>::stride(face.u),
            limit,
        ) == run_width::<X, Y, Z, V>(voxels, face, done, origin, start, limit),
        run_width::<X, Y, Z, V>(voxels, face, done, origin, start, limit) <= limit,
    decreases limit,
{
    if limit > 0 {
        lemma_facing_index::<X, Y, Z>(face, start);
        ChunkShape::<X, Y, Z>::lemma_linearize_shifted(start, face.u, 1);
        let s = ChunkShape::<X, Y, Z>::stride(face.u);
        assert(1 * s == s);
        assert(covered(done, face, start) <==> bit(
            visited[ChunkShape::<X, Y, Z>::linearize_spec(start)],
            0,
        ));
        lemma_width_at_is_run_width::<X, Y, Z, V>(
            voxels,
            visited,
            face,
            done,
            origin,
            start.shifted(face.u, 1),
            (limit - 1) as nat,
        );
    }
}

/// A run of rows of the interior is as high by the marks and indices as it
/// is by the rectangles and cells.
pub proof fn lemma_height_at_is_run_height<
    const X: u32,
    const Y: u32,
    const Z: u32,
    V: MergeVoxel,
>(
    voxels: Seq<V>,
    visited: Seq<u8>,
    face: OrientedBlockFace,
    done: Seq<UnorientedQuad>,
    origin: UVec3,
    start: UVec3,
    width: nat,
    limit: nat,
)
    requires
        ChunkShape::<X, Y, Z>::valid(),
        face.wf(),
        covered_match::<X, Y, Z>(visited, done, face),
        limit > 0 ==> ChunkShape::<X, Y, Z>::is_interior(start),
        start.along(face.u) + width <= ChunkShape::<X, Y, Z>::dim(face.u) - 1,
        start.along(face.v) + limit <= ChunkShape::<X, Y, Z>::dim(face.v) - 1,
    ensures
        height_at(
            voxels,
            visited,
            voxels[ChunkShape::<X, Y, Z>::linearize_spec(origin)].merge_value_of(),
            voxels[ChunkShape::<X, Y, Z>::linearize_spec(
                facing(face, origin),
            )].merge_value_facing_neighbour_of(),
            ChunkShape::<X, Y, Z>::linearize_spec(start),
            face.n_sign * ChunkShape::<X, Y, Z>::stride(face.n),
            ChunkShape::<X, Y, Z>::stride(face.u),
            ChunkShape::<X, Y, Z>::stride(face.v),
            width,
            limit,
        ) == run_height::<X, Y, Z, V>(voxels, face, done, origin, start, width, limit),
        run_height::<X, Y, Z, V>(voxels, face, done, origin, start, width, limit) <= limit,
    decreases limit,
{
    if limit > 0 {
        lemma_width_at_is_run_width::<X, Y, Z, V>(
            voxels,
            visited,
            face,
            done,
            origin,
            start,
            width,
        );
        ChunkShape::<X, Y, Z>::lemma_linearize_shifted(start, face.v, 1);
        let s = ChunkShape::<X, Y, Z>::stride(face.v);
        assert(1 * s == s);
        lemma_height_at_is_run_height::<X, Y, Z, V>(
            voxels,
            visited,
            face,
            done,
            origin,
            start.shifted(face.v, 1),
            width,
            (limit - 1) as nat,
        );
    }
}

/// One more rectangle holds the cells that it holds itself, besides those
/// that the others hold.
pub proof fn lemma_covered_push(
    quads: Seq<UnorientedQuad>,
    quad: UnorientedQuad,
    face: OrientedBlockFace,
    p: UVec3,
)
    ensures
        covered(quads.push(quad), face, p) <==> covered(quads, face, p) || quad_covers(
            quad,
            face,
            p,
        ),
{
    let grown = quads.push(quad);
    if covered(grown, face, p) {
        let i = choose|i: int| 0 <= i < grown.len() && quad_covers(#[trigger] grown[i], face, p);
        if i < quads.len() {
            assert(quad_covers(quads[i], face, p));
        }
    }
    if covered(quads, face, p) {
        let i = choose|i: int| 0 <= i < quads.len() && quad_covers(#[trigger] quads[i], face, p);
        assert(quad_covers(grown[i], face, p));
    }
    if quad_covers(quad, face, p) {
        assert(quad_covers(grown[quads.len() as int], face, p));
    }
}

/// The cell `steps_u` along U and `steps_v` along V from an interior cell
/// `p`, where that is a cell of the interior too: its coordinates and its
/// index.
pub proof fn lemma_cell_in_rect<const X: u32, const Y: u32, const Z: u32>(
    face: OrientedBlockFace,
    p: UVec3,
    steps_u: int,
    steps_v: int,
)
    requires
        ChunkShape::<X, Y, Z>::valid(),
        face.wf(),
        ChunkShape::<X, Y, Z>::is_interior(p),
        0 <= steps_u,
        0 <= steps_v,
        p.along(face.u) + steps_u <= ChunkShape::<X, Y, Z>::dim(face.u) - 2,
        p.along(face.v) + steps_v <= ChunkShape::<X, Y, Z>::dim(face.v) - 2,
    ensures
        ({
            let q = p.shifted(face.u, steps_u).shifted(face.v, steps_v);
            &&& ChunkShape::<X, Y, Z>::is_interior(q)
            &&& q.along(face.n) == p.along(face.n)
            &&& q.along(face.u) == p.along(face.u) + steps_u
            &&& q.along(face.v) == p.along(face.v) + steps_v
            &&& ChunkShape::<X, Y, Z>::linearize_spec(q) == rect_index(
                ChunkShape::<X, Y, Z>::linearize_spec(p),
                ChunkShape::<X, Y, Z>::stride(face.u),
                ChunkShape::<X, Y, Z>::stride(face.v),
                steps_u,
                steps_v,
            )
            &&& 0 <= ChunkShape::<X, Y, Z>::linearize_spec(q) < ChunkShape::<X, Y, Z>::volume()
        }),
{
    let q = p.shifted(face.u, steps_u);
    ChunkShape::<X, Y, Z>::lemma_linearize_shifted(p, face.u, steps_u);
    ChunkShape::<X, Y, Z>::lemma_linearize_shifted(q, face.v, steps_v);
    ChunkShape::<X, Y, Z>::lemma_linearize_bound(q.shifted(face.v, steps_v));
    let su = ChunkShape::<X, Y, Z>::stride(face.u);
    let sv = ChunkShape::<X, Y, Z>::stride(face.v);
    assert(steps_u * su == su * steps_u && steps_v * sv == sv * steps_v) by (nonlinear_arith);
}

/// The cells of the chunk whose indices are those of a rectangle of the
/// interior are the cells that the rectangle holds.
pub proof fn lemma_rect_cells<const X: u32, const Y: u32, const Z: u32>(
    face: OrientedBlockFace,
    quad: UnorientedQuad,
    c: UVec3,
)
    requires
        ChunkShape::<X, Y, Z>::valid(),
        face.wf(),
        ChunkShape::<X, Y, Z>::is_interior(quad.minimum),
        quad.minimum.along(face.u) + quad.width <= ChunkShape::<X, Y, Z>::dim(face.u) - 1,
        quad.minimum.along(face.v) + quad.height <= ChunkShape::<X, Y, Z>::dim(face.v) - 1,
        ChunkShape::<X, Y, Z>::contains(c),
    ensures
        in_rect(
            ChunkShape::<X, Y, Z>::linearize_spec(c),
            ChunkShape::<X, Y, Z>::linearize_spec(quad.minimum),
            ChunkShape::<X, Y, Z>::stride(face.u),
            ChunkShape::<X, Y, Z>::stride(face.v),
            quad.width as int,
            quad.height as int,
        ) <==> quad_covers(quad, face, c),
{
    let p = quad.minimum;
    let i = ChunkShape::<X, Y, Z>::linearize_spec(c);
    let base = ChunkShape::<X, Y, Z>::linearize_spec(p);
    let su = ChunkShape::<X, Y, Z>::stride(face.u);
    let sv = ChunkShape::<X, Y, Z>::stride(face.v);
    if in_rect(i, base, su, sv, quad.width as int, quad.height as int) {
        let (a, b) = choose|a: int, b: int|
            0 <= a && 0 <= b < quad.height && (a < quad.width || (a == quad.width && b < 0)) && i
                == #[trigger] rect_index(base, su, sv, a, b);
        lemma_cell_in_rect::<X, Y, Z>(face, p, a, b);
        ChunkShape::<X, Y, Z>::lemma_linearize_injective(
            c,
            p.shifted(face.u, a).shifted(face.v, b),
        );
    }
    if quad_covers(quad, face, c) {
        let a = c.along(face.u) - p.along(face.u);
        let b = c.along(face.v) - p.along(face.v);
        lemma_cell_in_rect::<X, Y, Z>(face, p, a, b);
        assert(p.shifted(face.u, a).shifted(face.v, b) == c);
        assert(0 <= a && 0 <= b < quad.height && (a < quad.width || (a == quad.width && b < 0))
            && i == rect_index(base, su, sv, a, b));
    }
}

/// Filtering by level after one more rectangle.
pub proof fn lemma_quads_of_level_push(
    quads: Seq<UnorientedQuad>,
    quad: UnorientedQuad,
    face: OrientedBlockFace,
    lod: int,
    levels: nat,
)
    ensures
        quads_of_level(quads.push(quad), face, lod, levels) == if quad_lod(quad, face, levels)
            == lod {
            quads_of_level(quads, face, lod, levels).push(quad)
        } else {
            quads_of_level(quads, face, lod, levels)
        },
        quads_of_level(Seq::empty(), face, lod, levels) == Seq::<UnorientedQuad>::empty(),
{
    reveal(Seq::filter);
    assert(quads.push(quad).drop_last() =~= quads);
}

/// The rows of cells of the interior, and the cells that they look at, have
/// indices within the chunk.
pub proof fn lemma_rows_in_bounds<const X: u32, const Y: u32, const Z: u32>(
    face: OrientedBlockFace,
    p: UVec3,
    n_stride: u32,
    count: int,
    rows: int,
)
    requires
        ChunkShape::<X, Y, Z>::valid(),
        face.wf(),
        n_stride == if face.is_front {
            ChunkShape::<X, Y, Z>::stride(face.n)
        } else {
            0x1_0000_0000 - ChunkShape::<X, Y, Z>::stride(face.n)
        },
        count > 0 && rows > 0 ==> ChunkShape::<X, Y, Z>::is_interior(p),
        p.along(face.u) + count <= ChunkShape::<X, Y, Z>::dim(face.u) - 1,
        p.along(face.v) + rows <= ChunkShape::<X, Y, Z>::dim(face.v) - 1,
    ensures
        rows_in_bounds(
            ChunkShape::<X, Y, Z>::volume(),
            ChunkShape::<X, Y, Z>::linearize_spec(p),
            signed_stride(n_stride),
            ChunkShape::<X, Y, Z>::stride(face.u),
            ChunkShape::<X, Y, Z>::stride(face.v),
            count,
            rows,
        ),
{
    if count > 0 && rows > 0 {
        lemma_signed_stride::<X, Y, Z>(face, n_stride);
        ChunkShape::<X, Y, Z>::lemma_linearize_bound(p);
        lemma_facing_index::<X, Y, Z>(face, p);
        lemma_cell_in_rect::<X, Y, Z>(face, p, count - 1, rows - 1);
        lemma_facing_index::<X, Y, Z>(
            face,
            p.shifted(face.u, count - 1).shifted(face.v, rows - 1),
        );
        let su = ChunkShape::<X, Y, Z>::stride(face.u);
        let sv = ChunkShape::<X, Y, Z>::stride(face.v);
        assert(su * (count - 1) == (count - 1) * su && sv * (rows - 1) == (rows - 1) * sv)
            by (nonlinear_arith);
    }
}

/// Gives the cell `position` a rectangle on `face`, where its face is
/// exposed and no rectangle holds it yet.
fn merge_cell<const X: u32, const Y: u32, const Z: u32, const M: usize, V: MergeVoxel>(
    voxels: &[V],
    visited: &mut VisitedBuffer,
    pop_buffer: &mut PopBuffer<M, UnorientedQuad>,
    face: OrientedBlockFace,
    face_index: usize,
    strides: FaceStrides,
    position: UVec3,
    Ghost(done): Ghost<Seq<UnorientedQuad>>,
)
    requires
        ChunkShape::<X, Y, Z>::valid(),
        voxels@.len() == ChunkShape::<X, Y, Z>::volume(),
        1 <= M <= 8,
        face_index < 6,
        face.wf(),
        strides.u == ChunkShape::<X, Y, Z>::stride(face.u),
        strides.v == ChunkShape::<X, Y, Z>::stride(face.v),
        strides.n == if face.is_front {
            ChunkShape::<X, Y, Z>::stride(face.n)
        } else {
            0x1_0000_0000 - ChunkShape::<X, Y, Z>::stride(face.n)
        },
        ChunkShape::<X, Y, Z>::is_interior(position),
        old(pop_buffer).wf(),
        covered_match::<X, Y, Z>(old(visited)@, done, face),
        V::MergeValue::obeys_eq_spec(),
        V::MergeValueFacingNeighbour::obeys_eq_spec(),
    ensures
        final(pop_buffer).wf(),
        ({
            let quad = greedy_quad::<X, Y, Z, V>(voxels@, face, done, position);
            if !covered(done, face, position) && exposed::<X, Y, Z, V>(voxels@, face, position) {
                &&& covered_match::<X, Y, Z>(final(visited)@, done.push(quad), face)
                &&& final(pop_buffer).bucket(quad_lod(quad, face, M as nat), face_index as int)
                    == old(pop_buffer).bucket(
                    quad_lod(quad, face, M as nat),
                    face_index as int,
                ).push(quad)
                &&& forall|l: int, f: int|
                    0 <= l < M && 0 <= f < 6 && !(l == quad_lod(quad, face, M as nat) && f
                        == face_index) ==> #[trigger] final(pop_buffer).bucket(l, f) == old(
                        pop_buffer,
                    ).bucket(l, f)
            } else {
                &&& covered_match::<X, Y, Z>(final(visited)@, done, face)
                &&& forall|l: int, f: int|
                    0 <= l < M && 0 <= f < 6 ==> #[trigger] final(pop_buffer).bucket(l, f) == old(
                        pop_buffer,
                    ).bucket(l, f)
            }
        }),
{
    proof {
        ChunkShape::<X, Y, Z>::lemma_linearize_bound(position);
        lemma_facing_index::<X, Y, Z>(face, position);
        lemma_signed_stride::<X, Y, Z>(face, strides.n);
        UVec3::lemma_dot_unit(position, face.u);
        UVec3::lemma_dot_unit(position, face.v);
        UVec3::lemma_dot_unit(ChunkShape::<X, Y, Z>::shape_spec(), face.u);
        UVec3::lemma_dot_unit(ChunkShape::<X, Y, Z>::shape_spec(), face.v);
    }
    let index = ChunkShape::<X, Y, Z>::linearize(position);
    let voxel = &voxels[index as usize];
    let neighbor_index = index.wrapping_add(strides.n);
    let neighbor_voxel = &voxels[neighbor_index as usize];

    if face_needs_mesh(visited.as_slice(), index, voxel, neighbor_voxel) {
        let shape = ChunkShape::<X, Y, Z>::shape();
        let max_width = face.u.dot(shape) - 1 - face.u.dot(position);
        let max_height = face.v.dot(shape) - 1 - face.v.dot(position);

        let merge_value = voxel.merge_value();
        let merge_neighbor_value = neighbor_voxel.merge_value_facing_neighbour();

        proof {
            lemma_rows_in_bounds::<X, Y, Z>(face, position, strides.n, max_width as int, 1);
            lemma_width_at_is_run_width::<X, Y, Z, V>(
                voxels@,
                visited@,
                face,
                done,
                position,
                position,
                max_width as nat,
            );
        }
        let width = get_max_width(
            voxels,
            visited.as_slice(),
            &merge_value,
            &merge_neighbor_value,
            index,
            strides.n,
            strides.u,
            max_width,
        );
        let ghost below = position.shifted(face.v, 1);
        proof {
            ChunkShape::<X, Y, Z>::lemma_linearize_shifted(position, face.v, 1);
            ChunkShape::<X, Y, Z>::lemma_linearize_bound(below);
            assert(1 * (strides.v as int) == strides.v);
            lemma_rows_in_bounds::<X, Y, Z>(
                face,
                below,
                strides.n,
                width as int,
                max_height - 1,
            );
            lemma_height_at_is_run_height::<X, Y, Z, V>(
                voxels@,
                visited@,
                face,
                done,
                position,
                below,
                width as nat,
                (max_height - 1) as nat,
            );
        }
        let height = get_max_height(
            voxels,
            visited.as_slice(),
            &merge_value,
            &merge_neighbor_value,
            index + strides.v,
            strides.n,
            strides.u,
            strides.v,
            width,
            max_height,
        );

        let quad = UnorientedQuad { minimum: position, width, height };
        assert(quad == greedy_quad::<X, Y, Z, V>(voxels@, face, done, position));

        let lod = find_max_lod::<M>(quad, face);

        proof {
            if width > 0 {
                lemma_cell_in_rect::<X, Y, Z>(face, position, width - 1, height - 1);
            }
        }
        let ghost before = visited@;
        mark_visited(visited, quad, index, strides.u, strides.v, 0);
        proof {
            lemma_marks_cover::<X, Y, Z>(before, visited@, done, quad, face);
        }

        pop_buffer.add_quad(face_index, quad, lod)
    }
}

/// Once the cells of a rectangle of the interior are marked, the marks are
/// on the cells that the rectangles hold, the new one among them.
proof fn lemma_marks_cover<const X: u32, const Y: u32, const Z: u32>(
    before: Seq<u8>,
    after: Seq<u8>,
    done: Seq<UnorientedQuad>,
    quad: UnorientedQuad,
    face: OrientedBlockFace,
)
    requires
        ChunkShape::<X, Y, Z>::valid(),
        face.wf(),
        ChunkShape::<X, Y, Z>::is_interior(quad.minimum),
        quad.minimum.along(face.u) + quad.width <= ChunkShape::<X, Y, Z>::dim(face.u) - 1,
        quad.minimum.along(face.v) + quad.height <= ChunkShape::<X, Y, Z>::dim(face.v) - 1,
        covered_match::<X, Y, Z>(before, done, face),
        after.len() == before.len(),
        forall|i: int, l: int|
            0 <= i < before.len() && 0 <= l < 8 ==> (#[trigger] bit(after[i], l) <==> bit(
                before[i],
                l,
            ) || (l == 0 && in_rect(
                i,
                ChunkShape::<X, Y, Z>::linearize_spec(quad.minimum),
                ChunkShape::<X, Y, Z>::stride(face.u),
                ChunkShape::<X, Y, Z>::stride(face.v),
                quad.width as int,
                quad.height as int,
            ))),
    ensures
        covered_match::<X, Y, Z>(after, done.push(quad), face),
{
    assert forall|c: UVec3| ChunkShape::<X, Y, Z>::contains(c) implies (bit(
        after[ChunkShape::<X, Y, Z>::linearize_spec(c)],
        0,
    ) <==> #[trigger] covered(done.push(quad), face, c)) by {
        ChunkShape::<X, Y, Z>::lemma_linearize_bound(c);
        lemma_rect_cells::<X, Y, Z>(face, quad, c);
        lemma_covered_push(done, quad, face, c);
        assert(bit(before[ChunkShape::<X, Y, Z>::linearize_spec(c)], 0) <==> covered(
            done,
            face,
            c,
        ));
    }
}

/// Gives the exposed faces with index `face_index` their rectangles.
fn greedy_face<const X: u32, const Y: u32, const Z: u32, const M: usize, V: MergeVoxel>(
    voxels: &[V],
    visited: &mut VisitedBuffer,
    pop_buffer: &mut PopBuffer<M, UnorientedQuad>,
    face_index: usize,
)
    requires
        ChunkShape::<X, Y, Z>::valid(),
        voxels@.len() == ChunkShape::<X, Y, Z>::volume(),
        old(visited)@.len() == voxels@.len(),
        1 <= M <= 8,
        face_index < 6,
        old(pop_buffer).wf(),
        V::MergeValue::obeys_eq_spec(),
        V::MergeValueFacingNeighbour::obeys_eq_spec(),
    ensures
        final(pop_buffer).wf(),
        covered_match::<X, Y, Z>(
            final(visited)@,
            greedy_face_quads::<X, Y, Z, V>(voxels@, OrientedBlockFace::face(face_index as int)),
            OrientedBlockFace::face(face_index as int),
        ),
        forall|lod: int|
            0 <= lod < M ==> #[trigger] final(pop_buffer).bucket(lod, face_index as int) == old(
                pop_buffer,
            ).bucket(lod, face_index as int) + quads_of_level(
                greedy_face_quads::<X, Y, Z, V>(
                    voxels@,
                    OrientedBlockFace::face(face_index as int),
                ),
                OrientedBlockFace::face(face_index as int),
                lod,
                M as nat,
            ),
        forall|lod: int, f: int|
            0 <= lod < M && 0 <= f < 6 && f != face_index ==> #[trigger] final(pop_buffer).bucket(
                lod,
                f,
            ) == old(pop_buffer).bucket(lod, f),
{
    let faces = OrientedBlockFace::faces();
    let face = faces[face_index];
    visited.reset();
    proof {
        ChunkShape::<X, Y, Z>::lemma_plane_fits();
        UVec3::lemma_dot_unit(ChunkShape::<X, Y, Z>::shape_spec(), face.n);
    }
    let n_max = face.n.dot(ChunkShape::<X, Y, Z>::shape()) - 1;
    let strides = ChunkShape::<X, Y, Z>::face_strides(face);
    let ghost mut done: Seq<UnorientedQuad> = Seq::empty();
    proof {
        assert forall|c: UVec3| ChunkShape::<X, Y, Z>::contains(c) implies (bit(
            visited@[ChunkShape::<X, Y, Z>::linearize_spec(c)],
            0,
        ) <==> #[trigger] covered(done, face, c)) by {
            ChunkShape::<X, Y, Z>::lemma_linearize_bound(c);
            lemma_bit_set(0u8, 0, 0);
        }
        assert forall|lod: int| 0 <= lod < M implies #[trigger] pop_buffer.bucket(
            lod,
            face_index as int,
        ) == old(pop_buffer).bucket(lod, face_index as int) + quads_of_level(
            done,
            face,
            lod,
            M as nat,
        ) by {
            lemma_quads_of_level_push(
                done,
                UnorientedQuad { minimum: face.n, width: 0, height: 0 },
                face,
                lod,
                M as nat,
            );
            assert(old(pop_buffer).bucket(lod, face_index as int) + Seq::<UnorientedQuad>::empty()
                =~= old(pop_buffer).bucket(lod, face_index as int));
        }
    }

    let mut n: u32 = 1;
    while n < n_max
        invariant
            ChunkShape::<X, Y, Z>::valid(),
            voxels@.len() == ChunkShape::<X, Y, Z>::volume(),
            visited@.len() == voxels@.len(),
            1 <= M <= 8,
            face_index < 6,
            face == OrientedBlockFace::face(face_index as int),
            face.wf(),
            n_max == ChunkShape::<X, Y, Z>::dim(face.n) - 1,
            1 <= n <= n_max,
            strides.u == ChunkShape::<X, Y, Z>::stride(face.u),
            strides.v == ChunkShape::<X, Y, Z>::stride(face.v),
            strides.n == if face.is_front {
                ChunkShape::<X, Y, Z>::stride(face.n)
            } else {
                0x1_0000_0000 - ChunkShape::<X, Y, Z>::stride(face.n)
            },
            V::MergeValue::obeys_eq_spec(),
            V::MergeValueFacingNeighbour::obeys_eq_spec(),
            pop_buffer.wf(),
            done == face_quads_upto::<X, Y, Z, V>(voxels@, face, n - 1),
            covered_match::<X, Y, Z>(visited@, done, face),
            forall|lod: int|
                0 <= lod < M ==> #[trigger] pop_buffer.bucket(lod, face_index as int) == old(
                    pop_buffer,
                ).bucket(lod, face_index as int) + quads_of_level(done, face, lod, M as nat),
            forall|lod: int, f: int|
                0 <= lod < M && 0 <= f < 6 && f != face_index ==> #[trigger] pop_buffer.bucket(
                    lod,
                    f,
                ) == old(pop_buffer).bucket(lod, f),
        decreases n_max - n,
    {
        let mut iter = ChunkShape::<X, Y, Z>::slice_iter(face, n);
        let ghost plane_start = done;
        let ghost len = ChunkShape::<X, Y, Z>::slice_len(face);
        loop
            invariant
                ChunkShape::<X, Y, Z>::valid(),
                voxels@.len() == ChunkShape::<X, Y, Z>::volume(),
                visited@.len() == voxels@.len(),
                1 <= M <= 8,
                face_index < 6,
                face == OrientedBlockFace::face(face_index as int),
                face.wf(),
                n_max == ChunkShape::<X, Y, Z>::dim(face.n) - 1,
                1 <= n < n_max,
                strides.u == ChunkShape::<X, Y, Z>::stride(face.u),
                strides.v == ChunkShape::<X, Y, Z>::stride(face.v),
                strides.n == if face.is_front {
                    ChunkShape::<X, Y, Z>::stride(face.n)
                } else {
                    0x1_0000_0000 - ChunkShape::<X, Y, Z>::stride(face.n)
                },
                V::MergeValue::obeys_eq_spec(),
                V::MergeValueFacingNeighbour::obeys_eq_spec(),
                pop_buffer.wf(),
                iter.wf(),
                iter.face() == face,
                iter.plane() == n,
                len == ChunkShape::<X, Y, Z>::slice_len(face),
                0 <= iter.index() <= len,
                plane_start == face_quads_upto::<X, Y, Z, V>(voxels@, face, n - 1),
                done == plane_quads_upto::<X, Y, Z, V>(
                    voxels@,
                    face,
                    n as int,
                    plane_start,
                    iter.index(),
                ),
                covered_match::<X, Y, Z>(visited@, done, face),
                forall|lod: int|
                    0 <= lod < M ==> #[trigger] pop_buffer.bucket(lod, face_index as int) == old(
                        pop_buffer,
                    ).bucket(lod, face_index as int) + quads_of_level(done, face, lod, M as nat),
                forall|lod: int, f: int|
                    0 <= lod < M && 0 <= f < 6 && f != face_index ==> #[trigger] pop_buffer.bucket(
                        lod,
                        f,
                    ) == old(pop_buffer).bucket(lod, f),
            ensures
                iter.index() == len,
            decreases len - iter.index(),
        {
            let ghost k = iter.index();
            let next = iter.next();
            if next.is_none() {
                break ;
            }
            let position = next.unwrap();
            proof {
                ChunkShape::<X, Y, Z>::lemma_slice_cell_interior(face, n as int, k);
            }
            let ghost buffer_before = *pop_buffer;
            merge_cell::<X, Y, Z, M, V>(
                voxels,
                visited,
                pop_buffer,
                face,
                face_index,
                strides,
                position,
                Ghost(done),
            );
            proof {
                if !covered(done, face, position) && exposed::<X, Y, Z, V>(
                    voxels@,
                    face,
                    position,
                ) {
                    let quad = greedy_quad::<X, Y, Z, V>(voxels@, face, done, position);
                    let level = quad_lod(quad, face, M as nat);
                    assert forall|lod: int| 0 <= lod < M implies #[trigger] pop_buffer.bucket(
                        lod,
                        face_index as int,
                    ) == old(pop_buffer).bucket(lod, face_index as int) + quads_of_level(
                        done.push(quad),
                        face,
                        lod,
                        M as nat,
                    ) by {
                        lemma_quads_of_level_push(done, quad, face, lod, M as nat);
                        let first = old(pop_buffer).bucket(lod, face_index as int);
                        let rest = quads_of_level(done, face, lod, M as nat);
                        assert(buffer_before.bucket(lod, face_index as int) == first + rest);
                        if lod == level {
                            assert((first + rest).push(quad) =~= first + rest.push(quad));
                        }
                    }
                    done = done.push(quad);
                }
            }
        }
        n += 1;
    }
}

/// Merges the exposed faces of the voxels of the interior into rectangles,
/// and adds each rectangle to the bucket of its face and of its level of
/// detail.
///
/// The faces are taken in the order of their indices, each face plane by
/// plane, each plane row by row along U. A cell whose face is exposed and
/// that no rectangle holds yet starts a rectangle. The rectangle grows
/// along U as long as the next cell is in the interior, is held by no
/// rectangle, has an exposed face, has a merge value equal to that of the
/// first cell, and looks at a cell whose merge value for its neighbours
/// equals that of the cell that the first cell looks at. Then it grows along
/// V as long as each cell of the next row can join in the same way. The
/// level of a rectangle is the number of bits that its two ends span along
/// U, or along V if those are fewer, and the highest of the `M` levels at
/// most. The marks in `visited` are taken away before each face; what they
/// were has no part in the result. At the end the cells that the
/// rectangles of the last face hold are marked for level 0.
pub fn greedy_quads<const X: u32, const Y: u32, const Z: u32, const M: usize, V: MergeVoxel>(
    voxels: &[V],
    visited: &mut VisitedBuffer,
    pop_buffer: &mut PopBuffer<M, UnorientedQuad>,
)
    requires
        ChunkShape::<X, Y, Z>::valid(),
        voxels@.len() == ChunkShape::<X, Y, Z>::volume(),
        old(visited)@.len() == voxels@.len(),
        1 <= M <= 8,
        pow2(M as nat) <= X,
        pow2(M as nat) <= Y,
        pow2(M as nat) <= Z,
        old(pop_buffer).wf(),
        V::MergeValue::obeys_eq_spec(),
        V::MergeValueFacingNeighbour::obeys_eq_spec(),
    ensures
        final(pop_buffer).wf(),
        forall|lod: int, f: int|
            0 <= lod < M && 0 <= f < 6 ==> #[trigger] final(pop_buffer).bucket(lod, f) == old(
                pop_buffer,
            ).bucket(lod, f) + quads_of_level(
                greedy_face_quads::<X, Y, Z, V>(voxels@, OrientedBlockFace::face(f)),
                OrientedBlockFace::face(f),
                lod,
                M as nat,
            ),
        covered_match::<X, Y, Z>(
            final(visited)@,
            greedy_face_quads::<X, Y, Z, V>(voxels@, OrientedBlockFace::face(5)),
            OrientedBlockFace::face(5),
        ),
{
    let mut face_index: usize = 0;
    while face_index < 6
        invariant
            ChunkShape::<X, Y, Z>::valid(),
            voxels@.len() == ChunkShape::<X, Y, Z>::volume(),
            visited@.len() == voxels@.len(),
            1 <= M <= 8,
            face_index <= 6,
            pop_buffer.wf(),
            V::MergeValue::obeys_eq_spec(),
            V::MergeValueFacingNeighbour::obeys_eq_spec(),
            forall|lod: int, f: int|
                0 <= lod < M && 0 <= f < face_index ==> #[trigger] pop_buffer.bucket(lod, f) == old(
                    pop_buffer,
                ).bucket(lod, f) + quads_of_level(
                    greedy_face_quads::<X, Y, Z, V>(voxels@, OrientedBlockFace::face(f)),
                    OrientedBlockFace::face(f),
                    lod,
                    M as nat,
                ),
            forall|lod: int, f: int|
                0 <= lod < M && face_index <= f < 6 ==> #[trigger] pop_buffer.bucket(lod, f) == old(
                    pop_buffer,
                ).bucket(lod, f),
            face_index > 0 ==> covered_match::<X, Y, Z>(
                visited@,
                greedy_face_quads::<X, Y, Z, V>(
                    voxels@,
                    OrientedBlockFace::face(face_index - 1),
                ),
                OrientedBlockFace::face(face_index - 1),
            ),
        decreases 6 - face_index,
    {
        greedy_face::<X, Y, Z, M, V>(voxels, visited, pop_buffer, face_index);
        face_index += 1;
    }
}

/// The rectangle that `quad` on `face` becomes at level of detail `lod`: its
/// minimum rounded down and its far end rounded up to the grid of cells of
/// 2^lod that starts at 1.
pub open spec fn into_lod_spec(
    quad: UnorientedQuad,
    face: OrientedBlockFace,
    lod: nat,
) -> UnorientedQuad {
    let u = quad.minimum.along(face.u);
    let v = quad.minimum.along(face.v);
    UnorientedQuad {
        minimum: coarse(quad.minimum, lod),
        width: (round_up_coordinate(u + quad.width, lod) - coarse_coordinate(u, lod)) as u32,
        height: (round_up_coordinate(v + quad.height, lod) - coarse_coordinate(v, lod)) as u32,
    }
}

/// The rectangle that `quad` on `face` becomes at level of detail `lod`.
#[inline]
pub fn into_lod(quad: UnorientedQuad, face: OrientedBlockFace, lod: usize) -> (r: UnorientedQuad)
    requires
        face.wf(),
        lod < 32,
        1 <= quad.minimum.x,
        1 <= quad.minimum.y,
        1 <= quad.minimum.z,
        quad.minimum.along(face.u) + quad.width + pow2(lod as nat) <= u32::MAX,
        quad.minimum.along(face.v) + quad.height + pow2(lod as nat) <= u32::MAX,
    ensures
        r == into_lod_spec(quad, face, lod as nat),
{
    let shift = lod as u32;
    proof {
        UVec3::lemma_dot_unit(quad.minimum, face.u);
        UVec3::lemma_dot_unit(quad.minimum, face.v);
    }
    let u = face.u.dot(quad.minimum);
    let v = face.v.dot(quad.minimum);
    let new_minimum = UVec3::new(
        coarsen(quad.minimum.x, shift),
        coarsen(quad.minimum.y, shift),
        coarsen(quad.minimum.z, shift),
    );
    let width = round_up(u + quad.width, shift) - coarsen(u, shift);
    let height = round_up(v + quad.height, shift) - coarsen(v, shift);

    UnorientedQuad { minimum: new_minimum, width, height }
}

} // verus!
