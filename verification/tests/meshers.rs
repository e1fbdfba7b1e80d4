use block_mesh_pop::{
    greedy_quads, visible_faces_quads, MergeVoxel, MeshVoxel, PopBuffer, UVec3, UnorientedQuad,
    UnorientedUnitQuad, VisitedBuffer, VoxelVisibility,
};

#[derive(Clone, Copy, Debug, PartialEq, Eq)]
enum Voxel {
    Air,
    Glass,
    Stone(u8),
}

impl MeshVoxel for Voxel {
    fn get_visibility(&self) -> VoxelVisibility {
        match self {
            Voxel::Air => VoxelVisibility::Empty,
            Voxel::Glass => VoxelVisibility::Translucent,
            Voxel::Stone(_) => VoxelVisibility::Opaque,
        }
    }
}

impl MergeVoxel for Voxel {
    type MergeValue = Voxel;
    type MergeValueFacingNeighbour = Voxel;

    fn merge_value(&self) -> Voxel {
        *self
    }

    fn merge_value_facing_neighbour(&self) -> Voxel {
        *self
    }
}

fn chunk(x: u32, y: u32, z: u32, fill: &dyn Fn(u32, u32, u32) -> Voxel) -> Vec<Voxel> {
    let mut voxels = Vec::new();
    for k in 0..z {
        for j in 0..y {
            for i in 0..x {
                voxels.push(fill(i, j, k));
            }
        }
    }
    voxels
}

fn is_inside(p: u32, dim: u32) -> bool {
    1 <= p && p <= dim - 2
}

fn solid(x: u32, y: u32, z: u32) -> Vec<Voxel> {
    chunk(x, y, z, &|i, j, k| {
        if is_inside(i, x) && is_inside(j, y) && is_inside(k, z) {
            Voxel::Stone(1)
        } else {
            Voxel::Air
        }
    })
}

fn visible<const X: u32, const Y: u32, const Z: u32, const M: usize>(
    voxels: &[Voxel],
) -> PopBuffer<M, UnorientedUnitQuad> {
    let mut visited = VisitedBuffer::new(voxels.len());
    let mut buffer = PopBuffer::<M, UnorientedUnitQuad>::new();
    visible_faces_quads::<X, Y, Z, M, Voxel>(voxels, &mut visited, &mut buffer);
    buffer
}

fn greedy<const X: u32, const Y: u32, const Z: u32, const M: usize>(
    voxels: &[Voxel],
) -> PopBuffer<M, UnorientedQuad> {
    let mut visited = VisitedBuffer::new(voxels.len());
    let mut buffer = PopBuffer::<M, UnorientedQuad>::new();
    greedy_quads::<X, Y, Z, M, Voxel>(voxels, &mut visited, &mut buffer);
    buffer
}

fn unit(x: u32, y: u32, z: u32) -> UnorientedUnitQuad {
    UnorientedUnitQuad { minimum: UVec3::new(x, y, z) }
}

fn rect(x: u32, y: u32, z: u32, width: u32, height: u32) -> UnorientedQuad {
    UnorientedQuad { minimum: UVec3::new(x, y, z), width, height }
}

#[test]
fn single_voxel_has_one_unit_quad_on_each_face() {
    let voxels = chunk(3, 3, 3, &|i, j, k| {
        if (i, j, k) == (1, 1, 1) {
            Voxel::Stone(1)
        } else {
            Voxel::Air
        }
    });
    let buffer = visible::<3, 3, 3, 1>(&voxels);
    assert_eq!(buffer.num_quads(), 6);
    for face in 0..6 {
        assert_eq!(buffer.quads(face, 0).as_slice(), &[unit(1, 1, 1)]);
    }
}

#[test]
fn single_voxel_has_one_rectangle_on_each_face() {
    let voxels = chunk(3, 3, 3, &|i, j, k| {
        if (i, j, k) == (1, 1, 1) {
            Voxel::Stone(1)
        } else {
            Voxel::Air
        }
    });
    let buffer = greedy::<3, 3, 3, 1>(&voxels);
    assert_eq!(buffer.num_quads(), 6);
    for face in 0..6 {
        assert_eq!(buffer.quads(face, 0).as_slice(), &[rect(1, 1, 1, 1, 1)]);
    }
}

fn two_adjacent() -> Vec<Voxel> {
    chunk(4, 3, 3, &|i, j, k| {
        if (j, k) == (1, 1) && (i == 1 || i == 2) {
            Voxel::Stone(1)
        } else {
            Voxel::Air
        }
    })
}

#[test]
fn two_adjacent_voxels_have_ten_unit_quads() {
    let buffer = visible::<4, 3, 3, 1>(&two_adjacent());
    assert_eq!(buffer.num_quads(), 10);
    assert_eq!(buffer.quads(0, 0).as_slice(), &[unit(1, 1, 1)]);
    assert_eq!(buffer.quads(3, 0).as_slice(), &[unit(2, 1, 1)]);
    for face in [1, 2, 4, 5] {
        assert_eq!(buffer.quads(face, 0).len(), 2);
    }
}

#[test]
fn two_adjacent_voxels_have_six_rectangles() {
    let buffer = greedy::<4, 3, 3, 1>(&two_adjacent());
    assert_eq!(buffer.num_quads(), 6);
    assert_eq!(buffer.quads(0, 0).as_slice(), &[rect(1, 1, 1, 1, 1)]);
    assert_eq!(buffer.quads(3, 0).as_slice(), &[rect(2, 1, 1, 1, 1)]);
    // On the faces across y, U is z and V is x: the two cells lie along V.
    assert_eq!(buffer.quads(1, 0).as_slice(), &[rect(1, 1, 1, 1, 2)]);
    assert_eq!(buffer.quads(4, 0).as_slice(), &[rect(1, 1, 1, 1, 2)]);
    // On the faces across z, U is x and V is y: the two cells lie along U.
    assert_eq!(buffer.quads(2, 0).as_slice(), &[rect(1, 1, 1, 2, 1)]);
    assert_eq!(buffer.quads(5, 0).as_slice(), &[rect(1, 1, 1, 2, 1)]);
}

#[test]
fn slab_of_one_merge_value_is_one_rectangle_of_level_one() {
    let voxels = chunk(4, 4, 4, &|i, j, k| {
        if k == 1 && (i == 1 || i == 2) && (j == 1 || j == 2) {
            Voxel::Stone(1)
        } else {
            Voxel::Air
        }
    });
    let buffer = greedy::<4, 4, 4, 2>(&voxels);
    for face in [2, 5] {
        assert_eq!(buffer.quads(face, 1).as_slice(), &[rect(1, 1, 1, 2, 2)]);
        assert!(buffer.quads(face, 0).is_empty());
    }
}

fn mixed_slab() -> Vec<Voxel> {
    chunk(4, 3, 3, &|i, j, k| {
        if (j, k) == (1, 1) && i == 1 {
            Voxel::Stone(1)
        } else if (j, k) == (1, 1) && i == 2 {
            Voxel::Stone(2)
        } else {
            Voxel::Air
        }
    })
}

#[test]
fn cells_of_different_merge_values_do_not_merge() {
    let voxels = mixed_slab();
    let merged = greedy::<4, 3, 3, 1>(&voxels);
    let single = visible::<4, 3, 3, 1>(&voxels);
    assert_eq!(merged.num_quads(), 10);
    assert_eq!(merged.num_quads(), single.num_quads());
    for face in [1, 2, 4, 5] {
        assert_eq!(
            merged.quads(face, 0).as_slice(),
            &[rect(1, 1, 1, 1, 1), rect(2, 1, 1, 1, 1)]
        );
    }
    assert_eq!(merged.quads(0, 0).as_slice(), &[rect(1, 1, 1, 1, 1)]);
    assert_eq!(merged.quads(3, 0).as_slice(), &[rect(2, 1, 1, 1, 1)]);
}

fn hollow() -> Vec<Voxel> {
    chunk(5, 5, 5, &|i, j, k| {
        if (i, j, k) == (2, 2, 2) {
            Voxel::Air
        } else if is_inside(i, 5) && is_inside(j, 5) && is_inside(k, 5) {
            Voxel::Stone(1)
        } else {
            Voxel::Air
        }
    })
}

#[test]
fn hollow_centre_has_six_unit_quads_that_look_inward() {
    let buffer = visible::<5, 5, 5, 2>(&hollow());
    assert_eq!(buffer.num_quads(), 6 * 9 + 6);
    let inward = [
        unit(3, 2, 2),
        unit(2, 3, 2),
        unit(2, 2, 3),
        unit(1, 2, 2),
        unit(2, 1, 2),
        unit(2, 2, 1),
    ];
    let quads = buffer.iter_quads();
    for face in 0..6 {
        let of_face: Vec<UnorientedUnitQuad> = block_mesh_pop::OrientedBlockFace::faces()
            .iter()
            .zip(0..6)
            .filter(|(_, index)| *index == face)
            .flat_map(|(f, _)| quads.iter().filter(move |(g, _)| g == f).map(|(_, q)| *q))
            .collect();
        assert_eq!(of_face.len(), 10);
        assert_eq!(of_face.iter().filter(|q| **q == inward[face]).count(), 1);
        let axis = face % 3;
        let outer = if face < 3 { 1 } else { 3 };
        let on_the_outside = of_face
            .iter()
            .filter(|q| [q.minimum.x, q.minimum.y, q.minimum.z][axis] == outer)
            .count();
        assert_eq!(on_the_outside, 9);
    }
}

#[test]
fn hollow_centre_has_six_rectangles_in_the_cavity() {
    let buffer = greedy::<5, 5, 5, 2>(&hollow());
    assert_eq!(buffer.num_quads(), 12);
    let inward = [
        rect(3, 2, 2, 1, 1),
        rect(2, 3, 2, 1, 1),
        rect(2, 2, 3, 1, 1),
        rect(1, 2, 2, 1, 1),
        rect(2, 1, 2, 1, 1),
        rect(2, 2, 1, 1, 1),
    ];
    let quads = buffer.iter_quads();
    let faces = block_mesh_pop::OrientedBlockFace::faces();
    for face in 0..6 {
        let of_face: Vec<UnorientedQuad> =
            quads.iter().filter(|(f, _)| *f == faces[face]).map(|(_, q)| *q).collect();
        assert_eq!(of_face.len(), 2);
        assert!(of_face.contains(&inward[face]));
        assert!(of_face.iter().any(|q| q.width == 3 && q.height == 3));
    }
}

#[test]
fn buckets_of_a_solid_chunk_climb_to_the_number_of_faces() {
    let buffer = visible::<8, 8, 8, 3>(&solid(8, 8, 8));
    let buckets = buffer.get_buckets();
    assert!(buckets[0] < buckets[1]);
    assert!(buckets[1] < buckets[2]);
    for level in 3..8 {
        assert_eq!(buckets[level], buckets[2]);
    }
    assert_eq!(buckets[2], 216);
    assert_eq!(buffer.num_quads(), 216);
}

#[test]
fn empty_chunk_has_no_quads() {
    let voxels = chunk(6, 5, 4, &|_, _, _| Voxel::Air);
    let single = visible::<6, 5, 4, 2>(&voxels);
    let merged = greedy::<6, 5, 4, 2>(&voxels);
    for face in 0..6 {
        for level in 0..2 {
            assert!(single.quads(face, level).is_empty());
            assert!(merged.quads(face, level).is_empty());
        }
    }
    assert_eq!(single.get_buckets(), [0; 8]);
    assert_eq!(merged.get_buckets(), [0; 8]);
}

#[test]
fn solid_chunk_has_one_unit_quad_for_each_cell_of_its_surface() {
    let buffer = visible::<6, 5, 7, 2>(&solid(6, 5, 7));
    assert_eq!(buffer.num_quads(), 2 * (4 * 3 + 3 * 5 + 5 * 4));
}

#[test]
fn solid_chunk_has_six_rectangles() {
    let buffer = greedy::<6, 5, 7, 2>(&solid(6, 5, 7));
    assert_eq!(buffer.num_quads(), 6);
    let quads = buffer.iter_quads();
    let faces = block_mesh_pop::OrientedBlockFace::faces();
    let expected = [
        rect(1, 1, 1, 5, 3),
        rect(1, 1, 1, 5, 4),
        rect(1, 1, 1, 4, 3),
        rect(4, 1, 1, 5, 3),
        rect(1, 3, 1, 5, 4),
        rect(1, 1, 5, 4, 3),
    ];
    for face in 0..6 {
        let of_face: Vec<UnorientedQuad> =
            quads.iter().filter(|(f, _)| *f == faces[face]).map(|(_, q)| *q).collect();
        assert_eq!(of_face, vec![expected[face]]);
    }
}

fn exposes(voxel: Voxel, neighbor: Voxel) -> bool {
    matches!(
        (voxel.get_visibility(), neighbor.get_visibility()),
        (VoxelVisibility::Translucent, VoxelVisibility::Empty)
            | (VoxelVisibility::Opaque, VoxelVisibility::Empty)
            | (VoxelVisibility::Opaque, VoxelVisibility::Translucent)
    )
}

#[test]
fn faces_are_exposed_as_the_table_says() {
    let kinds = [Voxel::Air, Voxel::Glass, Voxel::Stone(1)];
    let mut emitted = Vec::new();
    for voxel in kinds {
        for neighbor in kinds {
            let voxels = chunk(3, 3, 3, &|i, j, k| {
                if (i, j, k) == (1, 1, 1) {
                    voxel
                } else {
                    neighbor
                }
            });
            let single = visible::<3, 3, 3, 1>(&voxels);
            let merged = greedy::<3, 3, 3, 1>(&voxels);
            let expected = if exposes(voxel, neighbor) { 1 } else { 0 };
            for face in 0..6 {
                assert_eq!(single.quads(face, 0).len(), expected);
                assert_eq!(merged.quads(face, 0).len(), expected);
            }
            emitted.push(expected);
        }
    }
    assert_eq!(emitted, vec![0, 0, 0, 1, 0, 0, 1, 1, 0]);
}

#[test]
fn padding_of_the_same_visibility_gives_the_same_unit_quads() {
    let pattern = |padding: Voxel| {
        chunk(5, 4, 4, &move |i, j, k| {
            if is_inside(i, 5) && is_inside(j, 4) && is_inside(k, 4) {
                if (i + j + k) % 2 == 0 {
                    Voxel::Stone(1)
                } else {
                    Voxel::Glass
                }
            } else {
                padding
            }
        })
    };
    let first = visible::<5, 4, 4, 2>(&pattern(Voxel::Stone(7)));
    let second = visible::<5, 4, 4, 2>(&pattern(Voxel::Stone(9)));
    let third = visible::<5, 4, 4, 2>(&pattern(Voxel::Air));
    assert_ne!(first.num_quads(), third.num_quads());
    assert_eq!(first.get_buckets(), second.get_buckets());
    assert_eq!(first.iter_quads(), second.iter_quads());
}

#[test]
fn meshing_again_with_used_buffers_gives_the_same_quads() {
    let voxels = hollow();
    let mut visited = VisitedBuffer::new(voxels.len());
    let mut first = PopBuffer::<2, UnorientedUnitQuad>::new();
    visible_faces_quads::<5, 5, 5, 2, Voxel>(&voxels, &mut visited, &mut first);
    let mut second = PopBuffer::<2, UnorientedUnitQuad>::new();
    visible_faces_quads::<5, 5, 5, 2, Voxel>(&voxels, &mut visited, &mut second);
    assert_eq!(first.get_buckets(), second.get_buckets());
    assert_eq!(first.iter_quads(), second.iter_quads());

    let mut merged_first = PopBuffer::<2, UnorientedQuad>::new();
    greedy_quads::<5, 5, 5, 2, Voxel>(&voxels, &mut visited, &mut merged_first);
    let mut merged_second = PopBuffer::<2, UnorientedQuad>::new();
    merged_second.add_quad(0, rect(9, 9, 9, 1, 1), 1);
    merged_second.reset();
    greedy_quads::<5, 5, 5, 2, Voxel>(&voxels, &mut visited, &mut merged_second);
    assert_eq!(merged_first.get_buckets(), merged_second.get_buckets());
    assert_eq!(merged_first.iter_quads(), merged_second.iter_quads());
}
