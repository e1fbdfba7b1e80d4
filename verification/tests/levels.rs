use block_mesh_pop::{
    expand_greedy_to_lod, expand_to_lod, extract_lod, face_needs_mesh, get_max_height,
    get_max_width, greedy_quads, visible_faces_quads, ChunkShape, LodQuad, MergeVoxel, MeshVoxel,
    OrientedBlockFace, PopBuffer, QuadBuffer, UVec3, UnorientedQuad, UnorientedRegularQuad,
    UnorientedUnitQuad, VisitedBuffer, VoxelVisibility,
};

#[derive(Clone, Copy, Debug, PartialEq, Eq)]
enum Voxel {
    Air,
    Glass,
    Stone(u8),
}

impl MeshVoxel for Voxel {
    fn get_visibility(&self) -> VoxelVisibility {
        match self {
            Voxel::Air => VoxelVisibility::Empty,
            Voxel::Glass => VoxelVisibility::Translucent,
            Voxel::Stone(_) => VoxelVisibility::Opaque,
        }
    }
}

impl MergeVoxel for Voxel {
    type MergeValue = Voxel;
    type MergeValueFacingNeighbour = Voxel;

    fn merge_value(&self) -> Voxel {
        *self
    }

    fn merge_value_facing_neighbour(&self) -> Voxel {
        *self
    }
}

fn chunk(x: u32, y: u32, z: u32, fill: &dyn Fn(u32, u32, u32) -> Voxel) -> Vec<Voxel> {
    let mut voxels = Vec::new();
    for k in 0..z {
        for j in 0..y {
            for i in 0..x {
                voxels.push(fill(i, j, k));
            }
        }
    }
    voxels
}

fn single(dim: u32, at: (u32, u32, u32)) -> Vec<Voxel> {
    chunk(dim, dim, dim, &|i, j, k| if (i, j, k) == at { Voxel::Stone(1) } else { Voxel::Air })
}

fn unit(x: u32, y: u32, z: u32) -> UnorientedUnitQuad {
    UnorientedUnitQuad { minimum: UVec3::new(x, y, z) }
}

fn square(x: u32, y: u32, z: u32, size: u32) -> UnorientedRegularQuad {
    UnorientedRegularQuad { minimum: UVec3::new(x, y, z), size }
}

fn rect(x: u32, y: u32, z: u32, width: u32, height: u32) -> UnorientedQuad {
    UnorientedQuad { minimum: UVec3::new(x, y, z), width, height }
}

#[test]
fn unit_quad_grows_to_the_cell_of_the_grid_that_holds_it() {
    assert_eq!(block_mesh_pop::visible_faces::into_lod(unit(5, 6, 7), 2), square(5, 5, 5, 4));
    assert_eq!(block_mesh_pop::visible_faces::into_lod(unit(4, 1, 8), 1), square(3, 1, 7, 2));
    assert_eq!(block_mesh_pop::visible_faces::into_lod(unit(4, 1, 8), 0), square(4, 1, 8, 1));
    assert_eq!(block_mesh_pop::visible_faces::into_lod(unit(9, 16, 17), 3), square(9, 9, 17, 8));
    let faces = OrientedBlockFace::faces();
    assert_eq!(unit(5, 6, 7).inflate(faces[0], 2), square(5, 5, 5, 4));
}

#[test]
fn rectangle_is_rounded_out_to_the_grid() {
    let faces = OrientedBlockFace::faces();
    assert_eq!(block_mesh_pop::greedy::into_lod(rect(2, 3, 1, 3, 1), faces[2], 1), rect(1, 3, 1, 4, 2));
    assert_eq!(block_mesh_pop::greedy::into_lod(rect(2, 3, 1, 3, 1), faces[2], 0), rect(2, 3, 1, 3, 1));
    assert_eq!(block_mesh_pop::greedy::into_lod(rect(1, 1, 1, 2, 2), faces[5], 1), rect(1, 1, 1, 2, 2));
    // On the faces across x, U is z and V is y.
    assert_eq!(block_mesh_pop::greedy::into_lod(rect(6, 2, 3, 1, 5), faces[3], 2), rect(5, 1, 1, 4, 8));
    assert_eq!(rect(2, 3, 1, 3, 1).inflate(faces[2], 1), rect(1, 3, 1, 4, 2));
}

#[test]
fn only_the_first_quad_of_a_cell_gets_a_high_level() {
    let voxels = single(4, (1, 1, 1));
    let mut visited = VisitedBuffer::new(voxels.len());
    let mut buffer = PopBuffer::<2, UnorientedUnitQuad>::new();
    visible_faces_quads::<4, 4, 4, 2, Voxel>(&voxels, &mut visited, &mut buffer);
    assert_eq!(buffer.quads(0, 1).as_slice(), &[unit(1, 1, 1)]);
    assert!(buffer.quads(0, 0).is_empty());
    for face in 1..6 {
        assert_eq!(buffer.quads(face, 0).as_slice(), &[unit(1, 1, 1)]);
        assert!(buffer.quads(face, 1).is_empty());
    }
    assert_eq!(buffer.get_buckets(), [5, 6, 6, 6, 6, 6, 6, 6]);
    let index = ChunkShape::<4, 4, 4>::linearize(UVec3::new(1, 1, 1)) as usize;
    for (cell, marks) in visited.as_slice().iter().enumerate() {
        assert_eq!(*marks, if cell == index { 0b11 } else { 0 });
    }
}

#[test]
fn quads_of_one_cell_of_the_grid_share_one_high_level() {
    let voxels = chunk(6, 6, 6, &|i, j, k| {
        if (1..=4).contains(&i) && j == 1 && k == 1 {
            Voxel::Stone(1)
        } else {
            Voxel::Air
        }
    });
    let mut visited = VisitedBuffer::new(voxels.len());
    let mut buffer = PopBuffer::<2, UnorientedUnitQuad>::new();
    visible_faces_quads::<6, 6, 6, 2, Voxel>(&voxels, &mut visited, &mut buffer);
    // The face that looks down y: the cells are taken along x, two to a cell
    // of the grid of level 1.
    assert_eq!(buffer.quads(1, 1).as_slice(), &[unit(3, 1, 1)]);
    assert_eq!(
        buffer.quads(1, 0).as_slice(),
        &[unit(1, 1, 1), unit(2, 1, 1), unit(4, 1, 1)]
    );
    assert_eq!(buffer.quads(0, 1).as_slice(), &[unit(1, 1, 1)]);
    assert_eq!(buffer.num_quads(), 4 * 4 + 2);
    assert_eq!(buffer.num_quads_lod(1), 2);
}

#[test]
fn level_of_a_rectangle_is_the_number_of_bits_that_its_ends_span() {
    let mut visited = VisitedBuffer::new(512);
    let mut buffer = PopBuffer::<3, UnorientedQuad>::new();
    greedy_quads::<8, 8, 8, 3, Voxel>(&single(8, (2, 2, 2)), &mut visited, &mut buffer);
    for face in 0..6 {
        assert_eq!(buffer.quads(face, 1).as_slice(), &[rect(2, 2, 2, 1, 1)]);
    }
    assert_eq!(buffer.get_buckets(), [0, 6, 6, 6, 6, 6, 6, 6]);

    let mut buffer = PopBuffer::<3, UnorientedQuad>::new();
    greedy_quads::<8, 8, 8, 3, Voxel>(&single(8, (3, 3, 3)), &mut visited, &mut buffer);
    for face in 0..6 {
        assert_eq!(buffer.quads(face, 2).as_slice(), &[rect(3, 3, 3, 1, 1)]);
    }

    let mut buffer = PopBuffer::<3, UnorientedQuad>::new();
    greedy_quads::<8, 8, 8, 3, Voxel>(&single(8, (3, 2, 2)), &mut visited, &mut buffer);
    // Across z, U is x: 3 and 4 span three bits, 2 and 3 span one.
    assert_eq!(buffer.quads(5, 1).as_slice(), &[rect(3, 2, 2, 1, 1)]);
    assert_eq!(buffer.num_quads_lod(2), 0);

    let mut buffer = PopBuffer::<1, UnorientedQuad>::new();
    greedy_quads::<8, 8, 8, 1, Voxel>(&single(8, (3, 3, 3)), &mut visited, &mut buffer);
    for face in 0..6 {
        assert_eq!(buffer.quads(face, 0).as_slice(), &[rect(3, 3, 3, 1, 1)]);
    }
}

#[test]
fn expanding_draws_the_quads_of_a_level_and_higher() {
    let voxels = single(4, (1, 1, 1));
    let mut visited = VisitedBuffer::new(voxels.len());
    let mut buffer = PopBuffer::<2, UnorientedUnitQuad>::new();
    visible_faces_quads::<4, 4, 4, 2, Voxel>(&voxels, &mut visited, &mut buffer);

    let mut out = QuadBuffer::<UnorientedRegularQuad>::new();
    expand_to_lod(&buffer, &mut out, 1);
    assert_eq!(out.quads(0).as_slice(), &[square(1, 1, 1, 2)]);
    for face in 1..6 {
        assert!(out.quads(face).is_empty());
    }

    let mut out = QuadBuffer::<UnorientedRegularQuad>::new();
    expand_to_lod(&buffer, &mut out, 0);
    for face in 0..6 {
        assert_eq!(out.quads(face).as_slice(), &[square(1, 1, 1, 1)]);
    }

    let mut out = QuadBuffer::<UnorientedRegularQuad>::new();
    out.push(3, square(9, 9, 9, 1));
    extract_lod(&buffer, &mut out, 2);
    assert_eq!(out.num_quads(), 1);
    extract_lod(&buffer, &mut out, 0);
    assert_eq!(out.quads(3).as_slice(), &[square(9, 9, 9, 1), square(1, 1, 1, 1)]);
}

#[test]
fn expanding_keeps_the_order_of_the_levels() {
    let mut buffer = PopBuffer::<3, UnorientedUnitQuad>::new();
    buffer.add_quad(2, unit(1, 1, 1), 0);
    buffer.add_quad(2, unit(7, 2, 5), 2);
    buffer.add_quad(2, unit(3, 3, 3), 1);
    buffer.add_quad(2, unit(4, 4, 4), 2);
    let mut out = QuadBuffer::<UnorientedRegularQuad>::new();
    expand_to_lod(&buffer, &mut out, 1);
    assert_eq!(
        out.quads(2).as_slice(),
        &[square(7, 1, 5, 2), square(3, 3, 3, 2), square(3, 3, 3, 2)]
    );
}

#[test]
fn expanding_rectangles_rounds_them_out() {
    let voxels = chunk(4, 4, 4, &|i, j, k| {
        if k == 1 && (i == 1 || i == 2) && (j == 1 || j == 2) {
            Voxel::Stone(1)
        } else {
            Voxel::Air
        }
    });
    let mut visited = VisitedBuffer::new(voxels.len());
    let mut buffer = PopBuffer::<2, UnorientedQuad>::new();
    greedy_quads::<4, 4, 4, 2, Voxel>(&voxels, &mut visited, &mut buffer);
    let mut out = QuadBuffer::<UnorientedQuad>::new();
    expand_greedy_to_lod(&buffer, &mut out, 1);
    assert_eq!(out.quads(5).as_slice(), &[rect(1, 1, 1, 2, 2)]);
    assert_eq!(out.quads(2).as_slice(), &[rect(1, 1, 1, 2, 2)]);
    // Across x, U is z and V is y: one cell along z, two along y.
    assert_eq!(buffer.quads(0, 1).as_slice(), &[rect(1, 1, 1, 1, 2)]);
    assert_eq!(out.quads(0).as_slice(), &[rect(1, 1, 1, 2, 2)]);

    let mut same = QuadBuffer::<UnorientedQuad>::new();
    extract_lod(&buffer, &mut same, 0);
    for face in 0..6 {
        assert_eq!(same.quads(face).as_slice(), buffer.quads(face, 1).as_slice());
    }
}

#[test]
fn face_needs_a_quad_where_it_is_exposed_and_not_covered() {
    let visited = [0u8, 1, 2];
    let air = Voxel::Air;
    let glass = Voxel::Glass;
    let stone = Voxel::Stone(1);
    assert!(face_needs_mesh(&visited, 0, &stone, &air));
    assert!(face_needs_mesh(&visited, 0, &stone, &glass));
    assert!(!face_needs_mesh(&visited, 0, &stone, &stone));
    assert!(face_needs_mesh(&visited, 0, &glass, &air));
    assert!(!face_needs_mesh(&visited, 0, &glass, &glass));
    assert!(!face_needs_mesh(&visited, 0, &glass, &stone));
    assert!(!face_needs_mesh(&visited, 0, &air, &air));
    assert!(!face_needs_mesh(&visited, 0, &air, &stone));
    assert!(!face_needs_mesh(&visited, 1, &stone, &air));
    assert!(face_needs_mesh(&visited, 2, &stone, &air));
    assert!(!face_needs_mesh(&visited, 7, &air, &air));
}

#[test]
fn width_ends_before_the_first_cell_that_cannot_join() {
    let s1 = Voxel::Stone(1);
    let s2 = Voxel::Stone(2);
    let air = Voxel::Air;
    let voxels = [s1, s1, s2, s1, air, air, air, air];
    let mut visited = [0u8; 8];
    assert_eq!(get_max_width(&voxels, &visited, &s1, &air, 0, 4, 1, 4), 2);
    assert_eq!(get_max_width(&voxels, &visited, &s1, &air, 0, 4, 1, 1), 1);
    assert_eq!(get_max_width(&voxels, &visited, &s1, &air, 0, 4, 1, 0), 0);
    assert_eq!(get_max_width(&voxels, &visited, &s2, &air, 0, 4, 1, 4), 0);
    assert_eq!(get_max_width(&voxels, &visited, &s1, &Voxel::Glass, 0, 4, 1, 4), 0);
    assert_eq!(get_max_width(&voxels, &visited, &s2, &air, 2, 4, 1, 2), 1);
    visited[1] = 1;
    assert_eq!(get_max_width(&voxels, &visited, &s1, &air, 0, 4, 1, 4), 1);
    visited[1] = 2;
    assert_eq!(get_max_width(&voxels, &visited, &s1, &air, 0, 4, 1, 4), 2);

    let behind = [air, air, air, air, s1, s1, s1, Voxel::Glass];
    let visited = [0u8; 8];
    let back = 0u32.wrapping_sub(4);
    assert_eq!(get_max_width(&behind, &visited, &s1, &air, 4, back, 1, 4), 3);
    let spaced = [s1, air, s1, air, s1, air, s2, air];
    assert_eq!(get_max_width(&spaced, &visited, &s1, &air, 0, 1, 2, 4), 3);
}

#[test]
fn height_ends_before_the_first_row_that_cannot_join() {
    let s1 = Voxel::Stone(1);
    let s2 = Voxel::Stone(2);
    let air = Voxel::Air;
    // Three rows of two cells, then the cells that they look at.
    let voxels = [s1, s1, s1, s1, s1, s2, air, air, air, air, air, air];
    let visited = [0u8; 12];
    assert_eq!(get_max_height(&voxels, &visited, &s1, &air, 2, 6, 1, 2, 2, 3), 2);
    assert_eq!(get_max_height(&voxels, &visited, &s1, &air, 2, 6, 1, 2, 1, 3), 3);
    assert_eq!(get_max_height(&voxels, &visited, &s1, &air, 2, 6, 1, 2, 2, 2), 2);
    assert_eq!(get_max_height(&voxels, &visited, &s1, &air, 2, 6, 1, 2, 2, 1), 1);
    assert_eq!(get_max_height(&voxels, &visited, &s1, &air, 2, 6, 1, 2, 2, 0), 0);
    assert_eq!(get_max_height(&voxels, &visited, &s2, &air, 2, 6, 1, 2, 2, 3), 1);
    assert_eq!(get_max_height(&voxels, &visited, &s2, &air, 2, 6, 1, 2, 0, 3), 3);
    let mut covered = [0u8; 12];
    covered[3] = 1;
    assert_eq!(get_max_height(&voxels, &covered, &s1, &air, 2, 6, 1, 2, 2, 3), 1);
}

fn pattern() -> Vec<Voxel> {
    chunk(7, 6, 8, &|i, j, k| {
        let mix = i * 7 + j * 13 + k * 29 + i * j * k;
        match mix % 5 {
            0 => Voxel::Air,
            1 => Voxel::Glass,
            2 => Voxel::Stone(1),
            3 => Voxel::Stone(2),
            _ => Voxel::Stone(1),
        }
    })
}

fn at(voxels: &[Voxel], cell: UVec3) -> Voxel {
    voxels[ChunkShape::<7, 6, 8>::linearize(cell) as usize]
}

fn exposed_cells(voxels: &[Voxel], face: &OrientedBlockFace) -> Vec<UVec3> {
    let mut cells = Vec::new();
    for z in 1..7 {
        for y in 1..5 {
            for x in 1..6 {
                let cell = UVec3::new(x, y, z);
                let neighbor = if face.is_front { cell.plus(face.n) } else { cell.minus(face.n) };
                let shows = matches!(
                    (at(voxels, cell).get_visibility(), at(voxels, neighbor).get_visibility()),
                    (VoxelVisibility::Translucent, VoxelVisibility::Empty)
                        | (VoxelVisibility::Opaque, VoxelVisibility::Empty)
                        | (VoxelVisibility::Opaque, VoxelVisibility::Translucent)
                );
                if shows {
                    cells.push(cell);
                }
            }
        }
    }
    cells
}

fn cells_of(quad: &UnorientedQuad, face: &OrientedBlockFace) -> Vec<UVec3> {
    let mut cells = Vec::new();
    for a in 0..quad.width {
        for b in 0..quad.height {
            cells.push(quad.minimum.moved(face.u, a).moved(face.v, b));
        }
    }
    cells
}

fn sorted(mut cells: Vec<UVec3>) -> Vec<(u32, u32, u32)> {
    let mut keys: Vec<(u32, u32, u32)> = cells.drain(..).map(|c| (c.x, c.y, c.z)).collect();
    keys.sort();
    keys
}

#[test]
fn rectangles_cover_the_exposed_faces_and_do_not_overlap() {
    let voxels = pattern();
    let mut visited = VisitedBuffer::new(voxels.len());
    let mut buffer = PopBuffer::<2, UnorientedQuad>::new();
    greedy_quads::<7, 6, 8, 2, Voxel>(&voxels, &mut visited, &mut buffer);
    let mut drawn = QuadBuffer::<UnorientedQuad>::new();
    extract_lod(&buffer, &mut drawn, 0);
    let faces = OrientedBlockFace::faces();
    let mut rectangles = 0;
    let mut faces_of_cells = 0;
    for index in 0..6 {
        let mut held = Vec::new();
        for quad in drawn.quads(index).iter() {
            assert!(quad.width >= 1 && quad.height >= 1);
            let cells = cells_of(quad, &faces[index]);
            let first = at(&voxels, quad.minimum);
            for cell in cells.iter() {
                assert_eq!(at(&voxels, *cell), first);
            }
            held.extend(cells);
            rectangles += 1;
        }
        let held = sorted(held);
        let mut unique = held.clone();
        unique.dedup();
        assert_eq!(held, unique);
        assert_eq!(held, sorted(exposed_cells(&voxels, &faces[index])));
        faces_of_cells += held.len();
    }
    assert_eq!(buffer.num_quads(), rectangles);
    assert!(rectangles < faces_of_cells);
}

#[test]
fn unit_quads_cover_each_exposed_face_once() {
    let voxels = pattern();
    let mut visited = VisitedBuffer::new(voxels.len());
    let mut buffer = PopBuffer::<2, UnorientedUnitQuad>::new();
    visible_faces_quads::<7, 6, 8, 2, Voxel>(&voxels, &mut visited, &mut buffer);
    let mut drawn = QuadBuffer::<UnorientedRegularQuad>::new();
    extract_lod(&buffer, &mut drawn, 0);
    let faces = OrientedBlockFace::faces();
    let mut total = 0;
    for index in 0..6 {
        let quads = drawn.quads(index);
        assert!(quads.iter().all(|quad| quad.size == 1));
        let held = sorted(quads.iter().map(|quad| quad.minimum).collect());
        assert_eq!(held, sorted(exposed_cells(&voxels, &faces[index])));
        total += held.len();
    }
    assert_eq!(buffer.num_quads(), total);
    let buckets = buffer.get_buckets();
    assert!(buckets[0] <= buckets[1]);
    assert_eq!(buckets[1] as usize, total);
}

#[test]
fn quads_drawn_at_a_level_fall_into_different_cells_of_its_grid() {
    let voxels = pattern();
    let mut visited = VisitedBuffer::new(voxels.len());
    let mut buffer = PopBuffer::<2, UnorientedUnitQuad>::new();
    visible_faces_quads::<7, 6, 8, 2, Voxel>(&voxels, &mut visited, &mut buffer);
    for level in 0..2 {
        let mut drawn = QuadBuffer::<UnorientedRegularQuad>::new();
        expand_to_lod(&buffer, &mut drawn, level);
        for index in 0..6 {
            let held = sorted(drawn.quads(index).iter().map(|quad| quad.minimum).collect());
            let mut unique = held.clone();
            unique.dedup();
            assert_eq!(held, unique);
        }
    }
}

#[test]
fn merge_value_of_the_padding_has_no_part_in_the_rectangles() {
    #[derive(Clone, Copy, Debug, PartialEq, Eq)]
    struct Tagged {
        solid: bool,
        own: u8,
        shown: u8,
    }
    impl MeshVoxel for Tagged {
        fn get_visibility(&self) -> VoxelVisibility {
            if self.solid {
                VoxelVisibility::Opaque
            } else {
                VoxelVisibility::Empty
            }
        }
    }
    impl MergeVoxel for Tagged {
        type MergeValue = u8;
        type MergeValueFacingNeighbour = u8;
        fn merge_value(&self) -> u8 {
            self.own
        }
        fn merge_value_facing_neighbour(&self) -> u8 {
            self.shown
        }
    }
    let build = |own_of_padding: &dyn Fn(u32) -> u8, shown_of_padding: &dyn Fn(u32) -> u8| {
        let mut voxels = Vec::new();
        for k in 0..4u32 {
            for j in 0..4u32 {
                for i in 0..5u32 {
                    let inside = (1..=3).contains(&i) && (1..=2).contains(&j) && (1..=2).contains(&k);
                    voxels.push(if inside {
                        Tagged { solid: true, own: 1, shown: 1 }
                    } else {
                        Tagged { solid: false, own: own_of_padding(i), shown: shown_of_padding(i) }
                    });
                }
            }
        }
        voxels
    };
    let mesh = |voxels: &[Tagged]| {
        let mut visited = VisitedBuffer::new(voxels.len());
        let mut buffer = PopBuffer::<2, UnorientedQuad>::new();
        greedy_quads::<5, 4, 4, 2, Tagged>(voxels, &mut visited, &mut buffer);
        buffer.iter_quads()
    };
    let plain = mesh(&build(&|_| 0, &|_| 0));
    let other_own = mesh(&build(&|i| i as u8, &|_| 0));
    assert_eq!(plain, other_own);
    assert_eq!(plain.len(), 6);
    let other_shown = mesh(&build(&|_| 0, &|i| i as u8));
    assert_ne!(plain, other_shown);
    assert!(other_shown.len() > 6);
}
