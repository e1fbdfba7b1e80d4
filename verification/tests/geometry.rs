use block_mesh_pop::{
    Axis, AxisPermutation, ChunkShape, IVec3, OrientedBlockFace, UVec3, UnorientedQuad,
    UnorientedRegularQuad, UnorientedUnitQuad,
};

fn v(x: u32, y: u32, z: u32) -> UVec3 {
    UVec3::new(x, y, z)
}

#[test]
fn vectors_add_scale_and_multiply() {
    assert_eq!(v(1, 2, 3).dot(v(4, 5, 6)), 32);
    assert_eq!(v(7, 8, 9).dot(UVec3::unit_y()), 8);
    assert_eq!(v(1, 2, 3).plus(v(10, 20, 30)), v(11, 22, 33));
    assert_eq!(v(11, 22, 33).minus(v(10, 20, 30)), v(1, 2, 3));
    assert_eq!(v(1, 0, 2).scaled(5), v(5, 0, 10));
    assert_eq!(v(1, 2, 3).moved(UVec3::unit_z(), 4), v(1, 2, 7));
    assert_eq!(UVec3::unit_x(), v(1, 0, 0));
    assert_eq!(IVec3::new(-1, 0, 2), IVec3 { x: -1, y: 0, z: 2 });
}

#[test]
fn axes_have_unit_vectors() {
    assert_eq!(Axis::X.get_unit_vector(), v(1, 0, 0));
    assert_eq!(Axis::Y.get_unit_vector(), v(0, 1, 0));
    assert_eq!(Axis::Z.get_unit_vector(), v(0, 0, 1));
    assert_eq!(Axis::X.get_signed_vector(true), IVec3::new(1, 0, 0));
    assert_eq!(Axis::X.get_signed_vector(false), IVec3::new(-1, 0, 0));
    assert_eq!(Axis::Y.get_signed_vector(false), IVec3::new(0, -1, 0));
    assert_eq!(Axis::Z.get_signed_vector(true), IVec3::new(0, 0, 1));
}

#[test]
fn rotations_of_xyz_are_even() {
    let even = [AxisPermutation::Xyz, AxisPermutation::Zxy, AxisPermutation::Yzx];
    let odd = [AxisPermutation::Zyx, AxisPermutation::Xzy, AxisPermutation::Yxz];
    for permutation in even {
        assert_eq!(permutation.parity(), 1);
        assert!(permutation.is_even());
    }
    for permutation in odd {
        assert_eq!(permutation.parity(), -1);
        assert!(!permutation.is_even());
    }
}

#[test]
fn permutations_name_their_axes() {
    assert_eq!(AxisPermutation::Xyz.axes(), [Axis::X, Axis::Y, Axis::Z]);
    assert_eq!(AxisPermutation::Zxy.axes(), [Axis::Z, Axis::X, Axis::Y]);
    assert_eq!(AxisPermutation::Yzx.axes(), [Axis::Y, Axis::Z, Axis::X]);
    assert_eq!(AxisPermutation::Zyx.axes(), [Axis::Z, Axis::Y, Axis::X]);
    assert_eq!(AxisPermutation::Xzy.axes(), [Axis::X, Axis::Z, Axis::Y]);
    assert_eq!(AxisPermutation::Yxz.axes(), [Axis::Y, Axis::X, Axis::Z]);
    let all = [
        AxisPermutation::Xyz,
        AxisPermutation::Zxy,
        AxisPermutation::Yzx,
        AxisPermutation::Zyx,
        AxisPermutation::Xzy,
        AxisPermutation::Yxz,
    ];
    for permutation in all {
        assert_eq!(
            permutation.axes(),
            [permutation.n_axis(), permutation.u_axis(), permutation.v_axis()]
        );
    }
}

#[test]
fn the_six_faces_look_down_and_up_the_axes() {
    let faces = OrientedBlockFace::faces();
    let normals = [v(1, 0, 0), v(0, 1, 0), v(0, 0, 1)];
    let us = [v(0, 0, 1), v(0, 0, 1), v(1, 0, 0)];
    let vs = [v(0, 1, 0), v(1, 0, 0), v(0, 1, 0)];
    let even = [false, true, true];
    for index in 0..6 {
        let face = faces[index];
        assert_eq!(face.is_front, index >= 3);
        assert_eq!(face.n_sign, if index >= 3 { 1 } else { -1 });
        assert_eq!(face.n, normals[index % 3]);
        assert_eq!(face.u, us[index % 3]);
        assert_eq!(face.v, vs[index % 3]);
        assert_eq!(face.is_even, even[index % 3]);
        let n = normals[index % 3];
        let sign = face.n_sign;
        assert_eq!(
            face.signed_n,
            IVec3::new(n.x as i32 * sign, n.y as i32 * sign, n.z as i32 * sign)
        );
    }
    assert_eq!(faces[4], OrientedBlockFace::new(true, AxisPermutation::Yzx));
    assert_eq!(faces[2].position(7, 8, 9), v(8, 9, 7));
}

#[test]
fn triangles_wind_by_side_and_parity() {
    let faces = OrientedBlockFace::faces();
    let counter_clockwise = [10, 11, 12, 11, 13, 12];
    let clockwise = [10, 12, 11, 11, 12, 13];
    assert_eq!(faces[0].quad_mesh_indices(10), counter_clockwise);
    assert_eq!(faces[1].quad_mesh_indices(10), clockwise);
    assert_eq!(faces[2].quad_mesh_indices(10), clockwise);
    assert_eq!(faces[3].quad_mesh_indices(10), clockwise);
    assert_eq!(faces[4].quad_mesh_indices(10), counter_clockwise);
    assert_eq!(faces[5].quad_mesh_indices(10), counter_clockwise);
    assert_eq!(
        faces[0].quad_mesh_indices(u32::MAX - 3),
        [
            u32::MAX - 3,
            u32::MAX - 2,
            u32::MAX - 1,
            u32::MAX - 2,
            u32::MAX,
            u32::MAX - 1
        ]
    );
}

#[test]
fn corners_of_a_quad_span_its_width_and_height() {
    let faces = OrientedBlockFace::faces();
    let quad = UnorientedQuad { minimum: v(1, 2, 3), width: 2, height: 3 };
    assert_eq!(
        faces[3].quad_corners(quad, 1),
        [v(1, 2, 3), v(1, 2, 5), v(1, 5, 3), v(1, 5, 5)]
    );
    assert_eq!(
        faces[0].quad_corners(quad, 1),
        [v(3, 2, 3), v(3, 2, 5), v(3, 5, 3), v(3, 5, 5)]
    );
    assert_eq!(
        faces[2].quad_corners(quad, 0),
        [v(1, 2, 4), v(3, 2, 4), v(1, 5, 4), v(3, 5, 4)]
    );
    let unit = UnorientedUnitQuad { minimum: v(4, 4, 4) };
    assert_eq!(
        faces[4].quad_corners(unit.into(), 3),
        [v(4, 4, 4), v(4, 4, 5), v(5, 4, 4), v(5, 4, 5)]
    );
    let square = UnorientedRegularQuad { minimum: v(1, 1, 1), size: 4 };
    assert_eq!(
        faces[1].quad_corners(square.into(), 2),
        [v(1, 5, 1), v(1, 5, 5), v(5, 5, 1), v(5, 5, 5)]
    );
}

#[test]
fn normals_of_a_quad_are_the_signed_normal() {
    let faces = OrientedBlockFace::faces();
    assert_eq!(faces[0].quad_mesh_normals(), [IVec3::new(-1, 0, 0); 4]);
    assert_eq!(faces[5].quad_mesh_normals(), [IVec3::new(0, 0, 1); 4]);
}

#[test]
fn quads_convert_to_squares_and_rectangles() {
    let unit = UnorientedUnitQuad { minimum: v(3, 4, 5) };
    let square = UnorientedRegularQuad::from(unit);
    assert_eq!(square, UnorientedRegularQuad { minimum: v(3, 4, 5), size: 1 });
    assert_eq!(
        UnorientedQuad::from(unit),
        UnorientedQuad { minimum: v(3, 4, 5), width: 1, height: 1 }
    );
    assert_eq!(UnorientedQuad::from(square), UnorientedQuad::from(unit));
    let wide = UnorientedRegularQuad { minimum: v(1, 1, 1), size: 8 };
    assert_eq!(
        UnorientedQuad::from(wide),
        UnorientedQuad { minimum: v(1, 1, 1), width: 8, height: 8 }
    );
}

#[test]
fn cells_are_stored_x_fastest() {
    assert_eq!(ChunkShape::<4, 5, 6>::shape(), v(4, 5, 6));
    assert_eq!(ChunkShape::<4, 5, 6>::linearize(v(0, 0, 0)), 0);
    assert_eq!(ChunkShape::<4, 5, 6>::linearize(v(1, 2, 3)), 69);
    assert_eq!(ChunkShape::<4, 5, 6>::linearize(v(3, 4, 5)), 119);
    assert_eq!(ChunkShape::<4, 5, 6>::delinearize(69), v(1, 2, 3));
    assert_eq!(ChunkShape::<4, 5, 6>::delinearize(0), v(0, 0, 0));
    for index in 0..120 {
        let cell = ChunkShape::<4, 5, 6>::delinearize(index);
        assert!(cell.x < 4 && cell.y < 5 && cell.z < 6);
        assert_eq!(ChunkShape::<4, 5, 6>::linearize(cell), index);
    }
    assert_eq!(ChunkShape::<4, 5, 6>::delinearize(125), v(1, 1, 6));
}

#[test]
fn strides_of_a_face_step_along_its_vectors() {
    let faces = OrientedBlockFace::faces();
    let back_x = ChunkShape::<4, 5, 6>::face_strides(faces[0]);
    assert_eq!((back_x.n, back_x.u, back_x.v), (u32::MAX, 20, 4));
    let back_y = ChunkShape::<4, 5, 6>::face_strides(faces[1]);
    assert_eq!((back_y.n, back_y.u, back_y.v), (0u32.wrapping_sub(4), 20, 1));
    let back_z = ChunkShape::<4, 5, 6>::face_strides(faces[2]);
    assert_eq!((back_z.n, back_z.u, back_z.v), (0u32.wrapping_sub(20), 1, 4));
    let front_x = ChunkShape::<4, 5, 6>::face_strides(faces[3]);
    assert_eq!((front_x.n, front_x.u, front_x.v), (1, 20, 4));
    let front_y = ChunkShape::<4, 5, 6>::face_strides(faces[4]);
    assert_eq!((front_y.n, front_y.u, front_y.v), (4, 20, 1));
    let front_z = ChunkShape::<4, 5, 6>::face_strides(faces[5]);
    assert_eq!((front_z.n, front_z.u, front_z.v), (20, 1, 4));
    let index = ChunkShape::<4, 5, 6>::linearize(v(2, 2, 2));
    assert_eq!(
        index.wrapping_add(back_y.n),
        ChunkShape::<4, 5, 6>::linearize(v(2, 1, 2))
    );
}

#[test]
fn localize_counts_depth_from_the_side_of_the_face() {
    let faces = OrientedBlockFace::faces();
    assert_eq!(ChunkShape::<4, 5, 6>::localize(faces[0], 1, 2, 3), v(2, 3, 2));
    assert_eq!(ChunkShape::<4, 5, 6>::localize(faces[3], 1, 2, 3), v(1, 3, 2));
    assert_eq!(ChunkShape::<4, 5, 6>::localize(faces[1], 0, 2, 3), v(3, 4, 2));
    assert_eq!(ChunkShape::<4, 5, 6>::localize(faces[5], 4, 1, 2), v(1, 2, 4));
    assert_eq!(ChunkShape::<4, 5, 6>::localize(faces[2], 5, 1, 2), v(1, 2, 0));
}

fn collect_inner<const F: usize>() -> Vec<UVec3> {
    let mut walk = ChunkShape::<4, 3, 5>::inner_iter::<F>();
    let mut cells = Vec::new();
    while let Some(cell) = walk.next() {
        cells.push(cell);
    }
    assert_eq!(walk.next(), None);
    assert_eq!(walk.next(), None);
    cells
}

#[test]
fn inner_walk_takes_planes_from_the_side_of_the_face() {
    assert_eq!(
        collect_inner::<0>(),
        vec![v(1, 1, 1), v(1, 1, 2), v(1, 1, 3), v(2, 1, 1), v(2, 1, 2), v(2, 1, 3)]
    );
    assert_eq!(
        collect_inner::<3>(),
        vec![v(2, 1, 1), v(2, 1, 2), v(2, 1, 3), v(1, 1, 1), v(1, 1, 2), v(1, 1, 3)]
    );
    assert_eq!(
        collect_inner::<2>(),
        vec![v(1, 1, 1), v(2, 1, 1), v(1, 1, 2), v(2, 1, 2), v(1, 1, 3), v(2, 1, 3)]
    );
    assert_eq!(
        collect_inner::<4>(),
        vec![v(1, 1, 1), v(1, 1, 2), v(1, 1, 3), v(2, 1, 1), v(2, 1, 2), v(2, 1, 3)]
    );
}

#[test]
fn inner_walk_yields_each_interior_cell_once() {
    fn check<const F: usize>() {
        let mut walk = ChunkShape::<5, 4, 6>::inner_iter::<F>();
        let mut seen = vec![0u32; 5 * 4 * 6];
        let mut count = 0;
        while let Some(cell) = walk.next() {
            assert!(1 <= cell.x && cell.x <= 3);
            assert!(1 <= cell.y && cell.y <= 2);
            assert!(1 <= cell.z && cell.z <= 4);
            seen[ChunkShape::<5, 4, 6>::linearize(cell) as usize] += 1;
            count += 1;
        }
        assert_eq!(count, 3 * 2 * 4);
        assert!(seen.iter().all(|&times| times <= 1));
        assert_eq!(seen.iter().sum::<u32>(), 24);
    }
    check::<0>();
    check::<1>();
    check::<2>();
    check::<3>();
    check::<4>();
    check::<5>();
}

#[test]
fn slice_walk_takes_a_plane_row_by_row() {
    let faces = OrientedBlockFace::faces();
    let mut walk = ChunkShape::<4, 4, 5>::slice_iter(faces[2], 2);
    let mut cells = Vec::new();
    while let Some(cell) = walk.next() {
        cells.push(cell);
    }
    assert_eq!(cells, vec![v(1, 1, 2), v(2, 1, 2), v(1, 2, 2), v(2, 2, 2)]);
    assert_eq!(walk.next(), None);
    assert_eq!(walk.next(), None);

    let mut walk = ChunkShape::<4, 4, 5>::slice_iter(faces[3], 1);
    let mut cells = Vec::new();
    while let Some(cell) = walk.next() {
        cells.push(cell);
    }
    assert_eq!(
        cells,
        vec![v(1, 1, 1), v(1, 1, 2), v(1, 1, 3), v(1, 2, 1), v(1, 2, 2), v(1, 2, 3)]
    );

    let mut walk = ChunkShape::<3, 3, 3>::slice_iter(faces[1], 1);
    assert_eq!(walk.next(), Some(v(1, 1, 1)));
    assert_eq!(walk.next(), None);
}
