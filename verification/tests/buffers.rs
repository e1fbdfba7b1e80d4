use block_mesh_pop::{
    OrientedBlockFace, PopBuffer, QuadBuffer, UVec3, UnorientedUnitQuad, VisitedBuffer,
};

fn unit(x: u32, y: u32, z: u32) -> UnorientedUnitQuad {
    UnorientedUnitQuad { minimum: UVec3::new(x, y, z) }
}

#[test]
fn visited_buffer_starts_without_marks() {
    let mut visited = VisitedBuffer::new(5);
    assert_eq!(visited.as_slice(), &[0, 0, 0, 0, 0]);
    visited.set(3, 0b101);
    assert_eq!(visited.get(3), 0b101);
    assert_eq!(visited.as_slice(), &[0, 0, 0, 5, 0]);
    visited.reset();
    assert_eq!(visited.as_slice(), &[0, 0, 0, 0, 0]);
    assert!(VisitedBuffer::new(0).as_slice().is_empty());
}

#[test]
fn quad_buffer_keeps_the_quads_of_each_face_in_order() {
    let mut buffer = QuadBuffer::<UnorientedUnitQuad>::new();
    assert_eq!(buffer.num_quads(), 0);
    buffer.push(4, unit(1, 1, 1));
    buffer.push(0, unit(2, 2, 2));
    buffer.push(4, unit(3, 3, 3));
    assert_eq!(buffer.num_quads(), 3);
    assert_eq!(buffer.quads(4).as_slice(), &[unit(1, 1, 1), unit(3, 3, 3)]);
    assert_eq!(buffer.quads(0).as_slice(), &[unit(2, 2, 2)]);
    assert!(buffer.quads(1).is_empty());

    let faces = OrientedBlockFace::faces();
    let mut copy = QuadBuffer::<UnorientedUnitQuad>::default();
    copy.push(4, unit(1, 1, 1));
    copy.push(0, unit(2, 2, 2));
    copy.push(4, unit(3, 3, 3));
    assert_eq!(
        copy.iter_quads(),
        vec![(faces[0], unit(2, 2, 2)), (faces[4], unit(1, 1, 1)), (faces[4], unit(3, 3, 3))]
    );
    let groups = buffer.iter_groups();
    assert_eq!(groups.len(), 6);
    for index in 0..6 {
        assert_eq!(groups[index].0, faces[index]);
    }
    assert_eq!(groups[0].1, vec![unit(2, 2, 2)]);
    assert_eq!(groups[4].1, vec![unit(1, 1, 1), unit(3, 3, 3)]);
    assert!(groups[5].1.is_empty());
}

#[test]
fn quad_buffer_is_empty_after_a_reset() {
    let mut buffer = QuadBuffer::<UnorientedUnitQuad>::new();
    buffer.push(2, unit(1, 1, 1));
    buffer.push(5, unit(1, 1, 1));
    buffer.reset();
    assert_eq!(buffer.num_quads(), 0);
    for face in 0..6 {
        assert!(buffer.quads(face).is_empty());
    }
}

fn filled() -> PopBuffer<3, UnorientedUnitQuad> {
    let mut buffer = PopBuffer::<3, UnorientedUnitQuad>::new();
    buffer.add_quad(0, unit(1, 1, 1), 0);
    buffer.add_quad(5, unit(2, 1, 1), 1);
    buffer.add_quad(1, unit(3, 1, 1), 2);
    buffer.add_quad(0, unit(4, 1, 1), 0);
    buffer.add_quad(5, unit(5, 1, 1), 1);
    buffer.add_quad(5, unit(6, 1, 1), 1);
    buffer
}

#[test]
fn pop_buffer_counts_the_quads_that_are_drawn_at_a_level() {
    let buffer = filled();
    assert_eq!(buffer.num_quads(), 6);
    assert_eq!(buffer.num_quads_lod(0), 6);
    assert_eq!(buffer.num_quads_lod(1), 4);
    assert_eq!(buffer.num_quads_lod(2), 1);
    assert_eq!(buffer.num_quads_lod(3), 0);
    assert_eq!(buffer.quads(0, 0).as_slice(), &[unit(1, 1, 1), unit(4, 1, 1)]);
    assert_eq!(
        buffer.quads(5, 1).as_slice(),
        &[unit(2, 1, 1), unit(5, 1, 1), unit(6, 1, 1)]
    );
    assert_eq!(buffer.quads(1, 2).as_slice(), &[unit(3, 1, 1)]);
    assert!(buffer.quads(1, 0).is_empty());
}

#[test]
fn buckets_count_the_quads_of_a_level_and_lower() {
    let buffer = filled();
    assert_eq!(buffer.get_buckets(), [2, 5, 6, 6, 6, 6, 6, 6]);
    let buckets = buffer.get_buckets();
    for level in 0..7 {
        assert!(buckets[level] <= buckets[level + 1]);
    }
    let mut one = PopBuffer::<1, UnorientedUnitQuad>::new();
    one.add_quad(3, unit(1, 1, 1), 0);
    assert_eq!(one.get_buckets(), [1; 8]);
    let mut eight = PopBuffer::<8, UnorientedUnitQuad>::new();
    eight.add_quad(3, unit(1, 1, 1), 7);
    eight.add_quad(3, unit(1, 1, 1), 2);
    assert_eq!(eight.get_buckets(), [0, 0, 1, 1, 1, 1, 1, 2]);
    assert_eq!(PopBuffer::<4, UnorientedUnitQuad>::new().get_buckets(), [0; 8]);
}

#[test]
fn quads_of_a_higher_level_come_first() {
    let faces = OrientedBlockFace::faces();
    let all = filled().iter_quads();
    assert_eq!(
        all,
        vec![
            (faces[1], unit(3, 1, 1)),
            (faces[5], unit(2, 1, 1)),
            (faces[5], unit(5, 1, 1)),
            (faces[5], unit(6, 1, 1)),
            (faces[0], unit(1, 1, 1)),
            (faces[0], unit(4, 1, 1)),
        ]
    );
    assert_eq!(filled().iter_quads_lod(0), all);
    for level in 0..=3 {
        let drawn = filled().iter_quads_lod(level);
        assert_eq!(drawn.len(), filled().num_quads_lod(level));
        assert_eq!(drawn.as_slice(), &all[..drawn.len()]);
    }
    assert_eq!(filled().iter_quads_lod(2), vec![(faces[1], unit(3, 1, 1))]);
    assert!(filled().iter_quads_lod(3).is_empty());
}

#[test]
fn pop_buffer_is_empty_after_a_reset() {
    let mut buffer = filled();
    buffer.reset();
    assert_eq!(buffer.num_quads(), 0);
    assert_eq!(buffer.get_buckets(), [0; 8]);
    for face in 0..6 {
        for level in 0..3 {
            assert!(buffer.quads(face, level).is_empty());
        }
    }
    buffer.add_quad(2, unit(1, 1, 1), 2);
    assert_eq!(buffer.num_quads(), 1);
    assert!(PopBuffer::<3, UnorientedUnitQuad>::new().iter_quads().is_empty());
}
