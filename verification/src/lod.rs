//! The quads of a buffer as they are drawn at one level of detail.

use crate::buffer::{PopBuffer, QuadBuffer};
use crate::geometry::face::OrientedBlockFace;
use crate::geometry::quad::{UnorientedQuad, UnorientedRegularQuad, UnorientedUnitQuad};
use crate::greedy;
use crate::visible_faces;
use vstd::arithmetic::power2::pow2;
use vstd::prelude::*;

verus! {

/// A quad that can be drawn at a level of detail above its own: there it
/// covers whole cells of the grid of that level.
pub trait LodQuad: Into<UnorientedQuad> + Copy {
    /// What the quad becomes.
    type Inflated: Into<UnorientedQuad>;

    /// Whether the quad on `face` can be drawn at level `lod`: it lies at 1
    /// or further on each axis, and its far end rounded up to the grid fits
    /// the coordinates.
    spec fn inflatable(self, face: OrientedBlockFace, lod: nat) -> bool;

    /// The quad on `face` as it is drawn at level `lod`.
    spec fn inflated(self, face: OrientedBlockFace, lod: nat) -> Self::Inflated;

    /// The quad on `face` as it is drawn at level `lod`.
    fn inflate(self, face: OrientedBlockFace, lod: usize) -> (r: Self::Inflated)
        requires
            self.inflatable(face, lod as nat),
        ensures
            r == self.inflated(face, lod as nat),
    ;
}

impl LodQuad for UnorientedUnitQuad {
    type Inflated = UnorientedRegularQuad;

    open spec fn inflatable(self, face: OrientedBlockFace, lod: nat) -> bool {
        &&& lod < 32
        &&& 1 <= self.minimum.x
        &&& 1 <= self.minimum.y
        &&& 1 <= self.minimum.z
    }

    open spec fn inflated(self, face: OrientedBlockFace, lod: nat) -> UnorientedRegularQuad {
        visible_faces::into_lod_spec(self, lod)
    }

    #[inline]
    fn inflate(self, face: OrientedBlockFace, lod: usize) -> (r: UnorientedRegularQuad) {
        visible_faces::into_lod(self, lod)
    }
}

impl LodQuad for UnorientedQuad {
    type Inflated = UnorientedQuad;

    open spec fn inflatable(self, face: OrientedBlockFace, lod: nat) -> bool {
        &&& face.wf()
        &&& lod < 32
        &&& 1 <= self.minimum.x
        &&& 1 <= self.minimum.y
        &&& 1 <= self.minimum.z
        &&& self.minimum.along(face.u) + self.width + pow2(lod) <= u32::MAX
        &&& self.minimum.along(face.v) + self.height + pow2(lod) <= u32::MAX
    }

    open spec fn inflated(self, face: OrientedBlockFace, lod: nat) -> UnorientedQuad {
        greedy::into_lod_spec(self, face, lod)
    }

    #[inline]
    fn inflate(self, face: OrientedBlockFace, lod: usize) -> (r: UnorientedQuad) {
        greedy::into_lod(self, face, lod)
    }
}

/// Whether each quad of `pop_buffer` that is drawn at level `lod` can be
/// drawn there.
pub open spec fn all_inflatable<const M: usize, Q: LodQuad>(
    pop_buffer: PopBuffer<M, Q>,
    lod: nat,
) -> bool {
    forall|l: int, face: int, i: int|
        lod <= l < M && 0 <= face < 6 && 0 <= i < pop_buffer.bucket(l, face).len() ==> (
        #[trigger] pop_buffer.bucket(l, face)[i]).inflatable(OrientedBlockFace::face(face), lod)
}

/// The quads of the face with index `face` that are drawn at level `lod`, as
/// they are drawn there: those of the highest level first.
pub open spec fn inflated_from<const M: usize, Q: LodQuad>(
    pop_buffer: PopBuffer<M, Q>,
    lod: nat,
    face: int,
) -> Seq<Q::Inflated> {
    pop_buffer.drawn_from(lod as int, face).map_values(
        |quad: Q| quad.inflated(OrientedBlockFace::face(face), lod),
    )
}

/// Adds to `out_quads`, face by face, each quad of `pop_buffer` that is drawn
/// at level `lod`, as it is drawn there: the quads of level `lod` and
/// higher, those of the highest level first.
pub fn extract_lod<const M: usize, Q: LodQuad>(
    pop_buffer: &PopBuffer<M, Q>,
    out_quads: &mut QuadBuffer<Q::Inflated>,
    lod: usize,
)
    requires
        pop_buffer.wf(),
        all_inflatable(*pop_buffer, lod as nat),
    ensures
        forall|face: int|
            0 <= face < 6 ==> #[trigger] final(out_quads).face_quads(face) == old(
                out_quads,
            ).face_quads(face) + inflated_from(*pop_buffer, lod as nat, face),
{
    if lod >= M {
        proof {
            assert forall|face: int| 0 <= face < 6 implies #[trigger] out_quads.face_quads(face)
                == old(out_quads).face_quads(face) + inflated_from(
                *pop_buffer,
                lod as nat,
                face,
            ) by {
                assert(old(out_quads).face_quads(face) + inflated_from(
                    *pop_buffer,
                    lod as nat,
                    face,
                ) =~= old(out_quads).face_quads(face));
            }
        }
        return ;
    }
    let faces = OrientedBlockFace::faces();
    let mut level: usize = M;
    proof {
        assert forall|face: int| 0 <= face < 6 implies #[trigger] out_quads.face_quads(face) == old(
            out_quads,
        ).face_quads(face) + inflated_from(*pop_buffer, level as nat, face) by {
            assert(old(out_quads).face_quads(face) + inflated_from(
                *pop_buffer,
                level as nat,
                face,
            ) =~= old(out_quads).face_quads(face));
        }
    }
    while level > lod
        invariant
            lod <= level <= M,
            pop_buffer.wf(),
            all_inflatable(*pop_buffer, lod as nat),
            forall|face: int| 0 <= face < 6 ==> faces@[face] == OrientedBlockFace::face(face),
            forall|face: int|
                0 <= face < 6 ==> #[trigger] out_quads.face_quads(face) == old(
                    out_quads,
                ).face_quads(face) + pop_buffer.drawn_from(level as int, face).map_values(
                    |quad: Q| quad.inflated(OrientedBlockFace::face(face), lod as nat),
                ),
        decreases level,
    {
        level -= 1;
        let mut face_index: usize = 0;
        while face_index < 6
            invariant
                lod <= level < M,
                face_index <= 6,
                pop_buffer.wf(),
                all_inflatable(*pop_buffer, lod as nat),
                forall|face: int| 0 <= face < 6 ==> faces@[face] == OrientedBlockFace::face(face),
                forall|face: int|
                    0 <= face < face_index ==> #[trigger] out_quads.face_quads(face) == old(
                        out_quads,
                    ).face_quads(face) + pop_buffer.drawn_from(level as int, face).map_values(
                        |quad: Q| quad.inflated(OrientedBlockFace::face(face), lod as nat),
                    ),
                forall|face: int|
                    face_index <= face < 6 ==> #[trigger] out_quads.face_quads(face) == old(
                        out_quads,
                    ).face_quads(face) + pop_buffer.drawn_from(level + 1, face).map_values(
                        |quad: Q| quad.inflated(OrientedBlockFace::face(face), lod as nat),
                    ),
            decreases 6 - face_index,
        {
            let face = faces[face_index];
            let quads = pop_buffer.quads(face_index, level);
            let ghost start = out_quads.face_quads(face_index as int);
            let ghost inflate = |quad: Q|
                quad.inflated(OrientedBlockFace::face(face_index as int), lod as nat);
            let mut i: usize = 0;
            while i < quads.len()
                invariant
                    lod <= level < M,
                    face_index < 6,
                    i <= quads.len(),
                    pop_buffer.wf(),
                    all_inflatable(*pop_buffer, lod as nat),
                    face == OrientedBlockFace::face(face_index as int),
                    quads@ == pop_buffer.bucket(level as int, face_index as int),
                    inflate == |quad: Q|
                        quad.inflated(OrientedBlockFace::face(face_index as int), lod as nat),
                    out_quads.face_quads(face_index as int) == start + quads@.take(
                        i as int,
                    ).map_values(inflate),
                    forall|other: int|
                        0 <= other < 6 && other != face_index ==> #[trigger] out_quads.face_quads(
                            other,
                        ) == old(out_quads).face_quads(other) + pop_buffer.drawn_from(
                            if other < face_index {
                                level as int
                            } else {
                                level + 1
                            },
                            other,
                        ).map_values(
                            |quad: Q| quad.inflated(OrientedBlockFace::face(other), lod as nat),
                        ),
                decreases quads.len() - i,
            {
                let quad = quads[i];
                assert(quad == pop_buffer.bucket(level as int, face_index as int)[i as int]);
                out_quads.push(face_index, quad.inflate(face, lod));
                i += 1;
                assert(quads@.take(i as int).map_values(inflate) =~= quads@.take(
                    i as int - 1,
                ).map_values(inflate).push(inflate(quad)));
            }
            proof {
                assert(quads@.take(i as int) =~= quads@);
                let below = pop_buffer.drawn_from(level + 1, face_index as int);
                assert(pop_buffer.drawn_from(level as int, face_index as int) == below + quads@);
                assert((below + quads@).map_values(inflate) =~= below.map_values(inflate)
                    + quads@.map_values(inflate));
                assert(out_quads.face_quads(face_index as int) =~= old(out_quads).face_quads(
                    face_index as int,
                ) + pop_buffer.drawn_from(level as int, face_index as int).map_values(inflate));
            }
            face_index += 1;
        }
    }
}

/// Adds to `out`, face by face, each unit quad of `pop_buffer` that is drawn
/// at level `lod`, as the square of 2^lod cells that holds it.
pub fn expand_to_lod<const M: usize>(
    pop_buffer: &PopBuffer<M, UnorientedUnitQuad>,
    out: &mut QuadBuffer<UnorientedRegularQuad>,
    lod: usize,
)
    requires
        pop_buffer.wf(),
        all_inflatable(*pop_buffer, lod as nat),
    ensures
        forall|face: int|
            0 <= face < 6 ==> #[trigger] final(out).face_quads(face) == old(out).face_quads(face)
                + pop_buffer.drawn_from(lod as int, face).map_values(
                |quad: UnorientedUnitQuad| visible_faces::into_lod_spec(quad, lod as nat),
            ),
{
    extract_lod(pop_buffer, out, lod);
    proof {
        assert forall|face: int| 0 <= face < 6 implies #[trigger] out.face_quads(face) == old(
            out,
        ).face_quads(face) + pop_buffer.drawn_from(lod as int, face).map_values(
            |quad: UnorientedUnitQuad| visible_faces::into_lod_spec(quad, lod as nat),
        ) by {
            assert(inflated_from(*pop_buffer, lod as nat, face) =~= pop_buffer.drawn_from(
                lod as int,
                face,
            ).map_values(
                |quad: UnorientedUnitQuad| visible_faces::into_lod_spec(quad, lod as nat),
            ));
        }
    }
}

/// Adds to `out`, face by face, each rectangle of `pop_buffer` that is drawn
/// at level `lod`, rounded out to the grid of 2^lod cells.
pub fn expand_greedy_to_lod<const M: usize>(
    pop_buffer: &PopBuffer<M, UnorientedQuad>,
    out: &mut QuadBuffer<UnorientedQuad>,
    lod: usize,
)
    requires
        pop_buffer.wf(),
        all_inflatable(*pop_buffer, lod as nat),
    ensures
        forall|face: int|
            0 <= face < 6 ==> #[trigger] final(out).face_quads(face) == old(out).face_quads(face)
                + pop_buffer.drawn_from(lod as int, face).map_values(
                |quad: UnorientedQuad|
                    greedy::into_lod_spec(quad, OrientedBlockFace::face(face), lod as nat),
            ),
{
    extract_lod(pop_buffer, out, lod);
    proof {
        assert forall|face: int| 0 <= face < 6 implies #[trigger] out.face_quads(face) == old(
            out,
        ).face_quads(face) + pop_buffer.drawn_from(lod as int, face).map_values(
            |quad: UnorientedQuad|
                greedy::into_lod_spec(quad, OrientedBlockFace::face(face), lod as nat),
        ) by {
            assert(inflated_from(*pop_buffer, lod as nat, face) =~= pop_buffer.drawn_from(
                lod as int,
                face,
            ).map_values(
                |quad: UnorientedQuad|
                    greedy::into_lod_spec(quad, OrientedBlockFace::face(face), lod as nat),
            ));
        }
    }
}

} // verus!
