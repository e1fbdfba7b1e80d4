//! The buffers that the meshers write: the quads, bucketed by level of detail
//! and by face, and the marks on the cells.

use crate::geometry::face::OrientedBlockFace;
use crate::geometry::quad::UnorientedQuad;
use vstd::prelude::*;

verus! {

/// Whether bit `lod` of `byte` is set.
pub open spec fn bit(byte: u8, lod: int) -> bool {
    byte & (1u8 << (lod as u8)) != 0
}

/// Setting bit `lod` of a byte sets that bit and leaves the others.
pub proof fn lemma_bit_set(byte: u8, lod: int, other: int)
    requires
        0 <= lod < 8,
        0 <= other < 8,
    ensures
        bit(byte | (1u8 << (lod as u8)), other) == (bit(byte, other) || other == lod),
        !bit(0u8, other),
{
    let l = lod as u8;
    let j = other as u8;
    assert(((byte | (1u8 << l)) & (1u8 << j) != 0) == ((byte & (1u8 << j) != 0) || j == l))
        by (bit_vector)
        requires
            l < 8,
            j < 8,
    ;
    assert(0u8 & (1u8 << j) == 0) by (bit_vector);
}

/// One byte of marks for each cell of a chunk: bit `l` of a cell's byte says
/// that a quad of level of detail `l` covers the cell.
#[derive(Debug)]
pub struct VisitedBuffer {
    pub(crate) visited: Vec<u8>,
}

impl View for VisitedBuffer {
    type V = Seq<u8>;

    closed spec fn view(&self) -> Seq<u8> {
        self.visited@
    }
}

impl VisitedBuffer {
    /// A buffer for `size` cells, none of them marked.
    #[inline]
    pub fn new(size: usize) -> (r: Self)
        ensures
            r@ == Seq::new(size as nat, |i: int| 0u8),
    {
        let mut visited: Vec<u8> = Vec::new();
        let mut i: usize = 0;
        while i < size
            invariant
                i <= size,
                visited@ == Seq::new(i as nat, |j: int| 0u8),
            decreases size - i,
        {
            visited.push(0);
            i += 1;
            assert(visited@ =~= Seq::new(i as nat, |j: int| 0u8));
        }
        Self { visited }
    }

    /// The marks of the cell with index `index`.
    #[inline]
    pub fn get(&self, index: usize) -> (r: u8)
        requires
            index < self@.len(),
        ensures
            r == self@[index as int],
    {
        self.visited[index]
    }

    /// Replaces the marks of the cell with index `index` by `marks`.
    #[inline]
    pub fn set(&mut self, index: usize, marks: u8)
        requires
            index < old(self)@.len(),
        ensures
            final(self)@ == old(self)@.update(index as int, marks),
    {
        self.visited[index] = marks;
    }

    /// The marks of all cells.
    #[inline]
    pub fn as_slice(&self) -> (r: &[u8])
        ensures
            r@ == self@,
    {
        self.visited.as_slice()
    }

    /// Takes every mark away.
    #[inline]
    pub fn reset(&mut self)
        ensures
            final(self)@ == Seq::new(old(self)@.len(), |i: int| 0u8),
    {
        let n = self.visited.len();
        let mut i: usize = 0;
        while i < n
            invariant
                i <= n,
                self.visited@.len() == n,
                forall|j: int| 0 <= j < i ==> self.visited@[j] == 0u8,
            decreases n - i,
        {
            self.visited[i] = 0;
            i += 1;
        }
        assert(self.visited@ =~= Seq::new(n as nat, |i: int| 0u8));
    }
}

/// Quads, one list for each of the six faces.
#[derive(Debug)]
pub struct QuadBuffer<Q: Into<UnorientedQuad>> {
    pub(crate) groups: [Vec<Q>; 6],
}

impl<Q: Into<UnorientedQuad>> QuadBuffer<Q> {
    /// The quads of the face with index `face`, in the order in which they
    /// were added.
    pub closed spec fn face_quads(&self, face: int) -> Seq<Q> {
        self.groups@[face]@
    }

    /// The number of quads.
    pub open spec fn len_spec(&self) -> nat {
        self.face_quads(0).len() + self.face_quads(1).len() + self.face_quads(2).len()
            + self.face_quads(3).len() + self.face_quads(4).len() + self.face_quads(5).len()
    }

    /// A buffer without quads.
    #[inline]
    pub fn new() -> (r: Self)
        ensures
            forall|face: int| 0 <= face < 6 ==> #[trigger] r.face_quads(face) == Seq::<Q>::empty(),
    {
        Self { groups: [Vec::new(), Vec::new(), Vec::new(), Vec::new(), Vec::new(), Vec::new()] }
    }

    /// Takes every quad away.
    #[inline]
    pub fn reset(&mut self)
        ensures
            forall|face: int|
                0 <= face < 6 ==> #[trigger] final(self).face_quads(face) == Seq::<Q>::empty(),
    {
        let mut i: usize = 0;
        while i < 6
            invariant
                i <= 6,
                forall|face: int|
                    0 <= face < i ==> (#[trigger] self.groups@[face])@ == Seq::<Q>::empty(),
            decreases 6 - i,
        {
            self.groups[i].clear();
            i += 1;
        }
    }

    /// The quads of the face with index `face_index`.
    #[inline]
    pub fn quads(&self, face_index: usize) -> (r: &Vec<Q>)
        requires
            face_index < 6,
        ensures
            r@ == self.face_quads(face_index as int),
    {
        &self.groups[face_index]
    }

    /// Adds `quad` to the quads of the face with index `face_index`.
    #[inline]
    pub fn push(&mut self, face_index: usize, quad: Q)
        requires
            face_index < 6,
        ensures
            final(self).face_quads(face_index as int) == old(self).face_quads(
                face_index as int,
            ).push(quad),
            forall|face: int|
                0 <= face < 6 && face != face_index ==> #[trigger] final(self).face_quads(face)
                    == old(self).face_quads(face),
    {
        self.groups[face_index].push(quad);
    }

    /// The number of quads.
    #[inline]
    pub fn num_quads(&self) -> (r: usize)
        requires
            self.len_spec() <= usize::MAX,
        ensures
            r == self.len_spec(),
    {
        self.groups[0].len() + self.groups[1].len() + self.groups[2].len() + self.groups[3].len()
            + self.groups[4].len() + self.groups[5].len()
    }

    /// Each face with its quads, in the order of the faces.
    #[inline]
    pub fn iter_groups(self) -> (r: Vec<(OrientedBlockFace, Vec<Q>)>)
        ensures
            r@.len() == 6,
            forall|face: int|
                0 <= face < 6 ==> (#[trigger] r@[face]).0 == OrientedBlockFace::face(face)
                    && r@[face].1@ == self.face_quads(face),
    {
        let faces = OrientedBlockFace::faces();
        let mut groups = self.groups;
        let mut out: Vec<(OrientedBlockFace, Vec<Q>)> = Vec::new();
        let mut i: usize = 0;
        while i < 6
            invariant
                i <= 6,
                out@.len() == i,
                forall|face: int| 0 <= face < 6 ==> faces@[face] == OrientedBlockFace::face(face),
                forall|face: int|
                    0 <= face < i ==> (#[trigger] out@[face]).0 == OrientedBlockFace::face(face)
                        && out@[face].1@ == self.groups@[face]@,
                forall|face: int|
                    i <= face < 6 ==> (#[trigger] groups@[face]) == self.groups@[face],
            decreases 6 - i,
        {
            let mut group: Vec<Q> = Vec::new();
            core::mem::swap(&mut group, &mut groups[i]);
            out.push((faces[i], group));
            i += 1;
        }
        out
    }

    /// The quads with their faces: those of the first face, then those of
    /// the second, and so on.
    pub open spec fn pairs(&self) -> Seq<(OrientedBlockFace, Q)> {
        self.tagged(0) + self.tagged(1) + self.tagged(2) + self.tagged(3) + self.tagged(4)
            + self.tagged(5)
    }

    /// The quads of the face with index `face`, each with that face.
    pub open spec fn tagged(&self, face: int) -> Seq<(OrientedBlockFace, Q)> {
        self.face_quads(face).map_values(|quad: Q| (OrientedBlockFace::face(face), quad))
    }
}

impl<Q: Into<UnorientedQuad> + Copy> QuadBuffer<Q> {
    /// Each quad with its face: the quads of the first face, then those of
    /// the second, and so on.
    #[inline]
    pub fn iter_quads(self) -> (r: Vec<(OrientedBlockFace, Q)>)
        ensures
            r@ == self.pairs(),
    {
        let mut out: Vec<(OrientedBlockFace, Q)> = Vec::new();
        self.append_pairs(&mut out);
        assert(out@ =~= self.pairs());
        out
    }

    /// Appends each quad with its face to `out`.
    pub(crate) fn append_pairs(&self, out: &mut Vec<(OrientedBlockFace, Q)>)
        ensures
            final(out)@ == old(out)@ + self.pairs(),
    {
        let faces = OrientedBlockFace::faces();
        let ghost start = out@;
        let mut f: usize = 0;
        let ghost mut done: Seq<(OrientedBlockFace, Q)> = Seq::empty();
        while f < 6
            invariant
                f <= 6,
                forall|face: int| 0 <= face < 6 ==> faces@[face] == OrientedBlockFace::face(face),
                out@ == start + done,
                done == self.pairs_upto(f as int),
            decreases 6 - f,
        {
            let group = &self.groups[f];
            let face = faces[f];
            let mut i: usize = 0;
            while i < group.len()
                invariant
                    i <= group.len(),
                    face == OrientedBlockFace::face(f as int),
                    group@ == self.face_quads(f as int),
                    out@ == start + done + self.tagged(f as int).take(i as int),
                decreases group.len() - i,
            {
                out.push((face, group[i]));
                i += 1;
                assert(self.tagged(f as int).take(i as int) =~= self.tagged(f as int).take(
                    i as int - 1,
                ).push((face, group@[i as int - 1])));
                assert(out@ =~= start + done + self.tagged(f as int).take(i as int));
            }
            proof {
                assert(self.tagged(f as int).take(i as int) =~= self.tagged(f as int));
                done = done + self.tagged(f as int);
                assert(out@ =~= start + done);
            }
            f += 1;
        }
        proof {
            assert(self.pairs_upto(6) =~= self.pairs()) by {
                reveal_with_fuel(QuadBuffer::pairs_upto, 7);
            }
        }
    }

    /// The quads with their faces, of the first `n` faces.
    spec fn pairs_upto(&self, n: int) -> Seq<(OrientedBlockFace, Q)>
        decreases n,
    {
        if n <= 0 {
            Seq::empty()
        } else {
            self.pairs_upto(n - 1) + self.tagged(n - 1)
        }
    }
}

impl<Q: Into<UnorientedQuad>> Default for QuadBuffer<Q> {
    fn default() -> (r: Self)
        ensures
            forall|face: int| 0 <= face < 6 ==> #[trigger] r.face_quads(face) == Seq::<Q>::empty(),
    {
        Self::new()
    }
}

/// Quads, bucketed by level of detail and by face. The level of detail of
/// a bucket is the highest at which its quads are drawn: at level `l` the
/// quads of the buckets `l` to `M - 1` are drawn.
pub struct PopBuffer<const M: usize, Q: Into<UnorientedQuad>> {
    pub(crate) groups: Vec<QuadBuffer<Q>>,
}

impl<const M: usize, Q: Into<UnorientedQuad>> PopBuffer<M, Q> {
    /// Whether the buffer has its `M` levels.
    pub closed spec fn wf(&self) -> bool {
        self.groups@.len() == M
    }

    /// The quads of level `lod` and of the face with index `face`, in the
    /// order in which they were added.
    pub closed spec fn bucket(&self, lod: int, face: int) -> Seq<Q> {
        self.groups@[lod].face_quads(face)
    }

    /// The number of quads of level `lod`; none, where there is no such
    /// level.
    pub open spec fn level_len(&self, lod: int) -> nat {
        if 0 <= lod < M {
            self.bucket(lod, 0).len() + self.bucket(lod, 1).len() + self.bucket(lod, 2).len()
                + self.bucket(lod, 3).len() + self.bucket(lod, 4).len() + self.bucket(
                lod,
                5,
            ).len()
        } else {
            0
        }
    }

    /// The number of quads of level `lod` and higher: those that are drawn at
    /// level `lod`.
    pub open spec fn count_from(&self, lod: int) -> nat
        decreases M - lod,
    {
        if 0 <= lod < M {
            self.level_len(lod) + self.count_from(lod + 1)
        } else {
            0
        }
    }

    /// The number of quads of level `lod` and lower.
    pub open spec fn count_upto(&self, lod: int) -> nat
        decreases lod + 1,
    {
        if 0 <= lod {
            self.level_len(lod) + self.count_upto(lod - 1)
        } else {
            0
        }
    }

    /// The quads of level `lod` with their faces, face by face.
    pub open spec fn level_pairs(&self, lod: int) -> Seq<(OrientedBlockFace, Q)> {
        self.tagged(lod, 0) + self.tagged(lod, 1) + self.tagged(lod, 2) + self.tagged(lod, 3)
            + self.tagged(lod, 4) + self.tagged(lod, 5)
    }

    /// The quads of one bucket, each with the bucket's face.
    pub open spec fn tagged(&self, lod: int, face: int) -> Seq<(OrientedBlockFace, Q)> {
        self.bucket(lod, face).map_values(|quad: Q| (OrientedBlockFace::face(face), quad))
    }

    /// The quads of level `lod` and higher with their faces: the highest
    /// level first, each level face by face.
    pub open spec fn pairs_from(&self, lod: int) -> Seq<(OrientedBlockFace, Q)>
        decreases M - lod,
    {
        if 0 <= lod < M {
            self.pairs_from(lod + 1) + self.level_pairs(lod)
        } else {
            Seq::empty()
        }
    }

    /// A buffer of `M` levels without quads.
    #[inline]
    pub fn new() -> (r: Self)
        ensures
            r.wf(),
            forall|lod: int, face: int|
                0 <= lod < M && 0 <= face < 6 ==> #[trigger] r.bucket(lod, face) == Seq::<
                    Q,
                >::empty(),
    {
        let mut groups: Vec<QuadBuffer<Q>> = Vec::new();
        let mut i: usize = 0;
        while i < M
            invariant
                i <= M,
                groups@.len() == i,
                forall|lod: int, face: int|
                    0 <= lod < i && 0 <= face < 6 ==> #[trigger] groups@[lod].face_quads(face)
                        == Seq::<Q>::empty(),
            decreases M - i,
        {
            groups.push(QuadBuffer::new());
            i += 1;
        }
        Self { groups }
    }

    /// Takes every quad away. The storage of the buckets is kept.
    #[inline]
    pub fn reset(&mut self)
        requires
            old(self).wf(),
        ensures
            final(self).wf(),
            forall|lod: int, face: int|
                0 <= lod < M && 0 <= face < 6 ==> #[trigger] final(self).bucket(lod, face) == Seq::<
                    Q,
                >::empty(),
    {
        let mut i: usize = 0;
        while i < M
            invariant
                i <= M,
                self.groups@.len() == M,
                forall|lod: int, face: int|
                    0 <= lod < i && 0 <= face < 6 ==> #[trigger] self.groups@[lod].face_quads(face)
                        == Seq::<Q>::empty(),
            decreases M - i,
        {
            self.groups[i].reset();
            i += 1;
        }
    }

    /// The quads of the bucket of level `lod` and of the face with index
    /// `face_index`.
    #[inline]
    pub fn quads(&self, face_index: usize, lod: usize) -> (r: &Vec<Q>)
        requires
            self.wf(),
            face_index < 6,
            lod < M,
        ensures
            r@ == self.bucket(lod as int, face_index as int),
    {
        self.groups[lod].quads(face_index)
    }

    /// The quads of the face with index `face` that are drawn at level `lod`:
    /// those of the highest level first, then those of the level below, down
    /// to those of level `lod`.
    pub open spec fn drawn_from(&self, lod: int, face: int) -> Seq<Q>
        decreases M - lod,
    {
        if 0 <= lod < M {
            self.drawn_from(lod + 1, face) + self.bucket(lod, face)
        } else {
            Seq::empty()
        }
    }

    /// Adds `quad` to the bucket of level `lod` and of the face with index
    /// `face_index`.
    #[inline]
    pub fn add_quad(&mut self, face_index: usize, quad: Q, lod: usize)
        requires
            old(self).wf(),
            face_index < 6,
            lod < M,
        ensures
            final(self).wf(),
            final(self).bucket(lod as int, face_index as int) == old(self).bucket(
                lod as int,
                face_index as int,
            ).push(quad),
            forall|l: int, f: int|
                0 <= l < M && 0 <= f < 6 && !(l == lod && f == face_index)
                    ==> #[trigger] final(self).bucket(l, f) == old(self).bucket(l, f),
    {
        self.groups[lod].push(face_index, quad);
    }

    /// The number of quads.
    #[inline]
    pub fn num_quads(&self) -> (r: usize)
        requires
            self.wf(),
            self.count_from(0) <= usize::MAX,
        ensures
            r == self.count_from(0),
    {
        self.num_quads_lod(0)
    }

    /// The number of quads that are drawn at level `lod`: those of level
    /// `lod` and higher.
    #[inline]
    pub fn num_quads_lod(&self, lod: usize) -> (r: usize)
        requires
            self.wf(),
            lod <= M,
            self.count_from(lod as int) <= usize::MAX,
        ensures
            r == self.count_from(lod as int),
    {
        let mut quads: usize = 0;
        let mut i: usize = M;
        while i > lod
            invariant
                lod <= i <= M,
                self.wf(),
                quads == self.count_from(i as int),
                self.count_from(lod as int) <= usize::MAX,
            decreases i,
        {
            i -= 1;
            proof {
                self.lemma_count_from_monotone(lod as int, i as int);
                assert(self.level_len(i as int) == self.groups@[i as int].len_spec());
            }
            quads += self.groups[i].num_quads();
        }
        quads
    }

    /// For each level of detail from 0 to 7, the number of quads of that
    /// level and lower. From the highest level of the buffer on this is the
    /// number of all quads.
    #[inline]
    pub fn get_buckets(&self) -> (r: [u32; 8])
        requires
            self.wf(),
            M <= 8,
            self.count_upto(7) <= u32::MAX,
        ensures
            forall|i: int| 0 <= i < 8 ==> #[trigger] r@[i] == self.count_upto(i),
            forall|i: int| 0 <= i < 7 ==> #[trigger] r@[i] <= r@[i + 1],
            forall|i: int| 1 <= M <= i < 8 ==> #[trigger] r@[i] == r@[M - 1],
    {
        let mut buckets: [u32; 8] = [0, 0, 0, 0, 0, 0, 0, 0];
        let mut total: u32 = 0;
        let mut i: usize = 0;
        while i < 8
            invariant
                i <= 8,
                self.wf(),
                M <= 8,
                self.count_upto(7) <= u32::MAX,
                total == self.count_upto(i as int - 1),
                forall|j: int| 0 <= j < i ==> #[trigger] buckets@[j] == self.count_upto(j),
            decreases 8 - i,
        {
            proof {
                self.lemma_count_upto_monotone(i as int, 7);
            }
            if i < M {
                assert(self.level_len(i as int) == self.groups@[i as int].len_spec());
                let level: usize = self.groups[i].num_quads();
                total = total + level as u32;
            }
            buckets[i] = total;
            i += 1;
        }
        proof {
            assert forall|i: int| 0 <= i < 7 implies #[trigger] buckets@[i] <= buckets@[i + 1] by {
                self.lemma_count_upto_monotone(i, i + 1);
            }
            assert forall|i: int| 1 <= M <= i < 8 implies #[trigger] buckets@[i] == buckets@[M
                - 1] by {
                self.lemma_count_upto_saturates(i);
            }
        }
        buckets
    }

    /// The higher the level, the more quads are of that level and lower.
    pub proof fn lemma_count_upto_monotone(&self, low: int, high: int)
        requires
            low <= high,
        ensures
            self.count_upto(low) <= self.count_upto(high),
        decreases high - low,
    {
        if low < high {
            self.lemma_count_upto_monotone(low, high - 1);
        }
    }

    /// From the highest level of the buffer on, the quads of that level and
    /// lower are all the quads.
    pub proof fn lemma_count_upto_saturates(&self, lod: int)
        requires
            1 <= M <= lod,
        ensures
            self.count_upto(lod) == self.count_upto(M - 1),
        decreases lod,
    {
        if M < lod {
            self.lemma_count_upto_saturates(lod - 1);
        }
    }

    /// The quads that are drawn at a level are the first of those that are
    /// drawn at a lower level.
    pub proof fn lemma_pairs_from_prefix(&self, low: int, high: int)
        requires
            0 <= low <= high,
        ensures
            self.pairs_from(high).is_prefix_of(self.pairs_from(low)),
        decreases high - low,
    {
        if low < high && low < M {
            self.lemma_pairs_from_prefix(low + 1, high);
        }
    }

    /// As many quads are listed for a level as are counted for it.
    pub proof fn lemma_pairs_from_len(&self, lod: int)
        requires
            0 <= lod,
        ensures
            self.pairs_from(lod).len() == self.count_from(lod),
        decreases M - lod,
    {
        if lod < M {
            self.lemma_pairs_from_len(lod + 1);
        }
    }

    /// The quads that are drawn at a level are those that are drawn there
    /// on the six faces.
    pub proof fn lemma_count_from_by_face(&self, lod: int)
        requires
            0 <= lod,
        ensures
            self.count_from(lod) == self.drawn_from(lod, 0).len() + self.drawn_from(lod, 1).len()
                + self.drawn_from(lod, 2).len() + self.drawn_from(lod, 3).len()
                + self.drawn_from(lod, 4).len() + self.drawn_from(lod, 5).len(),
        decreases M - lod,
    {
        if lod < M {
            self.lemma_count_from_by_face(lod + 1);
        }
    }

    /// The higher the level, the fewer quads are drawn.
    pub proof fn lemma_count_from_monotone(&self, low: int, high: int)
        requires
            0 <= low <= high,
        ensures
            self.count_from(high) <= self.count_from(low),
        decreases high - low,
    {
        if low < high {
            self.lemma_count_from_monotone(low + 1, high);
        }
    }
}

impl<const M: usize, Q: Into<UnorientedQuad> + Copy> PopBuffer<M, Q> {
    /// Each quad with its face: the quads of the highest level first, each
    /// level face by face.
    #[inline]
    pub fn iter_quads(self) -> (r: Vec<(OrientedBlockFace, Q)>)
        requires
            self.wf(),
        ensures
            r@ == self.pairs_from(0),
    {
        self.iter_quads_lod(0)
    }

    /// Each quad that is drawn at level `lod` with its face: the quads of
    /// the highest level first, each level face by face.
    #[inline]
    pub fn iter_quads_lod(self, lod: usize) -> (r: Vec<(OrientedBlockFace, Q)>)
        requires
            self.wf(),
            lod <= M,
        ensures
            r@ == self.pairs_from(lod as int),
    {
        let mut out: Vec<(OrientedBlockFace, Q)> = Vec::new();
        let mut i: usize = M;
        while i > lod
            invariant
                lod <= i <= M,
                self.wf(),
                out@ == self.pairs_from(i as int),
            decreases i,
        {
            i -= 1;
            assert(self.level_pairs(i as int) == self.groups@[i as int].pairs());
            self.groups[i].append_pairs(&mut out);
        }
        out
    }
}

} // verus!
