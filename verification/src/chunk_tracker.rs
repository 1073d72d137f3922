//! Which pieces are still wanted, which chunks have arrived, and which pieces are
//! verified.

use vstd::prelude::*;
use crate::bitfield::BF;
use crate::lengths::{ceil_div, lemma_ceil_div, ChunkInfo, Lengths, ValidPieceIndex};
use crate::protocol::Piece;

verus! {

/// What the arrival of a chunk did to its piece.
#[derive(Debug, Clone, Copy, PartialEq, Eq)]
pub enum ChunkMarkingResult {
    /// Every chunk of the piece had arrived before.
    PreviouslyCompleted,
    /// The piece still lacks chunks.
    NotCompleted,
    /// This chunk was the last one the piece lacked.
    Completed,
}

/// The sum of the lengths of the pieces below `n` that `chosen` picks.
pub open spec fn sum_piece_lengths(lengths: Lengths, chosen: spec_fn(int) -> bool, n: int) -> int
    decreases n,
{
    if n <= 0 {
        0
    } else {
        sum_piece_lengths(lengths, chosen, n - 1) + if chosen(n - 1) {
            lengths.spec_piece_length(n - 1)
        } else {
            0
        }
    }
}

/// A sum of piece lengths is at most the length of the pieces it ranges over.
pub proof fn lemma_sum_bound(lengths: Lengths, chosen: spec_fn(int) -> bool, n: int)
    requires
        lengths.wf(),
        0 <= n <= lengths.spec_total_pieces(),
    ensures
        0 <= sum_piece_lengths(lengths, chosen, n) <= n * lengths.piece_length,
        sum_piece_lengths(lengths, chosen, n) <= lengths.total_length,
    decreases n,
{
    let pl = lengths.piece_length as int;
    let last = lengths.last_piece_id as int;
    if n > 0 {
        lemma_sum_bound(lengths, chosen, n - 1);
        lengths.lemma_piece(n - 1);
        assert(n * pl == (n - 1) * pl + pl) by (nonlinear_arith);
        if n - 1 == last {
            assert(sum_piece_lengths(lengths, chosen, n) <= last * pl + lengths.last_piece_length);
        } else {
            assert(n * pl <= last * pl) by (nonlinear_arith)
                requires
                    n <= last,
                    pl >= 0,
            ;
        }
    } else {
        assert(0 * pl == 0) by (nonlinear_arith);
    }
}

/// Two choices that differ at piece `p` at most give sums that differ by the length
/// of `p` at most.
pub proof fn lemma_sum_differs_at(
    lengths: Lengths,
    before: spec_fn(int) -> bool,
    after: spec_fn(int) -> bool,
    p: int,
    n: int,
)
    requires
        forall|q: int| 0 <= q < n && q != p ==> #[trigger] before(q) == after(q),
    ensures
        sum_piece_lengths(lengths, after, n) == sum_piece_lengths(lengths, before, n) + (if 0 <= p
            < n && after(p) && !before(p) {
            lengths.spec_piece_length(p)
        } else if 0 <= p < n && !after(p) && before(p) {
            -lengths.spec_piece_length(p)
        } else {
            0
        }),
    decreases n,
{
    if n > 0 {
        lemma_sum_differs_at(lengths, before, after, p, n - 1);
    }
}

/// A sum of piece lengths is zero if and only if no piece is chosen.
pub proof fn lemma_sum_zero(lengths: Lengths, chosen: spec_fn(int) -> bool, n: int)
    requires
        lengths.wf(),
        0 <= n <= lengths.spec_total_pieces(),
    ensures
        sum_piece_lengths(lengths, chosen, n) == 0 <==> (forall|p: int|
            0 <= p < n ==> !#[trigger] chosen(p)),
    decreases n,
{
    if n > 0 {
        lemma_sum_zero(lengths, chosen, n - 1);
        lemma_sum_bound(lengths, chosen, n - 1);
        lengths.lemma_piece(n - 1);
        if sum_piece_lengths(lengths, chosen, n) == 0 {
            assert forall|p: int| 0 <= p < n implies !#[trigger] chosen(p) by {
                if p == n - 1 {
                } else {
                }
            }
        }
    }
}

/// Whether the slot of chunk `c` of piece `p` is set in `status`.
pub open spec fn slot_set(lengths: Lengths, status: Seq<bool>, p: int, c: int) -> bool {
    status[lengths.spec_chunk_range_start(p) + c]
}

/// The tracker of a torrent's pieces and chunks.
#[derive(Debug)]
pub struct ChunkTracker {
    /// The queue of pieces to ask for. A piece leaves it when a peer reserves it.
    pub needed_pieces: BF,
    /// One bit per chunk slot, set once the chunk has arrived.
    pub chunk_status: BF,
    /// The pieces that are complete and verified.
    pub have: BF,
    pub lengths: Lengths,
}

impl ChunkTracker {
    /// The three bitmaps have the sizes that the lengths ask for.
    pub open spec fn wf(&self) -> bool {
        &&& self.lengths.wf()
        &&& self.needed_pieces.bytes().len() == self.lengths.spec_piece_bitfield_bytes()
        &&& self.have.bytes().len() == self.lengths.spec_piece_bitfield_bytes()
        &&& self.chunk_status.bytes().len() == ceil_div(self.lengths.spec_chunk_slots(), 8)
    }

    /// Whether piece `p` waits in the queue.
    pub open spec fn is_needed(&self, p: int) -> bool {
        self.lengths.valid_piece(p) && self.needed_pieces@[p]
    }

    /// Whether piece `p` is verified.
    pub open spec fn is_have(&self, p: int) -> bool {
        self.lengths.valid_piece(p) && self.have@[p]
    }

    /// Whether chunk `c` of piece `p` has arrived.
    pub open spec fn chunk_done(&self, p: int, c: int) -> bool {
        slot_set(self.lengths, self.chunk_status@, p, c)
    }

    /// Whether every chunk of piece `p` has arrived.
    pub open spec fn piece_complete(&self, p: int) -> bool {
        forall|c: int|
            0 <= c < self.lengths.spec_chunks_per_piece(p) ==> #[trigger] self.chunk_done(p, c)
    }

    /// Whether every verified piece has all its chunks.
    pub open spec fn verified_are_complete(&self) -> bool {
        forall|p: int|
            self.lengths.valid_piece(p) && #[trigger] self.have@[p] ==> self.piece_complete(p)
    }

    /// Whether piece `p` is neither verified nor complete: it has to be downloaded.
    pub open spec fn is_unfinished(&self, p: int) -> bool {
        self.lengths.valid_piece(p) && !self.have@[p] && !self.piece_complete(p)
    }

    /// The bytes of the pieces that are neither verified nor complete.
    pub open spec fn unfinished_bytes(&self) -> int {
        sum_piece_lengths(
            self.lengths,
            |p: int| self.is_unfinished(p),
            self.lengths.spec_total_pieces(),
        )
    }

    /// The bytes of the pieces that are verified.
    pub open spec fn have_bytes(&self) -> int {
        sum_piece_lengths(self.lengths, |p: int| self.have@[p], self.lengths.spec_total_pieces())
    }

    /// The bytes of the pieces in the queue.
    pub open spec fn needed_bytes(&self) -> int {
        sum_piece_lengths(
            self.lengths,
            |p: int| self.needed_pieces@[p],
            self.lengths.spec_total_pieces(),
        )
    }

    /// The chunk slots that belong to piece `p`.
    pub open spec fn in_slots_of(&self, p: int, k: int) -> bool {
        self.lengths.spec_chunk_range_start(p) <= k < self.lengths.spec_chunk_range_start(p)
            + self.lengths.chunks_per_piece
    }

    /// A change of the chunk slots of one piece leaves it to that piece whether any
    /// other piece is complete.
    pub proof fn lemma_other_piece_same(&self, after: &ChunkTracker, p: int, q: int)
        requires
            self.wf(),
            after.lengths == self.lengths,
            after.chunk_status@.len() == self.chunk_status@.len(),
            self.lengths.valid_piece(p),
            self.lengths.valid_piece(q),
            q != p,
            forall|k: int|
                0 <= k < self.chunk_status@.len() && !self.in_slots_of(p, k)
                    ==> after.chunk_status@[k] == self.chunk_status@[k],
        ensures
            after.piece_complete(q) == self.piece_complete(q),
    {
        let lengths = self.lengths;
        let cpp = lengths.chunks_per_piece as int;
        self.lemma_sizes();
        lengths.lemma_piece(q);
        lengths.lemma_piece(p);
        if q < p {
            assert(q * cpp + cpp <= p * cpp) by (nonlinear_arith)
                requires
                    q < p,
                    cpp >= 0,
            ;
        } else {
            assert(p * cpp + cpp <= q * cpp) by (nonlinear_arith)
                requires
                    p < q,
                    cpp >= 0,
            ;
        }
        assert forall|c: int| 0 <= c < lengths.spec_chunks_per_piece(q) implies after.chunk_done(
            q,
            c,
        ) == self.chunk_done(q, c) by {
            let k = lengths.spec_chunk_range_start(q) + c;
            assert(!self.in_slots_of(p, k));
        }
        if self.piece_complete(q) {
            assert forall|c: int|
                0 <= c < lengths.spec_chunks_per_piece(q) implies #[trigger] after.chunk_done(
                q,
                c,
            ) by {
                assert(self.chunk_done(q, c));
            }
        }
        if after.piece_complete(q) {
            assert forall|c: int|
                0 <= c < lengths.spec_chunks_per_piece(q) implies #[trigger] self.chunk_done(
                q,
                c,
            ) by {
                assert(after.chunk_done(q, c));
            }
        }
    }

    /// Whether a piece is complete depends on the lengths and the chunks that have
    /// arrived only.
    pub proof fn lemma_piece_complete_same(&self, other: &ChunkTracker, p: int)
        requires
            self.lengths == other.lengths,
            self.chunk_status@ == other.chunk_status@,
        ensures
            self.piece_complete(p) == other.piece_complete(p),
    {
        if self.piece_complete(p) {
            assert forall|c: int|
                0 <= c < other.lengths.spec_chunks_per_piece(p) implies #[trigger] other.chunk_done(
                p,
                c,
            ) by {
                assert(self.chunk_done(p, c));
            }
        }
        if other.piece_complete(p) {
            assert forall|c: int|
                0 <= c < self.lengths.spec_chunks_per_piece(p) implies #[trigger] self.chunk_done(
                p,
                c,
            ) by {
                assert(other.chunk_done(p, c));
            }
        }
    }

    /// The sizes that `wf` implies.
    pub proof fn lemma_sizes(&self)
        requires
            self.wf(),
        ensures
            self.needed_pieces@.len() >= self.lengths.spec_total_pieces(),
            self.have@.len() >= self.lengths.spec_total_pieces(),
            self.chunk_status@.len() >= self.lengths.spec_chunk_slots(),
            self.lengths.spec_chunk_slots() <= u32::MAX,
            self.lengths.spec_total_pieces() <= u32::MAX,
    {
        self.lengths.lemma_piece(0);
        lemma_ceil_div(self.lengths.spec_total_pieces(), 8);
        lemma_ceil_div(self.lengths.spec_chunk_slots(), 8);
        assert(self.lengths.spec_total_pieces() * self.lengths.chunks_per_piece
            >= self.lengths.spec_total_pieces()) by (nonlinear_arith)
            requires
                self.lengths.chunks_per_piece >= 1,
                self.lengths.spec_total_pieces() >= 0,
        ;
    }

    /// A tracker in which the pieces of `needed_pieces` wait in the queue, the
    /// pieces of `have_pieces` are verified, and the chunks of exactly the pieces
    /// outside the queue count as arrived.
    pub fn new(needed_pieces: BF, have_pieces: BF, lengths: Lengths) -> (r: ChunkTracker)
        requires
            lengths.wf(),
            needed_pieces.bytes().len() == lengths.spec_piece_bitfield_bytes(),
            have_pieces.bytes().len() == lengths.spec_piece_bitfield_bytes(),
        ensures
            r.wf(),
            r.needed_pieces == needed_pieces,
            r.have == have_pieces,
            r.lengths == lengths,
            forall|p: int, c: int|
                lengths.valid_piece(p) && 0 <= c < lengths.spec_chunks_per_piece(p)
                    ==> #[trigger] r.chunk_done(p, c) == !needed_pieces@[p],
            (forall|p: int|
                lengths.valid_piece(p) && #[trigger] have_pieces@[p] ==> !needed_pieces@[p])
                ==> r.verified_are_complete(),
    {
        let slots = lengths.chunk_slots();
        proof {
            lemma_ceil_div(slots as int, 8);
            lemma_ceil_div(lengths.spec_total_pieces(), 8);
            lengths.lemma_piece(0);
        }
        let bytes = crate::lengths::ceil_div_u32(slots, 8);
        let mut chunk_status = BF::zeroed(bytes as usize);
        let total = lengths.total_pieces();
        let mut p: u32 = 0;
        while p < total
            invariant
                lengths.wf(),
                total == lengths.spec_total_pieces(),
                p <= total,
                needed_pieces@.len() >= total,
                chunk_status.bytes().len() == ceil_div(lengths.spec_chunk_slots(), 8),
                chunk_status@.len() >= lengths.spec_chunk_slots(),
                forall|q: int, c: int|
                    0 <= q < p && 0 <= c < lengths.spec_chunks_per_piece(q) ==> #[trigger] slot_set(
                        lengths,
                        chunk_status@,
                        q,
                        c,
                    ) == !needed_pieces@[q],
                forall|k: int|
                    lengths.spec_chunk_range_start(p as int) <= k < chunk_status@.len()
                        ==> !chunk_status@[k],
            decreases total - p,
        {
            let index = ValidPieceIndex(p);
            let start = lengths.chunk_range_start(index);
            let n = lengths.chunks_per_piece(index);
            let fill = !needed_pieces.is_set(p as usize);
            proof {
                lengths.lemma_piece(p as int);
                assert((p + 1) * lengths.chunks_per_piece == p * lengths.chunks_per_piece
                    + lengths.chunks_per_piece) by (nonlinear_arith);
            }
            let ghost before = chunk_status@;
            let mut c: u32 = 0;
            while c < n
                invariant
                    lengths.wf(),
                    lengths.valid_piece(p as int),
                    start == lengths.spec_chunk_range_start(p as int),
                    n == lengths.spec_chunks_per_piece(p as int),
                    n <= lengths.chunks_per_piece,
                    start + lengths.chunks_per_piece <= lengths.spec_chunk_slots(),
                    lengths.spec_chunk_slots() <= u32::MAX,
                    c <= n,
                    chunk_status.bytes().len() == ceil_div(lengths.spec_chunk_slots(), 8),
                    chunk_status@.len() == before.len(),
                    chunk_status@.len() >= lengths.spec_chunk_slots(),
                    forall|k: int| 0 <= k < start ==> chunk_status@[k] == before[k],
                    forall|k: int| start <= k < start + c ==> chunk_status@[k] == fill,
                    forall|k: int| start + c <= k < chunk_status@.len() ==> !chunk_status@[k],
                    forall|k: int| start <= k < before.len() ==> !before[k],
                decreases n - c,
            {
                if fill {
                    chunk_status.set((start + c) as usize, true);
                }
                c += 1;
            }
            proof {
                assert forall|q: int, k: int|
                    0 <= q < p + 1 && 0 <= k < lengths.spec_chunks_per_piece(q) implies #[trigger] slot_set(
                    lengths,
                    chunk_status@,
                    q,
                    k,
                ) == !needed_pieces@[q] by {
                    if q < p {
                        lengths.lemma_piece(q);
                        assert(q * lengths.chunks_per_piece + lengths.chunks_per_piece <= p
                            * lengths.chunks_per_piece) by (nonlinear_arith)
                            requires
                                0 <= q < p,
                                lengths.chunks_per_piece >= 0,
                        ;
                        assert(slot_set(lengths, before, q, k) == !needed_pieces@[q]);
                    }
                }
            }
            p += 1;
        }
        ChunkTracker { needed_pieces, chunk_status, have: have_pieces, lengths }
    }

    /// The pieces in the queue.
    pub fn get_needed_pieces(&self) -> (r: &BF)
        ensures
            *r == self.needed_pieces,
    {
        &self.needed_pieces
    }

    /// The verified pieces.
    pub fn get_have_pieces(&self) -> (r: &BF)
        ensures
            *r == self.have,
    {
        &self.have
    }

    /// The sum of the lengths of the pieces whose bit in `bits` is set.
    fn sum_set(&self, bits: &BF) -> (r: u64)
        requires
            self.lengths.wf(),
            bits@.len() >= self.lengths.spec_total_pieces(),
        ensures
            r == sum_piece_lengths(
                self.lengths,
                |p: int| bits@[p],
                self.lengths.spec_total_pieces(),
            ),
    {
        let total = self.lengths.total_pieces();
        let mut sum: u64 = 0;
        let mut p: u32 = 0;
        let ghost chosen = |p: int| bits@[p];
        while p < total
            invariant
                self.lengths.wf(),
                total == self.lengths.spec_total_pieces(),
                bits@.len() >= total,
                p <= total,
                chosen == |p: int| bits@[p],
                sum == sum_piece_lengths(self.lengths, chosen, p as int),
            decreases total - p,
        {
            proof {
                lemma_sum_bound(self.lengths, chosen, p + 1);
            }
            if bits.is_set(p as usize) {
                sum = sum + self.lengths.piece_length(ValidPieceIndex(p)) as u64;
            }
            p += 1;
        }
        sum
    }

    /// The bytes of the verified pieces.
    pub fn calc_have_bytes(&self) -> (r: u64)
        requires
            self.wf(),
        ensures
            r == self.have_bytes(),
    {
        proof {
            self.lemma_sizes();
        }
        self.sum_set(&self.have)
    }

    /// The bytes of the pieces in the queue.
    pub fn calc_needed_bytes(&self) -> (r: u64)
        requires
            self.wf(),
        ensures
            r == self.needed_bytes(),
    {
        proof {
            self.lemma_sizes();
        }
        self.sum_set(&self.needed_pieces)
    }

    /// The bytes of the pieces that are neither verified nor complete: what a
    /// download that starts with this tracker has to fetch.
    pub fn calc_unfinished_bytes(&self) -> (r: u64)
        requires
            self.wf(),
        ensures
            r == self.unfinished_bytes(),
    {
        proof {
            self.lemma_sizes();
        }
        let total = self.lengths.total_pieces();
        let mut sum: u64 = 0;
        let mut p: u32 = 0;
        let ghost chosen = |p: int| self.is_unfinished(p);
        while p < total
            invariant
                self.wf(),
                total == self.lengths.spec_total_pieces(),
                self.have@.len() >= total,
                p <= total,
                chosen == |p: int| self.is_unfinished(p),
                sum == sum_piece_lengths(self.lengths, chosen, p as int),
            decreases total - p,
        {
            proof {
                lemma_sum_bound(self.lengths, chosen, p + 1);
            }
            let index = ValidPieceIndex(p);
            if !self.have.is_set(p as usize) && !self.is_piece_complete(index) {
                sum = sum + self.lengths.piece_length(index) as u64;
            }
            p += 1;
        }
        sum
    }

    /// Whether every verified piece has all its chunks.
    pub fn check_verified_are_complete(&self) -> (r: bool)
        requires
            self.wf(),
        ensures
            r == self.verified_are_complete(),
    {
        proof {
            self.lemma_sizes();
        }
        let total = self.lengths.total_pieces();
        let mut p: u32 = 0;
        while p < total
            invariant
                self.wf(),
                total == self.lengths.spec_total_pieces(),
                self.have@.len() >= total,
                p <= total,
                forall|q: int| 0 <= q < p && #[trigger] self.have@[q] ==> self.piece_complete(q),
            decreases total - p,
        {
            if self.have.is_set(p as usize) && !self.is_piece_complete(ValidPieceIndex(p)) {
                assert(self.have@[p as int]);
                return false;
            }
            p += 1;
        }
        true
    }

    /// The pieces in the queue, lowest index first.
    pub fn iter_needed_pieces(&self) -> (r: Vec<usize>)
        requires
            self.wf(),
        ensures
            forall|i: int| 0 <= i < r@.len() ==> self.is_needed(#[trigger] r@[i] as int),
            forall|i: int, j: int| 0 <= i < j < r@.len() ==> r@[i] < r@[j],
            forall|p: int| self.is_needed(p) ==> r@.contains(p as usize),
    {
        proof {
            self.lemma_sizes();
        }
        let total = self.lengths.total_pieces();
        let mut out: Vec<usize> = Vec::new();
        let mut p: u32 = 0;
        while p < total
            invariant
                self.wf(),
                total == self.lengths.spec_total_pieces(),
                self.needed_pieces@.len() >= total,
                p <= total,
                forall|i: int| 0 <= i < out@.len() ==> self.is_needed(#[trigger] out@[i] as int),
                forall|i: int| 0 <= i < out@.len() ==> #[trigger] out@[i] < p,
                forall|i: int, j: int| 0 <= i < j < out@.len() ==> out@[i] < out@[j],
                forall|q: int| 0 <= q < p && self.is_needed(q) ==> out@.contains(q as usize),
            decreases total - p,
        {
            if self.needed_pieces.is_set(p as usize) {
                let ghost prev = out@;
                out.push(p as usize);
                proof {
                    assert forall|q: int| 0 <= q < p + 1 && self.is_needed(q) implies out@.contains(
                        q as usize,
                    ) by {
                        if q < p {
                            let i = choose|i: int| 0 <= i < prev.len() && prev[i] == q as usize;
                            assert(out@[i] == q as usize);
                        } else {
                            assert(out@[out@.len() - 1] == q as usize);
                        }
                    }
                }
            }
            p += 1;
        }
        out
    }

    /// Takes a piece out of the queue.
    pub fn reserve_needed_piece(&mut self, index: ValidPieceIndex)
        requires
            old(self).wf(),
        ensures
            final(self).wf(),
            final(self).lengths == old(self).lengths,
            final(self).have == old(self).have,
            final(self).chunk_status == old(self).chunk_status,
            final(self).needed_pieces@ == (if index@ < old(self).needed_pieces@.len() {
                old(self).needed_pieces@.update(index@ as int, false)
            } else {
                old(self).needed_pieces@
            }),
    {
        self.needed_pieces.set(index.get() as usize, false);
    }

    /// Whether every chunk of a piece has arrived.
    pub fn is_piece_complete(&self, index: ValidPieceIndex) -> (r: bool)
        requires
            self.wf(),
            self.lengths.valid_piece(index@ as int),
        ensures
            r == self.piece_complete(index@ as int),
    {
        proof {
            self.lemma_sizes();
            self.lengths.lemma_piece(index@ as int);
        }
        let start = self.lengths.chunk_range_start(index);
        let n = self.lengths.chunks_per_piece(index);
        let mut c: u32 = 0;
        while c < n
            invariant
                self.wf(),
                self.lengths.valid_piece(index@ as int),
                start == self.lengths.spec_chunk_range_start(index@ as int),
                n == self.lengths.spec_chunks_per_piece(index@ as int),
                start + n <= u32::MAX,
                start + n <= self.chunk_status@.len(),
                c <= n,
                forall|k: int| 0 <= k < c ==> #[trigger] self.chunk_done(index@ as int, k),
            decreases n - c,
        {
            if !self.chunk_status.is_set((start + c) as usize) {
                assert(!self.chunk_done(index@ as int, c as int));
                return false;
            }
            c += 1;
        }
        true
    }

    /// A request for a chunk of a piece was given up. Unless the piece is verified
    /// or has all its chunks, it goes back into the queue. Returns `None` if the
    /// piece is not one of this torrent, `Some(false)` if the piece is verified,
    /// `Some(true)` otherwise.
    pub fn mark_chunk_request_cancelled(&mut self, index: ValidPieceIndex, _chunk: u32) -> (r:
        Option<bool>)
        requires
            old(self).wf(),
        ensures
            final(self).wf(),
            final(self).lengths == old(self).lengths,
            final(self).have == old(self).have,
            final(self).chunk_status == old(self).chunk_status,
            r is None <==> !old(self).lengths.valid_piece(index@ as int),
            r == Some(false) <==> old(self).is_have(index@ as int),
            final(self).needed_pieces@ == (if r == Some(true) && !old(self).piece_complete(
                index@ as int,
            ) {
                old(self).needed_pieces@.update(index@ as int, true)
            } else {
                old(self).needed_pieces@
            }),
    {
        proof {
            self.lemma_sizes();
        }
        if self.lengths.validate_piece_index(index.get()).is_none() {
            return None;
        }
        if self.have.is_set(index.get() as usize) {
            return Some(false);
        }
        if !self.is_piece_complete(index) {
            self.needed_pieces.set(index.get() as usize, true);
        }
        Some(true)
    }

    /// A piece failed its checksum: it goes back into the queue and all its chunks
    /// count as not arrived. Returns whether the piece is one of this torrent;
    /// if it is not, nothing changes.
    pub fn mark_piece_broken(&mut self, index: ValidPieceIndex) -> (r: bool)
        requires
            old(self).wf(),
        ensures
            final(self).wf(),
            final(self).lengths == old(self).lengths,
            final(self).have == old(self).have,
            r == old(self).lengths.valid_piece(index@ as int),
            !r ==> *final(self) == *old(self),
            r ==> final(self).needed_pieces@ == old(self).needed_pieces@.update(
                index@ as int,
                true,
            ),
            r ==> forall|c: int|
                0 <= c < old(self).lengths.spec_chunks_per_piece(index@ as int)
                    ==> !#[trigger] final(self).chunk_done(index@ as int, c),
            r ==> forall|k: int|
                0 <= k < old(self).chunk_status@.len() && !old(self).in_slots_of(index@ as int, k)
                    ==> final(self).chunk_status@[k] == old(self).chunk_status@[k],
            final(self).chunk_status@.len() == old(self).chunk_status@.len(),
            forall|q: int|
                old(self).lengths.valid_piece(q) && q != index@
                    ==> #[trigger] final(self).piece_complete(q) == old(self).piece_complete(q),
    {
        proof {
            self.lemma_sizes();
        }
        if self.lengths.validate_piece_index(index.get()).is_none() {
            return false;
        }
        proof {
            self.lengths.lemma_piece(index@ as int);
        }
        self.needed_pieces.set(index.get() as usize, true);
        let start = self.lengths.chunk_range_start(index);
        let n = self.lengths.chunks_per_piece(index);
        let mut c: u32 = 0;
        while c < n
            invariant
                self.wf(),
                self.lengths == old(self).lengths,
                self.have == old(self).have,
                self.needed_pieces@ == old(self).needed_pieces@.update(index@ as int, true),
                self.lengths.valid_piece(index@ as int),
                start == self.lengths.spec_chunk_range_start(index@ as int),
                n == self.lengths.spec_chunks_per_piece(index@ as int),
                start + n <= self.lengths.spec_chunk_slots(),
                self.chunk_status@.len() >= self.lengths.spec_chunk_slots(),
                self.lengths.spec_chunk_slots() <= u32::MAX,
                c <= n,
                self.chunk_status@.len() == old(self).chunk_status@.len(),
                forall|k: int| start <= k < start + c ==> !self.chunk_status@[k],
                forall|k: int|
                    0 <= k < self.chunk_status@.len() && !(start <= k < start + c)
                        ==> self.chunk_status@[k] == old(self).chunk_status@[k],
            decreases n - c,
        {
            self.chunk_status.set((start + c) as usize, false);
            c += 1;
        }
        proof {
            assert forall|q: int|
                old(self).lengths.valid_piece(q) && q != index@ implies #[trigger] self.piece_complete(
                q,
            ) == old(self).piece_complete(q) by {
                old(self).lemma_other_piece_same(self, index@ as int, q);
            }
        }
        true
    }

    /// Marks a piece as verified. Returns whether it was not verified before.
    pub fn mark_piece_downloaded(&mut self, index: ValidPieceIndex) -> (r: bool)
        requires
            old(self).wf(),
        ensures
            final(self).wf(),
            final(self).lengths == old(self).lengths,
            final(self).needed_pieces == old(self).needed_pieces,
            final(self).chunk_status == old(self).chunk_status,
            r == (old(self).lengths.valid_piece(index@ as int) && !old(self).is_have(
                index@ as int,
            )),
            final(self).have@ == (if old(self).lengths.valid_piece(index@ as int) {
                old(self).have@.update(index@ as int, true)
            } else {
                old(self).have@
            }),
            final(self).have_bytes() == old(self).have_bytes() + (if r {
                old(self).lengths.spec_piece_length(index@ as int)
            } else {
                0
            }),
    {
        proof {
            self.lemma_sizes();
        }
        if self.lengths.validate_piece_index(index.get()).is_none() {
            return false;
        }
        let was = self.have.is_set(index.get() as usize);
        self.have.set(index.get() as usize, true);
        proof {
            lemma_sum_differs_at(
                self.lengths,
                |p: int| old(self).have@[p],
                |p: int| self.have@[p],
                index@ as int,
                self.lengths.spec_total_pieces(),
            );
        }
        !was
    }

    /// Whether a chunk may be served to a peer: its piece is verified.
    pub fn is_chunk_ready_to_upload(&self, chunk: &ChunkInfo) -> (r: bool)
        ensures
            r == (chunk.piece_index@ < self.have@.len() && self.have@[chunk.piece_index@ as int]),
    {
        self.have.is_set(chunk.piece_index.get() as usize)
    }

    /// Records the arrival of a chunk. `None` if the block is no chunk of this
    /// torrent; otherwise what the arrival did to the piece. The chunk's bit is set
    /// unless the piece was complete before.
    pub fn mark_chunk_downloaded(&mut self, piece: &Piece) -> (r: Option<ChunkMarkingResult>)
        requires
            old(self).wf(),
        ensures
            final(self).wf(),
            final(self).lengths == old(self).lengths,
            final(self).have == old(self).have,
            final(self).needed_pieces == old(self).needed_pieces,
            forall|q: int|
                old(self).lengths.valid_piece(q) && q != piece.index
                    ==> #[trigger] final(self).piece_complete(q) == old(self).piece_complete(q),
            ({
                let info = old(self).spec_received_chunk(piece);
                match r {
                    None => info is None && *final(self) == *old(self),
                    Some(m) => {
                        &&& info matches Some(i)
                        &&& {
                            let p = i.piece_index@ as int;
                            let before = old(self).piece_complete(p);
                            let after = final(self).piece_complete(p);
                            match m {
                                ChunkMarkingResult::PreviouslyCompleted => before && *final(self)
                                    == *old(self),
                                ChunkMarkingResult::Completed => !before && after,
                                ChunkMarkingResult::NotCompleted => !before && !after,
                            }
                        }
                        &&& m != ChunkMarkingResult::PreviouslyCompleted ==> {
                            let slots = old(self).chunk_status@;
                            final(self).chunk_status@ == slots.update(i.absolute_index as int, true)
                        }
                    },
                }
            }),
    {
        proof {
            self.lemma_sizes();
        }
        if piece.block.len() > u32::MAX as usize {
            return None;
        }
        let len = piece.block.len() as u32;
        let info = match self.lengths.chunk_info_from_received_piece(piece.index, piece.begin, len) {
            Some(i) => i,
            None => {
                return None;
            },
        };
        proof {
            let p = info.piece_index;
            self.lengths.lemma_piece(p@ as int);
            self.lengths.lemma_chunk(p@ as int, info.chunk_index as int);
        }
        if self.is_piece_complete(info.piece_index) {
            return Some(ChunkMarkingResult::PreviouslyCompleted);
        }
        self.chunk_status.set(info.absolute_index as usize, true);
        proof {
            assert forall|q: int|
                old(self).lengths.valid_piece(q) && q != piece.index implies #[trigger] self.piece_complete(
                q,
            ) == old(self).piece_complete(q) by {
                old(self).lemma_other_piece_same(self, piece.index as int, q);
            }
        }
        if self.is_piece_complete(info.piece_index) {
            Some(ChunkMarkingResult::Completed)
        } else {
            Some(ChunkMarkingResult::NotCompleted)
        }
    }

    /// The chunk that a received block is, if its piece index, offset and length
    /// name one.
    pub open spec fn spec_received_chunk(&self, piece: &Piece) -> Option<ChunkInfo> {
        if piece.block@.len() <= u32::MAX {
            self.lengths.spec_chunk_info_from_received_piece(
                piece.index,
                piece.begin,
                piece.block@.len() as u32,
            )
        } else {
            None
        }
    }
}

} // verus!
