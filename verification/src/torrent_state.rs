//! The state of one torrent's download: the registry of peers, the chunk tracker
//! with the pieces in flight, and the counters of the download.
//!
//! Times are numbers of nanoseconds since a moment that the caller fixes once.

use vstd::prelude::*;
use vstd::wrapping::u64_specs::wrapping_add;
use std::collections::HashMap;
use std::time::Duration;
use crate::chunk_tracker::{
    lemma_sum_bound, lemma_sum_differs_at, lemma_sum_zero, sum_piece_lengths, ChunkTracker,
};
use crate::lengths::{Lengths, ValidPieceIndex};
use crate::peer_state::{PeerHandle, PeerStateKind, PeerStateView, PeerView};
use crate::peer_states::{has_bit, legal_step, with_state, AggregatePeerStats, PeerStates};
use crate::peer_stats_snapshot::{PeerStats, PeerStatsFilter, PeerStatsSnapshot};
use crate::protocol::{Handshake, Id20};
use crate::timed_existence::{timeit, TimedExistence};
use crate::torrent_metainfo::TorrentMetaV1Info;

verus! {

broadcast use vstd::std_specs::hash::group_hash_axioms;

/// The peer that a piece is expected from, and when it was given the piece.
#[derive(Debug, Clone, Copy)]
pub struct InflightPiece {
    pub peer: PeerHandle,
    pub started: u64,
}

/// The part of the state that changes with every chunk.
pub struct TorrentStateLocked {
    /// Which chunks are there and which are missing.
    pub chunks: ChunkTracker,
    /// For each piece that a peer has reserved, that peer. A map: at any moment a
    /// piece is expected from one peer only.
    pub inflight_pieces: HashMap<u32, InflightPiece>,
    /// The pieces whose last chunk has arrived and whose hash is being checked,
    /// each with the time in nanoseconds that it was in flight.
    pub unchecked_pieces: HashMap<u32, u64>,
}

/// The pieces in flight, each once, in no particular order.
pub fn inflight_piece_ids(m: &HashMap<u32, InflightPiece>) -> (r: Vec<u32>)
    ensures
        r@.no_duplicates(),
        r@.to_set() == m@.dom(),
{
    let mut out: Vec<u32> = Vec::new();
    for k in it: m.keys()
        invariant
            out@.len() == it.index(),
            forall|i: int| 0 <= i < out@.len() ==> out@[i] == *it.seq()[i],
            it.seq().unref().to_set() == m@.dom(),
            it.seq().no_duplicates(),
            out@ =~= it.seq().unref().take(it.index() as int),
    {
        out.push(*k);
    }
    out
}

/// The time from `started` to `now`; zero if `started` is later than `now`.
pub open spec fn elapsed_since(now: u64, started: u64) -> u64 {
    if now >= started {
        (now - started) as u64
    } else {
        0
    }
}

impl TorrentStateLocked {
    /// Whether piece `p` is still to be downloaded and verified: it is not verified,
    /// and it lacks a chunk or its hash is being checked.
    pub open spec fn is_pending(&self, p: int) -> bool {
        &&& self.chunks.lengths.valid_piece(p)
        &&& !self.chunks.have@[p]
        &&& (!self.chunks.piece_complete(p) || self.unchecked_pieces@.contains_key(p as u32))
    }

    /// Whether piece `p` was left out of the download: it is not verified, yet it
    /// lacks no chunk and no check of it is under way.
    pub open spec fn is_left_out(&self, p: int) -> bool {
        &&& self.chunks.lengths.valid_piece(p)
        &&& !self.chunks.have@[p]
        &&& self.chunks.piece_complete(p)
        &&& !self.unchecked_pieces@.contains_key(p as u32)
    }

    /// Whether the checks are in order: a verified piece has all its chunks, and a
    /// piece whose hash is being checked is a piece of the torrent that has all its
    /// chunks and is not verified yet.
    pub open spec fn checks_in_order(&self) -> bool {
        &&& self.chunks.verified_are_complete()
        &&& forall|p: u32| #[trigger]
            self.unchecked_pieces@.contains_key(p) ==> {
                &&& self.chunks.lengths.valid_piece(p as int)
                &&& self.chunks.piece_complete(p as int)
                &&& !self.chunks.have@[p as int]
            }
    }

    /// Whether the checks are in order depends on the verified pieces, the chunks
    /// that have arrived and the pieces being checked only.
    pub proof fn lemma_checks_same(&self, other: &TorrentStateLocked)
        requires
            self.checks_in_order(),
            other.chunks.lengths == self.chunks.lengths,
            other.chunks.have@ == self.chunks.have@,
            other.chunks.chunk_status@ == self.chunks.chunk_status@,
            other.unchecked_pieces@ == self.unchecked_pieces@,
        ensures
            other.checks_in_order(),
    {
        assert forall|p: int|
            other.chunks.lengths.valid_piece(p) && #[trigger] other.chunks.have@[p]
                implies other.chunks.piece_complete(p) by {
            assert(self.chunks.have@[p]);
            self.chunks.lemma_piece_complete_same(&other.chunks, p);
        }
        assert forall|p: u32| #[trigger] other.unchecked_pieces@.contains_key(p) implies {
            &&& other.chunks.lengths.valid_piece(p as int)
            &&& other.chunks.piece_complete(p as int)
            &&& !other.chunks.have@[p as int]
        } by {
            assert(self.unchecked_pieces@.contains_key(p));
            self.chunks.lemma_piece_complete_same(&other.chunks, p as int);
        }
    }

    /// The bytes of the pending pieces.
    pub open spec fn pending_bytes(&self) -> int {
        sum_piece_lengths(
            self.chunks.lengths,
            |p: int| self.is_pending(p),
            self.chunks.lengths.spec_total_pieces(),
        )
    }

    /// Two states in which the same pieces are pending have the same pending bytes.
    pub proof fn lemma_pending_same(&self, other: &TorrentStateLocked)
        requires
            other.chunks.lengths == self.chunks.lengths,
            forall|p: int|
                self.chunks.lengths.valid_piece(p) ==> other.is_pending(p) == self.is_pending(p),
        ensures
            other.pending_bytes() == self.pending_bytes(),
    {
        lemma_sum_differs_at(
            self.chunks.lengths,
            |p: int| self.is_pending(p),
            |p: int| other.is_pending(p),
            -1,
            self.chunks.lengths.spec_total_pieces(),
        );
    }

    /// Two states that differ in whether piece `p` is pending, and in that only,
    /// differ in their pending bytes by the length of `p`.
    pub proof fn lemma_pending_differs_at(&self, other: &TorrentStateLocked, p: int)
        requires
            self.chunks.lengths.wf(),
            other.chunks.lengths == self.chunks.lengths,
            self.chunks.lengths.valid_piece(p),
            forall|q: int|
                self.chunks.lengths.valid_piece(q) && q != p ==> other.is_pending(q)
                    == self.is_pending(q),
        ensures
            other.pending_bytes() == self.pending_bytes() + (if other.is_pending(p)
                && !self.is_pending(p) {
                self.chunks.lengths.spec_piece_length(p)
            } else if !other.is_pending(p) && self.is_pending(p) {
                -self.chunks.lengths.spec_piece_length(p)
            } else {
                0
            }),
            0 <= self.pending_bytes(),
            0 <= other.pending_bytes(),
    {
        let lengths = self.chunks.lengths;
        lemma_sum_differs_at(
            lengths,
            |p: int| self.is_pending(p),
            |p: int| other.is_pending(p),
            p,
            lengths.spec_total_pieces(),
        );
        lemma_sum_bound(lengths, |p: int| self.is_pending(p), lengths.spec_total_pieces());
        lemma_sum_bound(lengths, |p: int| other.is_pending(p), lengths.spec_total_pieces());
    }

    /// The pieces that have to be downloaded are pending until the first chunk
    /// arrives.
    pub proof fn lemma_pending_at_start(&self)
        requires
            self.unchecked_pieces@ == Map::<u32, u64>::empty(),
        ensures
            self.pending_bytes() == self.chunks.unfinished_bytes(),
    {
        lemma_sum_differs_at(
            self.chunks.lengths,
            |p: int| self.chunks.is_unfinished(p),
            |p: int| self.is_pending(p),
            -1,
            self.chunks.lengths.spec_total_pieces(),
        );
    }
}

/// The counters of the download. All but `downloaded_and_checked_bytes` wrap around.
#[derive(Debug, Clone, Copy)]
pub struct AtomicStats {
    pub have_bytes: u64,
    pub downloaded_and_checked_bytes: u64,
    pub downloaded_and_checked_pieces: u64,
    pub uploaded_bytes: u64,
    pub fetched_bytes: u64,
    pub total_piece_download_ms: u64,
}

/// The mean of `total_ms` milliseconds over `pieces` pieces, in whole nanoseconds.
pub open spec fn average_nanos(total_ms: u64, pieces: u64) -> Option<u128> {
    if pieces == 0 {
        None
    } else {
        Some(((total_ms as int * 1_000_000) / (pieces as int)) as u128)
    }
}

/// The mean of `total_ms` milliseconds over `pieces` pieces, in whole nanoseconds;
/// `None` for no pieces.
pub fn average_nanos_of(total_ms: u64, pieces: u64) -> (r: Option<u128>)
    ensures
        r == average_nanos(total_ms, pieces),
{
    if pieces == 0 {
        return None;
    }
    let scaled: u128 = (total_ms as u128) * 1_000_000u128;
    Some(scaled / (pieces as u128))
}

impl AtomicStats {
    /// The mean time from the reservation of a piece to its last chunk, in
    /// nanoseconds; `None` while no piece is verified.
    pub fn average_piece_download_time(&self) -> (r: Option<u128>)
        ensures
            r == average_nanos(self.total_piece_download_ms, self.downloaded_and_checked_pieces),
    {
        average_nanos_of(self.total_piece_download_ms, self.downloaded_and_checked_pieces)
    }
}

/// The counters of the download, as read at one moment.
#[derive(Debug, Clone, Copy)]
pub struct StatsSnapshot {
    pub have_bytes: u64,
    pub downloaded_and_checked_bytes: u64,
    pub downloaded_and_checked_pieces: u64,
    pub fetched_bytes: u64,
    pub uploaded_bytes: u64,
    pub initially_needed_bytes: u64,
    pub remaining_bytes: u64,
    pub total_bytes: u64,
    /// When the snapshot was taken.
    pub time: u64,
    pub total_piece_download_ms: u64,
    pub peer_stats: AggregatePeerStats,
}

impl StatsSnapshot {
    /// The mean time from the reservation of a piece to its last chunk, in
    /// nanoseconds; `None` while no piece is verified.
    pub fn average_piece_download_time(&self) -> (r: Option<u128>)
        ensures
            r == average_nanos(self.total_piece_download_ms, self.downloaded_and_checked_pieces),
    {
        average_nanos_of(self.total_piece_download_ms, self.downloaded_and_checked_pieces)
    }
}

/// The timeouts that the connection to a peer is opened with.
#[derive(Debug, Clone, Copy)]
pub struct TorrentStateOptions {
    pub peer_connect_timeout: Option<Duration>,
    pub peer_read_write_timeout: Option<Duration>,
}

impl Default for TorrentStateOptions {
    fn default() -> (r: TorrentStateOptions)
        ensures
            r.peer_connect_timeout is None,
            r.peer_read_write_timeout is None,
    {
        TorrentStateOptions { peer_connect_timeout: None, peer_read_write_timeout: None }
    }
}

/// The number of peers that may be connected at one time.
pub const MAX_CONCURRENT_PEERS: usize = 128;

/// The state of one torrent's download.
pub struct TorrentState {
    pub peers: PeerStates,
    pub info: TorrentMetaV1Info,
    pub locked: TorrentStateLocked,
    pub info_hash: Id20,
    pub peer_id: Id20,
    pub lengths: Lengths,
    pub needed_bytes: u64,
    pub have_plus_needed_bytes: u64,
    pub stats: AtomicStats,
    pub options: TorrentStateOptions,
}

impl TorrentState {
    /// The parts are well-formed and fit together: the tracker is one for this
    /// torrent's lengths, the bytes still to download are those of the pieces that
    /// are pending, every piece in flight is a piece of the torrent, and the checks
    /// are in order.
    pub open spec fn wf(&self) -> bool {
        &&& self.peers.wf()
        &&& self.locked.chunks.wf()
        &&& self.locked.chunks.lengths == self.lengths
        &&& self.stats.downloaded_and_checked_bytes <= self.needed_bytes
        &&& self.needed_bytes - self.stats.downloaded_and_checked_bytes == self.pending_bytes()
        &&& forall|p: u32| #[trigger]
            self.locked.inflight_pieces@.contains_key(p) ==> self.lengths.valid_piece(p as int)
        &&& self.locked.checks_in_order()
    }

    /// The pieces in flight.
    pub open spec fn inflight(&self) -> Map<u32, InflightPiece> {
        self.locked.inflight_pieces@
    }

    /// The pieces whose hash is being checked.
    pub open spec fn unchecked(&self) -> Map<u32, u64> {
        self.locked.unchecked_pieces@
    }

    /// Whether piece `p` is still to be downloaded and verified.
    pub open spec fn is_pending(&self, p: int) -> bool {
        self.locked.is_pending(p)
    }

    /// Whether piece `p` was left out of the download.
    pub open spec fn is_left_out(&self, p: int) -> bool {
        self.locked.is_left_out(p)
    }

    /// The bytes of the pending pieces.
    pub open spec fn pending_bytes(&self) -> int {
        self.locked.pending_bytes()
    }

    /// Whether piece `p` is expected from peer `a`.
    pub open spec fn assigned_to(&self, p: u32, a: PeerHandle) -> bool {
        self.inflight().contains_key(p) && self.inflight()[p].peer == a
    }

    /// The bytes that were verified since the state was made.
    pub open spec fn spec_downloaded_bytes(&self) -> u64 {
        self.stats.downloaded_and_checked_bytes
    }

    /// Whether nothing is left to download.
    pub open spec fn spec_is_finished(&self) -> bool {
        self.needed_bytes - self.stats.downloaded_and_checked_bytes == 0
    }

    /// Whether `other` differs from this state in the registry of peers at most.
    pub open spec fn same_download(&self, other: &TorrentState) -> bool {
        &&& other.locked == self.locked
        &&& other.info == self.info
        &&& other.info_hash == self.info_hash
        &&& other.peer_id == self.peer_id
        &&& other.lengths == self.lengths
        &&& other.needed_bytes == self.needed_bytes
        &&& other.have_plus_needed_bytes == self.have_plus_needed_bytes
        &&& other.stats == self.stats
        &&& other.options == self.options
    }

    /// Whether `other` differs from this state in the part that changes with every
    /// chunk at most.
    pub open spec fn same_but_locked(&self, other: &TorrentState) -> bool {
        &&& other.peers == self.peers
        &&& other.info == self.info
        &&& other.info_hash == self.info_hash
        &&& other.peer_id == self.peer_id
        &&& other.lengths == self.lengths
        &&& other.needed_bytes == self.needed_bytes
        &&& other.have_plus_needed_bytes == self.have_plus_needed_bytes
        &&& other.stats == self.stats
        &&& other.options == self.options
    }

    /// Whether `other` has the registry of peers of this state.
    pub open spec fn same_peers(&self, other: &TorrentState) -> bool {
        &&& other.peers@.records == self.peers@.records
        &&& other.peers.counters() == self.peers.counters()
    }

    /// Whether piece `p` is in the queue and `bitfield` says its owner has it.
    pub open spec fn wanted_from(&self, bitfield: Seq<bool>, p: int) -> bool {
        self.locked.chunks.is_needed(p) && has_bit(bitfield, p)
    }

    /// Whether `a` is a live peer that is interested and does not say it has piece
    /// `index`: a peer to tell that we have the piece now.
    pub open spec fn wants_have(&self, a: PeerHandle, index: u32) -> bool {
        &&& self.peers.is_live(a)
        &&& self.peers.live(a).peer_interested
        &&& !has_bit(self.peers.live(a).bitfield, index as int)
    }

    /// At any moment a piece is expected from one peer only.
    pub proof fn lemma_one_peer_per_piece(&self, p: u32, a: PeerHandle, b: PeerHandle)
        requires
            self.assigned_to(p, a),
            self.assigned_to(p, b),
        ensures
            a == b,
    {
    }

    /// When nothing is left to download, no piece is pending: every piece is
    /// verified or was left out of the download.
    pub proof fn lemma_finished_is_complete(&self)
        requires
            self.wf(),
            self.spec_is_finished(),
        ensures
            forall|p: int|
                self.lengths.valid_piece(p) ==> self.locked.chunks.is_have(p) || self.is_left_out(p),
    {
        let pending = |p: int| self.locked.is_pending(p);
        lemma_sum_zero(self.lengths, pending, self.lengths.spec_total_pieces());
        assert forall|p: int| self.lengths.valid_piece(p) implies self.locked.chunks.is_have(p)
            || self.is_left_out(p) by {
            assert(!pending(p));
        }
    }

    /// When nothing is left to download and no piece was left out of the download,
    /// every piece of the torrent is verified.
    pub proof fn lemma_finished_has_every_piece(&self)
        requires
            self.wf(),
            self.spec_is_finished(),
            forall|p: int| self.lengths.valid_piece(p) ==> !self.is_left_out(p),
        ensures
            forall|p: int| self.lengths.valid_piece(p) ==> self.locked.chunks.is_have(p),
    {
        self.lemma_finished_is_complete();
        assert forall|p: int| self.lengths.valid_piece(p) implies self.locked.chunks.is_have(
            p,
        ) by {
            assert(self.locked.chunks.is_have(p) || self.is_left_out(p));
        }
    }

    /// The state of a download that starts with the given tracker. No peer is
    /// known, no piece is in flight, and nothing has been downloaded.
    ///
    /// `needed_bytes` is what the download has to fetch: the bytes of the pieces
    /// that the tracker holds neither as verified nor as complete. `have_bytes` is
    /// what was on disk before. The pieces that the tracker holds as verified have
    /// all their chunks.
    pub fn new(
        info: TorrentMetaV1Info,
        info_hash: Id20,
        peer_id: Id20,
        chunk_tracker: ChunkTracker,
        lengths: Lengths,
        have_bytes: u64,
        needed_bytes: u64,
        options: Option<TorrentStateOptions>,
    ) -> (r: TorrentState)
        requires
            chunk_tracker.wf(),
            chunk_tracker.lengths == lengths,
            chunk_tracker.verified_are_complete(),
            needed_bytes == chunk_tracker.unfinished_bytes(),
            needed_bytes + have_bytes <= u64::MAX,
        ensures
            r.wf(),
            r.peers@.records == Map::<PeerHandle, PeerView>::empty(),
            r.peers.counters() == crate::peer_state::AggregatePeerStatsAtomic::zero(),
            r.inflight() == Map::<u32, InflightPiece>::empty(),
            r.unchecked() == Map::<u32, u64>::empty(),
            r.locked.chunks == chunk_tracker,
            r.info == info,
            r.info_hash == info_hash,
            r.peer_id == peer_id,
            r.lengths == lengths,
            r.needed_bytes == needed_bytes,
            r.have_plus_needed_bytes == needed_bytes + have_bytes,
            r.stats == (AtomicStats {
                have_bytes,
                downloaded_and_checked_bytes: 0,
                downloaded_and_checked_pieces: 0,
                uploaded_bytes: 0,
                fetched_bytes: 0,
                total_piece_download_ms: 0,
            }),
            r.options == (match options {
                Some(o) => o,
                None => TorrentStateOptions {
                    peer_connect_timeout: None,
                    peer_read_write_timeout: None,
                },
            }),
    {
        let options = match options {
            Some(o) => o,
            None => TorrentStateOptions::default(),
        };
        let r = TorrentState {
            info_hash,
            info,
            peer_id,
            peers: PeerStates::new(),
            locked: TorrentStateLocked {
                chunks: chunk_tracker,
                inflight_pieces: HashMap::new(),
                unchecked_pieces: HashMap::new(),
            },
            stats: AtomicStats {
                have_bytes,
                downloaded_and_checked_bytes: 0,
                downloaded_and_checked_pieces: 0,
                uploaded_bytes: 0,
                fetched_bytes: 0,
                total_piece_download_ms: 0,
            },
            needed_bytes,
            have_plus_needed_bytes: needed_bytes + have_bytes,
            lengths,
            options,
        };
        proof {
            r.locked.lemma_pending_at_start();
        }
        r
    }

    /// The torrent's description.
    pub fn info(&self) -> (r: &TorrentMetaV1Info)
        ensures
            *r == self.info,
    {
        &self.info
    }

    /// The torrent's info hash.
    pub fn info_hash(&self) -> (r: Id20)
        ensures
            r == self.info_hash,
    {
        self.info_hash
    }

    /// Our own peer id.
    pub fn peer_id(&self) -> (r: Id20)
        ensures
            r == self.peer_id,
    {
        self.peer_id
    }

    /// The bytes that the download had to fetch when it started.
    pub fn initially_needed(&self) -> (r: u64)
        ensures
            r == self.needed_bytes,
    {
        self.needed_bytes
    }

    /// The part of the state that changes with every chunk, to read. In a program
    /// with several threads this is where the lock on that part is taken; the
    /// reason says what for.
    pub fn lock_read(&self, reason: &'static str) -> (r: TimedExistence<&TorrentStateLocked>)
        ensures
            *r.0 == self.locked,
    {
        let locked = timeit(reason, || -> (l: &TorrentStateLocked)
            ensures
                *l == self.locked,
            { &self.locked });
        TimedExistence::new(locked, reason)
    }

    /// The part of the state that changes with every chunk, to change. In a program
    /// with several threads this is where the lock on that part is taken; the
    /// reason says what for.
    pub fn lock_write(&mut self, reason: &'static str) -> (r: TimedExistence<&mut TorrentStateLocked>)
        ensures
            *r.0 == old(self).locked,
            *final(self) == (TorrentState { locked: *final(r.0), ..*old(self) }),
    {
        TimedExistence::new(&mut self.locked, reason)
    }

    /// The bytes that were served to peers.
    pub fn get_uploaded_bytes(&self) -> (r: u64)
        ensures
            r == self.stats.uploaded_bytes,
    {
        self.stats.uploaded_bytes
    }

    /// The bytes that were verified since the state was made.
    pub fn get_downloaded_bytes(&self) -> (r: u64)
        ensures
            r == self.spec_downloaded_bytes(),
    {
        self.stats.downloaded_and_checked_bytes
    }

    /// The bytes that are still to be downloaded and verified.
    pub fn get_left_to_download_bytes(&self) -> (r: u64)
        requires
            self.wf(),
        ensures
            r == self.needed_bytes - self.spec_downloaded_bytes(),
            r == self.pending_bytes(),
    {
        self.needed_bytes - self.get_downloaded_bytes()
    }

    /// Whether nothing is left to download.
    pub fn is_finished(&self) -> (r: bool)
        requires
            self.wf(),
        ensures
            r == self.spec_is_finished(),
    {
        self.get_left_to_download_bytes() == 0
    }

    /// Whether the download is complete already. If it is not, the caller waits for
    /// the notification that follows the verification of the last piece.
    pub fn wait_until_completed(&self) -> (r: bool)
        requires
            self.wf(),
        ensures
            r == self.spec_is_finished(),
    {
        self.is_finished()
    }

    /// The first piece of the queue that a live peer says it has. `None` if the
    /// peer is not live or has no piece of the queue.
    pub fn get_next_needed_piece(&self, peer_handle: PeerHandle) -> (r: Option<ValidPieceIndex>)
        requires
            self.wf(),
        ensures
            match r {
                Some(p) => {
                    &&& self.peers.is_live(peer_handle)
                    &&& self.wanted_from(self.peers.live(peer_handle).bitfield, p@ as int)
                    &&& forall|q: int|
                        0 <= q < p@ ==> !self.wanted_from(
                            self.peers.live(peer_handle).bitfield,
                            q,
                        )
                },
                None => !self.peers.is_live(peer_handle) || forall|q: int|
                    !self.wanted_from(self.peers.live(peer_handle).bitfield, q),
            },
    {
        let needed = self.locked.chunks.iter_needed_pieces();
        let found = match self.peers.first_piece_of(peer_handle, &needed) {
            Some(f) => f,
            None => {
                return None;
            },
        };
        let ghost bitfield = self.peers.live(peer_handle).bitfield;
        match found {
            Some(n) => {
                proof {
                    self.locked.chunks.lemma_sizes();
                    let i = choose|i: int|
                        0 <= i < needed@.len() && needed@[i] == n && has_bit(bitfield, n as int)
                            && forall|j: int|
                            0 <= j < i ==> !has_bit(bitfield, #[trigger] needed@[j] as int);
                    assert(self.locked.chunks.is_needed(needed@[i] as int));
                    assert forall|q: int| 0 <= q < n implies !self.wanted_from(bitfield, q) by {
                        if self.locked.chunks.is_needed(q) {
                            assert(needed@.contains(q as usize));
                            let j = choose|j: int| 0 <= j < needed@.len() && needed@[j] == q as usize;
                            if j >= i {
                                if j > i {
                                    assert(needed@[i] < needed@[j]);
                                }
                            }
                            assert(!has_bit(bitfield, needed@[j] as int));
                        }
                    }
                }
                self.lengths.validate_piece_index(n as u32)
            },
            None => {
                proof {
                    assert forall|q: int| !self.wanted_from(bitfield, q) by {
                        if self.locked.chunks.is_needed(q) {
                            assert(needed@.contains(q as usize));
                            let j = choose|j: int| 0 <= j < needed@.len() && needed@[j] == q as usize;
                            assert(!has_bit(bitfield, needed@[j] as int));
                        }
                    }
                }
                None
            },
        }
    }

    /// Whether a peer has a piece that the queue holds.
    pub fn am_i_interested_in_peer(&self, handle: PeerHandle) -> (r: bool)
        requires
            self.wf(),
        ensures
            r == (self.peers.is_live(handle) && exists|q: int|
                self.wanted_from(self.peers.live(handle).bitfield, q)),
    {
        let r = self.get_next_needed_piece(handle);
        proof {
            if let Some(p) = r {
                assert(self.wanted_from(self.peers.live(handle).bitfield, p@ as int));
            }
        }
        r.is_some()
    }

    /// The handshake of a connecting peer has arrived: the peer is live, with the
    /// peer id of the handshake. Returns `None` if the peer is not known and
    /// `Some(false)` if it is not connecting; nothing changes then.
    pub fn set_peer_live(&mut self, handle: PeerHandle, h: Handshake) -> (r: Option<bool>)
        requires
            old(self).wf(),
        ensures
            final(self).wf(),
            final(self).spec_downloaded_bytes() >= old(self).spec_downloaded_bytes(),
            legal_step(old(self).peers@.records, final(self).peers@.records),
            old(self).same_download(final(self)),
            r == (if old(self).peers@.records.contains_key(handle) {
                Some(old(self).peers.kind_of(handle) == PeerStateKind::Connecting)
            } else {
                None
            }),
            r == Some(true) ==> old(self).peers.changed_at(
                &final(self).peers,
                handle,
                with_state(
                    old(self).peers@.records[handle],
                    PeerStateView::Live(
                        crate::peer_state::LivePeerView {
                            peer_id: Id20(h.peer_id),
                            peer_interested: false,
                            bitfield: Seq::empty(),
                            inflight_requests: Set::empty(),
                        },
                    ),
                ),
            ),
            r != Some(true) ==> old(self).same_peers(final(self)),
    {
        self.peers.mark_peer_live(handle, Id20(h.peer_id))
    }

    /// The live peers to tell that piece `index` is verified: those that are
    /// interested and do not say they have it. Each is named once.
    pub fn maybe_transmit_haves(&self, index: ValidPieceIndex) -> (r: Vec<PeerHandle>)
        ensures
            r@.no_duplicates(),
            forall|a: PeerHandle| r@.contains(a) <==> self.wants_have(a, index@),
    {
        let handles = self.peers.peer_handles();
        let mut out: Vec<PeerHandle> = Vec::new();
        let mut i: usize = 0;
        while i < handles.len()
            invariant
                i <= handles@.len(),
                handles@.no_duplicates(),
                handles@.to_set() == self.peers@.records.dom(),
                out@.no_duplicates(),
                forall|k: int|
                    0 <= k < out@.len() ==> exists|j: int|
                        0 <= j < i && handles@[j] == #[trigger] out@[k],
                forall|k: int| 0 <= k < out@.len() ==> self.wants_have(#[trigger] out@[k], index@),
                forall|j: int|
                    0 <= j < i && self.wants_have(#[trigger] handles@[j], index@)
                        ==> out@.contains(handles@[j]),
            decreases handles@.len() - i,
        {
            let a = handles[i];
            let interested = self.peers.live_is_interested(a);
            let has = self.peers.live_has_piece(a, index.get());
            let wants = match (interested, has) {
                (Some(true), Some(false)) => true,
                _ => false,
            };
            if wants {
                let ghost prev = out@;
                out.push(a);
                proof {
                    assert forall|k: int| 0 <= k < out@.len() implies exists|j: int|
                        0 <= j < i + 1 && handles@[j] == #[trigger] out@[k] by {
                        if k < prev.len() {
                            let j = choose|j: int| 0 <= j < i && handles@[j] == prev[k];
                            assert(handles@[j] == out@[k]);
                        } else {
                            assert(handles@[i as int] == out@[k]);
                        }
                    }
                    assert forall|j: int|
                        0 <= j < i + 1 && self.wants_have(
                            #[trigger] handles@[j],
                            index@,
                        ) implies out@.contains(handles@[j]) by {
                        if j < i {
                            let k = choose|k: int| 0 <= k < prev.len() && prev[k] == handles@[j];
                            assert(out@[k] == handles@[j]);
                        } else {
                            assert(out@[prev.len() as int] == handles@[j]);
                        }
                    }
                }
            }
            i += 1;
        }
        proof {
            assert forall|a: PeerHandle| self.wants_have(a, index@) implies out@.contains(a) by {
                assert(self.peers@.records.dom().contains(a));
                assert(handles@.to_set().contains(a));
                let j = choose|j: int| 0 <= j < handles@.len() && handles@[j] == a;
                assert(self.wants_have(handles@[j], index@));
            }
        }
        out
    }

    /// Makes a peer known, as one to connect to. Returns whether the peer is new:
    /// the caller then puts its address on the queue of the peers to admit.
    pub fn add_peer_if_not_seen(&mut self, addr: PeerHandle) -> (r: bool)
        requires
            old(self).wf(),
        ensures
            final(self).wf(),
            final(self).spec_downloaded_bytes() >= old(self).spec_downloaded_bytes(),
            legal_step(old(self).peers@.records, final(self).peers@.records),
            old(self).same_download(final(self)),
            r == !old(self).peers@.records.contains_key(addr),
            !r ==> old(self).same_peers(final(self)),
            r ==> final(self).peers@.records == old(self).peers@.records.insert(
                addr,
                final(self).peers@.records[addr],
            ),
            r ==> final(self).peers@.records[addr].is_new(),
            r ==> final(self).peers.counters() == (crate::peer_state::AggregatePeerStatsAtomic {
                queued: vstd::wrapping::u32_specs::wrapping_add(
                    old(self).peers.counters().queued,
                    1,
                ),
                seen: vstd::wrapping::u32_specs::wrapping_add(old(self).peers.counters().seen, 1),
                ..old(self).peers.counters()
            }),
    {
        match self.peers.add_if_not_seen(addr) {
            Some(_) => true,
            None => false,
        }
    }

    /// The counters of the download, read at time `now`.
    pub fn stats_snapshot(&self, now: u64) -> (r: StatsSnapshot)
        requires
            self.wf(),
        ensures
            r == (StatsSnapshot {
                have_bytes: self.stats.have_bytes,
                downloaded_and_checked_bytes: self.stats.downloaded_and_checked_bytes,
                downloaded_and_checked_pieces: self.stats.downloaded_and_checked_pieces,
                fetched_bytes: self.stats.fetched_bytes,
                uploaded_bytes: self.stats.uploaded_bytes,
                total_bytes: self.have_plus_needed_bytes,
                time: now,
                initially_needed_bytes: self.needed_bytes,
                remaining_bytes: (self.needed_bytes - self.stats.downloaded_and_checked_bytes) as u64,
                total_piece_download_ms: self.stats.total_piece_download_ms,
                peer_stats: AggregatePeerStats::of(self.peers.counters()),
            }),
    {
        let downloaded_bytes = self.stats.downloaded_and_checked_bytes;
        let remaining = self.needed_bytes - downloaded_bytes;
        StatsSnapshot {
            have_bytes: self.stats.have_bytes,
            downloaded_and_checked_bytes: downloaded_bytes,
            downloaded_and_checked_pieces: self.stats.downloaded_and_checked_pieces,
            fetched_bytes: self.stats.fetched_bytes,
            uploaded_bytes: self.stats.uploaded_bytes,
            total_bytes: self.have_plus_needed_bytes,
            time: now,
            initially_needed_bytes: self.needed_bytes,
            remaining_bytes: remaining,
            total_piece_download_ms: self.stats.total_piece_download_ms,
            peer_stats: self.peers.stats(),
        }
    }

    /// What is counted of each peer that the filter lets through. Each such peer
    /// has one entry.
    pub fn per_peer_stats_snapshot(&self, filter: PeerStatsFilter) -> (r: PeerStatsSnapshot)
        ensures
            forall|k: int, l: int|
                0 <= k < l < r.peers@.len() ==> r.peers@[k].0 != r.peers@[l].0,
            forall|k: int|
                0 <= k < r.peers@.len() ==> {
                    let entry = #[trigger] r.peers@[k];
                    &&& self.peers@.records.contains_key(entry.0)
                    &&& filter.state.spec_matches(self.peers.kind_of(entry.0))
                    &&& entry.1.shows(self.peers@.records[entry.0])
                },
            forall|a: PeerHandle|
                self.peers@.records.contains_key(a) && filter.state.spec_matches(self.peers.kind_of(a))
                    ==> exists|k: int| 0 <= k < r.peers@.len() && #[trigger] r.peers@[k].0 == a,
    {
        let handles = self.peers.peer_handles();
        let mut out: Vec<(PeerHandle, PeerStats)> = Vec::new();
        let mut i: usize = 0;
        while i < handles.len()
            invariant
                i <= handles@.len(),
                handles@.no_duplicates(),
                handles@.to_set() == self.peers@.records.dom(),
                forall|k: int, l: int| 0 <= k < l < out@.len() ==> out@[k].0 != out@[l].0,
                forall|k: int|
                    0 <= k < out@.len() ==> exists|j: int|
                        0 <= j < i && handles@[j] == (#[trigger] out@[k]).0,
                forall|k: int|
                    0 <= k < out@.len() ==> {
                        let entry = #[trigger] out@[k];
                        &&& self.peers@.records.contains_key(entry.0)
                        &&& filter.state.spec_matches(self.peers.kind_of(entry.0))
                        &&& entry.1.shows(self.peers@.records[entry.0])
                    },
                forall|j: int|
                    0 <= j < i && self.peers@.records.contains_key(#[trigger] handles@[j])
                        && filter.state.spec_matches(self.peers.kind_of(handles@[j]))
                        ==> exists|k: int| 0 <= k < out@.len() && #[trigger] out@[k].0 == handles@[j],
            decreases handles@.len() - i,
        {
            let a = handles[i];
            if let Some(s) = self.peers.peer_stats(a, &filter.state) {
                let ghost prev = out@;
                out.push((a, s));
                proof {
                    assert forall|k: int| 0 <= k < out@.len() implies exists|j: int|
                        0 <= j < i + 1 && handles@[j] == (#[trigger] out@[k]).0 by {
                        if k < prev.len() {
                            let j = choose|j: int| 0 <= j < i && handles@[j] == prev[k].0;
                            assert(handles@[j] == out@[k].0);
                        } else {
                            assert(handles@[i as int] == out@[k].0);
                        }
                    }
                    assert forall|k: int, l: int| 0 <= k < l < out@.len() implies out@[k].0
                        != out@[l].0 by {
                        if l == prev.len() {
                            let j = choose|j: int| 0 <= j < i && handles@[j] == prev[k].0;
                        }
                    }
                    assert forall|j: int|
                        0 <= j < i + 1 && self.peers@.records.contains_key(#[trigger] handles@[j])
                            && filter.state.spec_matches(
                            self.peers.kind_of(handles@[j]),
                        ) implies exists|k: int|
                        0 <= k < out@.len() && #[trigger] out@[k].0 == handles@[j] by {
                        if j < i {
                            let k = choose|k: int|
                                0 <= k < prev.len() && #[trigger] prev[k].0 == handles@[j];
                            assert(out@[k].0 == handles@[j]);
                        } else {
                            assert(out@[prev.len() as int].0 == handles@[j]);
                        }
                    }
                }
            }
            i += 1;
        }
        proof {
            assert forall|a: PeerHandle|
                self.peers@.records.contains_key(a) && filter.state.spec_matches(
                    self.peers.kind_of(a),
                ) implies exists|k: int| 0 <= k < out@.len() && #[trigger] out@[k].0 == a by {
                assert(handles@.to_set().contains(a));
                let j = choose|j: int| 0 <= j < handles@.len() && handles@[j] == a;
                assert(self.peers@.records.contains_key(handles@[j]));
            }
        }
        PeerStatsSnapshot { peers: out }
    }

    /// An address has come off the queue of the peers to admit. If the download is
    /// complete, the peer is marked as not needed and `false` is returned.
    /// Otherwise nothing changes and `true` is returned: the caller waits for one of
    /// the [`MAX_CONCURRENT_PEERS`] permits and starts the peer's session.
    pub fn task_peer_adder(&mut self, addr: PeerHandle) -> (connect: bool)
        requires
            old(self).wf(),
        ensures
            final(self).wf(),
            final(self).spec_downloaded_bytes() >= old(self).spec_downloaded_bytes(),
            legal_step(old(self).peers@.records, final(self).peers@.records),
            old(self).same_download(final(self)),
            connect == !old(self).spec_is_finished(),
            connect ==> old(self).same_peers(final(self)),
            !connect && old(self).peers@.records.contains_key(addr) ==> old(self).peers.changed_at(
                &final(self).peers,
                addr,
                with_state(old(self).peers@.records[addr], PeerStateView::NotNeeded),
            ),
            !connect && !old(self).peers@.records.contains_key(addr) ==> old(self).same_peers(final(self)),
    {
        if self.is_finished() {
            self.peers.mark_peer_not_needed(addr);
            return false;
        }
        true
    }
}

} // verus!
