//! The record kept for each known peer: its state, its counters and its backoff, and
//! the counters that say how many peers are in each state.

use vstd::prelude::*;
use vstd::wrapping::u32_specs::{wrapping_add, wrapping_sub};
use std::collections::HashSet;
use crate::bitfield::{all_set, BF};
use crate::lengths::{ChunkInfo, ValidPieceIndex};
use crate::protocol::Id20;
use crate::retry::{new_backoff, BackoffParameters, PeerBackoff};

verus! {

/// The identity of a peer: its IP address as a 128-bit number (an IPv4 address in its
/// IPv6-mapped form) and its port.
pub type PeerHandle = (u128, u16);

/// A chunk that was asked of a peer and has not arrived yet.
#[derive(Debug, Hash, PartialEq, Eq, Clone, Copy)]
pub struct InflightRequest {
    pub piece: ValidPieceIndex,
    pub chunk: u32,
}

impl InflightRequest {
    /// The number that stands for the request in a set: the piece in the upper 32
    /// bits, the chunk in the lower.
    pub open spec fn spec_key(&self) -> u64 {
        (self.piece@ as int * 0x1_0000_0000 + self.chunk as int) as u64
    }

    /// The request for a chunk.
    pub fn from(c: &ChunkInfo) -> (r: InflightRequest)
        ensures
            r.piece == c.piece_index,
            r.chunk == c.chunk_index,
    {
        InflightRequest { piece: c.piece_index, chunk: c.chunk_index }
    }

    /// The number that stands for the request in a set.
    pub fn key(&self) -> (k: u64)
        ensures
            k == self.spec_key(),
    {
        (self.piece.get() as u64) * 0x1_0000_0000u64 + (self.chunk as u64)
    }

    /// The piece of the request that `k` stands for.
    pub open spec fn piece_of(k: u64) -> u32 {
        (k / 0x1_0000_0000) as u32
    }

    /// The chunk of the request that `k` stands for.
    pub open spec fn chunk_of(k: u64) -> u32 {
        (k % 0x1_0000_0000) as u32
    }

    /// The request that a number stands for.
    pub fn from_key(k: u64) -> (r: InflightRequest)
        ensures
            r.spec_key() == k,
            r.piece@ == Self::piece_of(k),
            r.chunk == Self::chunk_of(k),
    {
        let piece = (k / 0x1_0000_0000u64) as u32;
        let chunk = (k % 0x1_0000_0000u64) as u32;
        InflightRequest { piece: ValidPieceIndex(piece), chunk }
    }

    /// Different requests have different keys.
    pub proof fn lemma_key_injective(a: InflightRequest, b: InflightRequest)
        ensures
            a.spec_key() == b.spec_key() <==> a == b,
    {
        if a.spec_key() == b.spec_key() {
            assert(a.piece@ == b.piece@);
            assert(a.chunk == b.chunk);
        }
    }
}

/// What is counted of one peer. The counters wrap around.
#[derive(Debug, Clone, Copy)]
pub struct PeerCounters {
    pub fetched_bytes: u64,
    pub total_time_connecting_ms: u64,
    pub connection_attempts: u32,
    pub connections: u32,
    pub errors: u32,
    pub fetched_chunks: u32,
    pub downloaded_and_checked_pieces: u32,
    pub downloaded_and_checked_bytes: u64,
}

impl PeerCounters {
    /// All counters at zero.
    pub open spec fn zero() -> PeerCounters {
        PeerCounters {
            fetched_bytes: 0,
            total_time_connecting_ms: 0,
            connection_attempts: 0,
            connections: 0,
            errors: 0,
            fetched_chunks: 0,
            downloaded_and_checked_pieces: 0,
            downloaded_and_checked_bytes: 0,
        }
    }
}

impl Default for PeerCounters {
    fn default() -> (r: PeerCounters)
        ensures
            r == PeerCounters::zero(),
    {
        PeerCounters {
            fetched_bytes: 0,
            total_time_connecting_ms: 0,
            connection_attempts: 0,
            connections: 0,
            errors: 0,
            fetched_chunks: 0,
            downloaded_and_checked_pieces: 0,
            downloaded_and_checked_bytes: 0,
        }
    }
}

/// The first delay before a peer is tried again, in seconds.
pub const BACKOFF_INITIAL_INTERVAL_SECS: u64 = 10;

/// The factor by which the delay grows from one failure to the next.
pub const BACKOFF_MULTIPLIER: u32 = 6;

/// The longest delay between two attempts, in seconds.
pub const BACKOFF_MAX_INTERVAL_SECS: u64 = 3600;

/// The time after which a peer that keeps failing is given up, in seconds.
pub const BACKOFF_MAX_ELAPSED_SECS: u64 = 86400;

/// The parameters of the backoff of a peer.
pub open spec fn peer_backoff_parameters() -> BackoffParameters {
    BackoffParameters {
        initial_interval_secs: BACKOFF_INITIAL_INTERVAL_SECS,
        multiplier: BACKOFF_MULTIPLIER,
        max_interval_secs: BACKOFF_MAX_INTERVAL_SECS,
        max_elapsed_secs: BACKOFF_MAX_ELAPSED_SECS,
    }
}

/// A peer's counters and its backoff.
#[derive(Debug)]
pub struct PeerStats {
    pub counters: PeerCounters,
    pub backoff: PeerBackoff,
}

impl Default for PeerStats {
    fn default() -> (r: PeerStats)
        ensures
            r.counters == PeerCounters::zero(),
            r.backoff.parameters() == peer_backoff_parameters(),
            r.backoff.is_fresh(),
    {
        PeerStats {
            counters: PeerCounters::default(),
            backoff: new_backoff(
                BackoffParameters {
                    initial_interval_secs: BACKOFF_INITIAL_INTERVAL_SECS,
                    multiplier: BACKOFF_MULTIPLIER,
                    max_interval_secs: BACKOFF_MAX_INTERVAL_SECS,
                    max_elapsed_secs: BACKOFF_MAX_ELAPSED_SECS,
                },
            ),
        }
    }
}

/// The five states of a peer, without what a state carries.
#[derive(Debug, Clone, Copy, PartialEq, Eq, Structural)]
pub enum PeerStateKind {
    Queued,
    Connecting,
    Live,
    Dead,
    NotNeeded,
}

impl PeerStateKind {
    /// Whether a peer in this state may go to state `to`: a queued peer is
    /// connected to, a connecting peer becomes live, a session that fails leaves a
    /// dead peer, a dead peer is queued again, and any peer may turn out not to be
    /// needed.
    pub open spec fn may_become(self, to: PeerStateKind) -> bool {
        ||| to == PeerStateKind::NotNeeded
        ||| self == PeerStateKind::Queued && to == PeerStateKind::Connecting
        ||| self == PeerStateKind::Connecting && to == PeerStateKind::Live
        ||| self != PeerStateKind::Dead && self != PeerStateKind::NotNeeded && to
            == PeerStateKind::Dead
        ||| self == PeerStateKind::Dead && to == PeerStateKind::Queued
    }
}

/// How many peers are in each state, and how many were ever seen. The counters wrap
/// around.
#[derive(Debug, Clone, Copy)]
pub struct AggregatePeerStatsAtomic {
    pub queued: u32,
    pub connecting: u32,
    pub live: u32,
    pub seen: u32,
    pub dead: u32,
    pub not_needed: u32,
}

/// Adds one to a counter and returns what it held before.
pub fn atomic_inc(c: &mut u32) -> (prev: u32)
    ensures
        prev == *old(c),
        *final(c) == wrapping_add(*old(c), 1),
{
    let prev = *c;
    *c = prev.wrapping_add(1);
    prev
}

/// Takes one off a counter and returns what it held before.
pub fn atomic_dec(c: &mut u32) -> (prev: u32)
    ensures
        prev == *old(c),
        *final(c) == wrapping_sub(*old(c), 1),
{
    let prev = *c;
    *c = prev.wrapping_sub(1);
    prev
}

impl AggregatePeerStatsAtomic {
    /// All counters at zero.
    pub open spec fn zero() -> AggregatePeerStatsAtomic {
        AggregatePeerStatsAtomic {
            queued: 0,
            connecting: 0,
            live: 0,
            seen: 0,
            dead: 0,
            not_needed: 0,
        }
    }

    /// The counter of a state.
    pub open spec fn spec_counter(&self, kind: PeerStateKind) -> u32 {
        match kind {
            PeerStateKind::Queued => self.queued,
            PeerStateKind::Connecting => self.connecting,
            PeerStateKind::Live => self.live,
            PeerStateKind::Dead => self.dead,
            PeerStateKind::NotNeeded => self.not_needed,
        }
    }

    /// These counters with the counter of `kind` replaced by `value`.
    pub open spec fn with_counter(&self, kind: PeerStateKind, value: u32) -> AggregatePeerStatsAtomic {
        match kind {
            PeerStateKind::Queued => AggregatePeerStatsAtomic { queued: value, ..*self },
            PeerStateKind::Connecting => AggregatePeerStatsAtomic { connecting: value, ..*self },
            PeerStateKind::Live => AggregatePeerStatsAtomic { live: value, ..*self },
            PeerStateKind::Dead => AggregatePeerStatsAtomic { dead: value, ..*self },
            PeerStateKind::NotNeeded => AggregatePeerStatsAtomic { not_needed: value, ..*self },
        }
    }

    /// These counters after one more peer is in state `kind`.
    pub open spec fn after_inc(&self, kind: PeerStateKind) -> AggregatePeerStatsAtomic {
        self.with_counter(kind, wrapping_add(self.spec_counter(kind), 1))
    }

    /// These counters after one peer less is in state `kind`.
    pub open spec fn after_dec(&self, kind: PeerStateKind) -> AggregatePeerStatsAtomic {
        self.with_counter(kind, wrapping_sub(self.spec_counter(kind), 1))
    }

    /// These counters after a peer went from state `from` to state `to`.
    pub open spec fn after_incdec(
        &self,
        from: PeerStateKind,
        to: PeerStateKind,
    ) -> AggregatePeerStatsAtomic {
        self.after_dec(from).after_inc(to)
    }

    /// These counters after `n` peers went from state `from` to state `to`.
    pub open spec fn after_moves(
        &self,
        from: PeerStateKind,
        to: PeerStateKind,
        n: nat,
    ) -> AggregatePeerStatsAtomic
        decreases n,
    {
        if n == 0 {
            *self
        } else {
            self.after_moves(from, to, (n - 1) as nat).after_incdec(from, to)
        }
    }

    /// A peer that passes through a state on its way leaves that state's counter
    /// as it was, and a peer that is counted into a state and then out of it as
    /// well.
    pub proof fn lemma_passing_through(&self, from: PeerStateKind, via: PeerStateKind, to: PeerStateKind)
        ensures
            self.after_incdec(from, via).after_incdec(via, to) == self.after_incdec(from, to),
            self.after_incdec(from, via).after_dec(via) == self.after_dec(from),
            self.after_incdec(from, from) == *self,
    {
        match from {
            PeerStateKind::Queued => {},
            PeerStateKind::Connecting => {},
            PeerStateKind::Live => {},
            PeerStateKind::Dead => {},
            PeerStateKind::NotNeeded => {},
        }
    }

    /// Counters at zero.
    pub fn new() -> (r: AggregatePeerStatsAtomic)
        ensures
            r == AggregatePeerStatsAtomic::zero(),
    {
        AggregatePeerStatsAtomic { queued: 0, connecting: 0, live: 0, seen: 0, dead: 0, not_needed: 0 }
    }

    /// The counter of the state that `state` is in.
    pub fn counter(&mut self, state: &PeerState) -> (c: &mut u32)
        ensures
            *c == old(self).spec_counter(state.kind()),
            *final(self) == old(self).with_counter(state.kind(), *final(c)),
    {
        match state {
            PeerState::Connecting => &mut self.connecting,
            PeerState::Live(_) => &mut self.live,
            PeerState::Queued => &mut self.queued,
            PeerState::Dead => &mut self.dead,
            PeerState::NotNeeded => &mut self.not_needed,
        }
    }

    /// One more peer is in the state of `state`.
    pub fn inc(&mut self, state: &PeerState)
        ensures
            *final(self) == old(self).after_inc(state.kind()),
    {
        atomic_inc(self.counter(state));
    }

    /// One peer less is in the state of `state`.
    pub fn dec(&mut self, state: &PeerState)
        ensures
            *final(self) == old(self).after_dec(state.kind()),
    {
        atomic_dec(self.counter(state));
    }

    /// A peer goes from the state of `old_state` to the state of `new_state`: the
    /// first counter goes down, then the second goes up.
    pub fn incdec(&mut self, old_state: &PeerState, new_state: &PeerState)
        ensures
            *final(self) == old(self).after_incdec(old_state.kind(), new_state.kind()),
    {
        self.dec(old_state);
        self.inc(new_state);
    }
}

/// What is known of a peer while it is live.
#[derive(Debug)]
pub struct LivePeerState {
    pub peer_id: Id20,
    pub peer_interested: bool,
    /// The pieces the peer says it has.
    pub bitfield: BF,
    /// The keys of the chunks asked of the peer that have not arrived.
    pub inflight_requests: HashSet<u64>,
}

/// A live peer as a mathematical value.
pub struct LivePeerView {
    pub peer_id: Id20,
    pub peer_interested: bool,
    pub bitfield: Seq<bool>,
    pub inflight_requests: Set<u64>,
}

impl View for LivePeerState {
    type V = LivePeerView;

    open spec fn view(&self) -> LivePeerView {
        LivePeerView {
            peer_id: self.peer_id,
            peer_interested: self.peer_interested,
            bitfield: self.bitfield@,
            inflight_requests: self.inflight_requests@,
        }
    }
}

impl LivePeerState {
    /// A peer fresh from its handshake: not interested, with no pieces and no
    /// requests.
    pub fn new(peer_id: Id20) -> (r: LivePeerState)
        ensures
            r@ == (LivePeerView {
                peer_id,
                peer_interested: false,
                bitfield: Seq::empty(),
                inflight_requests: Set::empty(),
            }),
    {
        let r = LivePeerState {
            peer_id,
            peer_interested: false,
            bitfield: BF::new(),
            inflight_requests: HashSet::new(),
        };
        assert(r.bitfield@ =~= Seq::empty());
        r
    }

    /// Whether the peer says it has each of the first `total_pieces` pieces.
    pub fn has_full_torrent(&self, total_pieces: usize) -> (r: bool)
        ensures
            r == all_set(self@.bitfield, total_pieces as int),
    {
        self.bitfield.all_in_prefix(total_pieces)
    }
}

/// The state of a peer.
#[derive(Debug)]
pub enum PeerState {
    /// Known, and to be connected to as soon as possible.
    Queued,
    /// Admitted; the connection and the handshake are under way.
    Connecting,
    /// The handshake is done.
    Live(LivePeerState),
    /// The last session failed; the peer waits for its backoff to pass.
    Dead,
    /// There is no reason to talk to the peer any longer.
    NotNeeded,
}

/// The state of a peer as a mathematical value.
pub enum PeerStateView {
    Queued,
    Connecting,
    Live(LivePeerView),
    Dead,
    NotNeeded,
}

impl PeerStateView {
    /// The state without what it carries.
    pub open spec fn kind(&self) -> PeerStateKind {
        match self {
            PeerStateView::Queued => PeerStateKind::Queued,
            PeerStateView::Connecting => PeerStateKind::Connecting,
            PeerStateView::Live(_) => PeerStateKind::Live,
            PeerStateView::Dead => PeerStateKind::Dead,
            PeerStateView::NotNeeded => PeerStateKind::NotNeeded,
        }
    }
}

impl View for PeerState {
    type V = PeerStateView;

    open spec fn view(&self) -> PeerStateView {
        match self {
            PeerState::Queued => PeerStateView::Queued,
            PeerState::Connecting => PeerStateView::Connecting,
            PeerState::Live(l) => PeerStateView::Live(l@),
            PeerState::Dead => PeerStateView::Dead,
            PeerState::NotNeeded => PeerStateView::NotNeeded,
        }
    }
}

impl Default for PeerState {
    fn default() -> (r: PeerState)
        ensures
            r == PeerState::Queued,
    {
        PeerState::Queued
    }
}

/// The name of a state, as snapshots show it.
pub open spec fn state_name(kind: PeerStateKind) -> Seq<char> {
    match kind {
        PeerStateKind::Queued => "queued"@,
        PeerStateKind::Connecting => "connecting"@,
        PeerStateKind::Live => "live"@,
        PeerStateKind::Dead => "dead"@,
        PeerStateKind::NotNeeded => "not needed"@,
    }
}

impl PeerState {
    /// The state without what it carries.
    pub open spec fn kind(&self) -> PeerStateKind {
        self@.kind()
    }

    /// The state without what it carries.
    pub fn get_kind(&self) -> (k: PeerStateKind)
        ensures
            k == self.kind(),
    {
        match self {
            PeerState::Queued => PeerStateKind::Queued,
            PeerState::Connecting => PeerStateKind::Connecting,
            PeerState::Live(_) => PeerStateKind::Live,
            PeerState::Dead => PeerStateKind::Dead,
            PeerState::NotNeeded => PeerStateKind::NotNeeded,
        }
    }

    /// The name of the state.
    pub fn name(&self) -> (r: &'static str)
        ensures
            r@ == state_name(self.kind()),
    {
        match self {
            PeerState::Queued => "queued",
            PeerState::Connecting => "connecting",
            PeerState::Live(_) => "live",
            PeerState::Dead => "dead",
            PeerState::NotNeeded => "not needed",
        }
    }

    /// What a live state carries; `None` for the other states. No counter changes.
    pub fn take_live_no_counters(self) -> (r: Option<LivePeerState>)
        ensures
            r == (match self {
                PeerState::Live(l) => Some(l),
                _ => None,
            }),
    {
        match self {
            PeerState::Live(l) => Some(l),
            _ => None,
        }
    }
}

/// A peer's state behind an interface that changes it only together with the
/// counters of the states.
#[derive(Debug)]
pub struct PeerStateNoMut(pub PeerState);

impl Default for PeerStateNoMut {
    fn default() -> (r: PeerStateNoMut)
        ensures
            r.0 == PeerState::Queued,
    {
        PeerStateNoMut(PeerState::Queued)
    }
}

impl PeerStateNoMut {
    /// The state.
    pub fn get(&self) -> (r: &PeerState)
        ensures
            *r == self.0,
    {
        &self.0
    }

    /// Takes the state out and leaves `Queued`, with the counters following.
    pub fn take(&mut self, counters: &mut AggregatePeerStatsAtomic) -> (prev: PeerState)
        ensures
            prev == old(self).0,
            final(self).0 == PeerState::Queued,
            *final(counters) == old(counters).after_incdec(old(self).0.kind(), PeerStateKind::Queued),
    {
        self.set(PeerState::Queued, counters)
    }

    /// Puts the peer into state `new` and returns the state it was in. The counter
    /// of the old state goes down and that of the new state goes up.
    pub fn set(&mut self, new: PeerState, counters: &mut AggregatePeerStatsAtomic) -> (prev:
        PeerState)
        ensures
            prev == old(self).0,
            final(self).0 == new,
            *final(counters) == old(counters).after_incdec(old(self).0.kind(), new.kind()),
    {
        counters.incdec(&self.0, &new);
        let mut new = new;
        std::mem::swap(&mut self.0, &mut new);
        new
    }

    /// What the state carries if it is live.
    pub fn get_live(&self) -> (r: Option<&LivePeerState>)
        ensures
            r == (match self.0 {
                PeerState::Live(l) => Some(&l),
                _ => None,
            }),
    {
        match &self.0 {
            PeerState::Live(l) => Some(l),
            _ => None,
        }
    }

    /// What the state carries if it is live, for a change. While the state stays
    /// live no counter has to follow.
    pub fn get_live_mut(&mut self) -> (r: Option<&mut LivePeerState>)
        ensures
            match r {
                Some(live) => old(self).0 == PeerState::Live(*live) && final(self).0
                    == PeerState::Live(*final(live)),
                None => !(old(self).0 is Live) && *final(self) == *old(self),
            },
    {
        match &mut self.0 {
            PeerState::Live(l) => Some(l),
            _ => None,
        }
    }

    /// From `Queued` to `Connecting`. Returns whether the peer was `Queued`; in any
    /// other state nothing changes.
    pub fn queued_to_connecting(&mut self, counters: &mut AggregatePeerStatsAtomic) -> (r: bool)
        ensures
            r == (old(self).0 is Queued),
            r ==> final(self).0 == PeerState::Connecting,
            r ==> *final(counters) == old(counters).after_incdec(
                PeerStateKind::Queued,
                PeerStateKind::Connecting,
            ),
            !r ==> *final(self) == *old(self) && *final(counters) == *old(counters),
    {
        if let PeerState::Queued = &self.0 {
            self.set(PeerState::Connecting, counters);
            true
        } else {
            false
        }
    }

    /// From `Connecting` to `Live`, with the peer id of the handshake. Returns
    /// whether the peer was `Connecting`; in any other state nothing changes. The
    /// state passes through `Queued` on the way, as far as the counters go.
    pub fn connecting_to_live(&mut self, peer_id: Id20, counters: &mut AggregatePeerStatsAtomic) -> (r:
        bool)
        ensures
            r == (old(self).0 is Connecting),
            r ==> final(self).0@ == PeerStateView::Live(
                LivePeerView {
                    peer_id,
                    peer_interested: false,
                    bitfield: Seq::empty(),
                    inflight_requests: Set::empty(),
                },
            ) && *final(counters) == old(counters).after_incdec(
                PeerStateKind::Connecting,
                PeerStateKind::Queued,
            ).after_incdec(PeerStateKind::Queued, PeerStateKind::Live),
            !r ==> *final(self) == *old(self) && *final(counters) == *old(counters),
    {
        if let PeerState::Connecting = &self.0 {
            self.take(counters);
            self.set(PeerState::Live(LivePeerState::new(peer_id)), counters);
            true
        } else {
            false
        }
    }

    /// To `Dead`, from whatever state. Returns the state the peer was in.
    pub fn to_dead(&mut self, counters: &mut AggregatePeerStatsAtomic) -> (prev: PeerState)
        ensures
            prev == old(self).0,
            final(self).0 == PeerState::Dead,
            *final(counters) == old(counters).after_incdec(old(self).0.kind(), PeerStateKind::Dead),
    {
        self.set(PeerState::Dead, counters)
    }

    /// To `NotNeeded`, from whatever state. Returns the state the peer was in.
    pub fn to_not_needed(&mut self, counters: &mut AggregatePeerStatsAtomic) -> (prev: PeerState)
        ensures
            prev == old(self).0,
            final(self).0 == PeerState::NotNeeded,
            *final(counters) == old(counters).after_incdec(
                old(self).0.kind(),
                PeerStateKind::NotNeeded,
            ),
    {
        self.set(PeerState::NotNeeded, counters)
    }
}

/// A known peer.
#[derive(Debug)]
pub struct Peer {
    pub state: PeerStateNoMut,
    pub stats: PeerStats,
}

/// A known peer as a mathematical value: its state, its counters and its backoff.
pub struct PeerView {
    pub state: PeerStateView,
    pub counters: PeerCounters,
    pub backoff: PeerBackoff,
}

impl PeerView {
    /// Whether this is the record of a peer that has just become known: it is
    /// queued, its counters are at zero, and its backoff is one of a peer and where
    /// it starts.
    pub open spec fn is_new(&self) -> bool {
        &&& self.state == PeerStateView::Queued
        &&& self.counters == PeerCounters::zero()
        &&& self.backoff.parameters() == peer_backoff_parameters()
        &&& self.backoff.is_fresh()
    }
}

impl View for Peer {
    type V = PeerView;

    open spec fn view(&self) -> PeerView {
        PeerView {
            state: self.state.0@,
            counters: self.stats.counters,
            backoff: self.stats.backoff,
        }
    }
}

impl Default for Peer {
    fn default() -> (r: Peer)
        ensures
            r@.is_new(),
    {
        Peer { state: PeerStateNoMut::default(), stats: PeerStats::default() }
    }
}

} // verus!
