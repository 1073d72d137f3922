//! What a snapshot shows of each peer, and the filter that picks the peers shown.

use vstd::prelude::*;
use crate::peer_state::{state_name, Peer, PeerHandle, PeerState, PeerStateKind, PeerView};

verus! {

/// The counters of one peer, as read at one moment.
#[derive(Debug, Clone, Copy, PartialEq, Eq)]
pub struct PeerCounters {
    pub fetched_bytes: u64,
    pub total_time_connecting_ms: u64,
    pub connection_attempts: u32,
    pub connections: u32,
    pub errors: u32,
    pub fetched_chunks: u32,
    pub downloaded_and_checked_pieces: u32,
}

impl PeerCounters {
    /// The snapshot of given counters.
    pub open spec fn of(counters: crate::peer_state::PeerCounters) -> PeerCounters {
        PeerCounters {
            fetched_bytes: counters.fetched_bytes,
            total_time_connecting_ms: counters.total_time_connecting_ms,
            connection_attempts: counters.connection_attempts,
            connections: counters.connections,
            errors: counters.errors,
            fetched_chunks: counters.fetched_chunks,
            downloaded_and_checked_pieces: counters.downloaded_and_checked_pieces,
        }
    }

    /// The snapshot of given counters.
    pub fn from(counters: &crate::peer_state::PeerCounters) -> (r: PeerCounters)
        ensures
            r == PeerCounters::of(*counters),
    {
        PeerCounters {
            fetched_bytes: counters.fetched_bytes,
            total_time_connecting_ms: counters.total_time_connecting_ms,
            connection_attempts: counters.connection_attempts,
            connections: counters.connections,
            errors: counters.errors,
            fetched_chunks: counters.fetched_chunks,
            downloaded_and_checked_pieces: counters.downloaded_and_checked_pieces,
        }
    }
}

/// One peer in a snapshot: its counters and the name of its state.
#[derive(Debug, Clone, Copy)]
pub struct PeerStats {
    pub counters: PeerCounters,
    pub state: &'static str,
}

impl PeerStats {
    /// Whether this entry shows a peer whose record is `peer`.
    pub open spec fn shows(&self, peer: PeerView) -> bool {
        &&& self.counters == PeerCounters::of(peer.counters)
        &&& self.state@ == state_name(peer.state.kind())
    }

    /// The snapshot of a peer.
    pub fn from(peer: &Peer) -> (r: PeerStats)
        ensures
            r.shows(peer@),
    {
        PeerStats {
            counters: PeerCounters::from(&peer.stats.counters),
            state: peer.state.get().name(),
        }
    }
}

/// The peers of a snapshot, each under its address.
#[derive(Debug)]
pub struct PeerStatsSnapshot {
    pub peers: Vec<(PeerHandle, PeerStats)>,
}

/// Which peers a snapshot shows.
#[derive(Debug, Clone, Copy, PartialEq, Eq)]
pub enum PeerStatsFilterState {
    /// Every known peer.
    All,
    /// The live peers.
    Live,
}

impl Default for PeerStatsFilterState {
    fn default() -> (r: PeerStatsFilterState)
        ensures
            r == PeerStatsFilterState::Live,
    {
        PeerStatsFilterState::Live
    }
}

impl PeerStatsFilterState {
    /// Whether the filter lets a peer in state `kind` through.
    pub open spec fn spec_matches(&self, kind: PeerStateKind) -> bool {
        *self == PeerStatsFilterState::All || kind == PeerStateKind::Live
    }

    /// Whether the filter lets a peer in state `s` through.
    pub fn matches(&self, s: &PeerState) -> (r: bool)
        ensures
            r == self.spec_matches(s.kind()),
    {
        match (self, s) {
            (PeerStatsFilterState::All, _) => true,
            (PeerStatsFilterState::Live, PeerState::Live(_)) => true,
            _ => false,
        }
    }
}

/// The filter of a per-peer snapshot.
#[derive(Debug, Clone, Copy)]
pub struct PeerStatsFilter {
    pub state: PeerStatsFilterState,
}

impl Default for PeerStatsFilter {
    fn default() -> (r: PeerStatsFilter)
        ensures
            r.state == PeerStatsFilterState::Live,
    {
        PeerStatsFilter { state: PeerStatsFilterState::Live }
    }
}

} // verus!
