use librqbit::lengths::Lengths;
use librqbit::peer_state::{
    atomic_dec, atomic_inc, AggregatePeerStatsAtomic, InflightRequest, LivePeerState, Peer,
    PeerCounters, PeerState, PeerStateKind, PeerStateNoMut, PeerStats,
};
use librqbit::peer_stats_snapshot::{PeerStatsFilter, PeerStatsFilterState};
use librqbit::protocol::Id20;
use librqbit::retry::{BackoffParameters, BACKOFF_PARAMETER_LIMIT};

fn live() -> PeerState {
    PeerState::Live(LivePeerState::new(Id20([3u8; 20])))
}

#[test]
fn atomic_inc_returns_the_previous_value() {
    let mut c = 5u32;
    assert_eq!(atomic_inc(&mut c), 5);
    assert_eq!(c, 6);
}

#[test]
fn atomic_inc_wraps() {
    let mut c = u32::MAX;
    assert_eq!(atomic_inc(&mut c), u32::MAX);
    assert_eq!(c, 0);
}

#[test]
fn atomic_dec_returns_the_previous_value() {
    let mut c = 5u32;
    assert_eq!(atomic_dec(&mut c), 5);
    assert_eq!(c, 4);
}

#[test]
fn atomic_dec_wraps() {
    let mut c = 0u32;
    assert_eq!(atomic_dec(&mut c), 0);
    assert_eq!(c, u32::MAX);
}

#[test]
fn counter_picks_the_counter_of_the_state() {
    let mut c = AggregatePeerStatsAtomic::new();
    *c.counter(&PeerState::Queued) = 1;
    *c.counter(&PeerState::Connecting) = 2;
    *c.counter(&live()) = 3;
    *c.counter(&PeerState::Dead) = 4;
    *c.counter(&PeerState::NotNeeded) = 5;
    assert_eq!((c.queued, c.connecting, c.live, c.dead, c.not_needed, c.seen), (1, 2, 3, 4, 5, 0));
}

#[test]
fn incdec_moves_one_peer() {
    let mut c = AggregatePeerStatsAtomic::new();
    c.inc(&PeerState::Queued);
    c.inc(&PeerState::Queued);
    assert_eq!(c.queued, 2);
    c.incdec(&PeerState::Queued, &PeerState::Connecting);
    assert_eq!((c.queued, c.connecting), (1, 1));
    c.incdec(&PeerState::Connecting, &PeerState::Connecting);
    assert_eq!((c.queued, c.connecting), (1, 1));
    c.dec(&PeerState::Connecting);
    assert_eq!((c.queued, c.connecting, c.live, c.dead, c.not_needed), (1, 0, 0, 0, 0));
}

#[test]
fn state_names() {
    assert_eq!(PeerState::Queued.name(), "queued");
    assert_eq!(PeerState::Connecting.name(), "connecting");
    assert_eq!(live().name(), "live");
    assert_eq!(PeerState::Dead.name(), "dead");
    assert_eq!(PeerState::NotNeeded.name(), "not needed");
}

#[test]
fn state_kinds() {
    assert_eq!(PeerState::Queued.get_kind(), PeerStateKind::Queued);
    assert_eq!(PeerState::Connecting.get_kind(), PeerStateKind::Connecting);
    assert_eq!(live().get_kind(), PeerStateKind::Live);
    assert_eq!(PeerState::Dead.get_kind(), PeerStateKind::Dead);
    assert_eq!(PeerState::NotNeeded.get_kind(), PeerStateKind::NotNeeded);
    assert_eq!(PeerState::default().get_kind(), PeerStateKind::Queued);
}

#[test]
fn take_live_no_counters_gives_the_live_part_only() {
    assert_eq!(live().take_live_no_counters().unwrap().peer_id.0, [3u8; 20]);
    assert!(PeerState::Queued.take_live_no_counters().is_none());
    assert!(PeerState::Connecting.take_live_no_counters().is_none());
    assert!(PeerState::Dead.take_live_no_counters().is_none());
    assert!(PeerState::NotNeeded.take_live_no_counters().is_none());
}

#[test]
fn state_machine_happy_path_moves_the_counters() {
    let mut c = AggregatePeerStatsAtomic::new();
    c.queued = 1;
    let mut s = PeerStateNoMut::default();
    assert_eq!(s.get().get_kind(), PeerStateKind::Queued);
    assert!(s.queued_to_connecting(&mut c));
    assert_eq!(s.get().get_kind(), PeerStateKind::Connecting);
    assert_eq!((c.queued, c.connecting, c.live), (0, 1, 0));
    assert!(s.connecting_to_live(Id20([9u8; 20]), &mut c));
    assert_eq!((c.queued, c.connecting, c.live), (0, 0, 1));
    let l = s.get_live().unwrap();
    assert_eq!(l.peer_id.0, [9u8; 20]);
    assert!(!l.peer_interested);
    assert_eq!(l.bitfield.byte_len(), 0);
    assert!(l.inflight_requests.is_empty());
    let prev = s.to_dead(&mut c);
    assert_eq!(prev.get_kind(), PeerStateKind::Live);
    assert_eq!((c.live, c.dead), (0, 1));
    let prev = s.to_not_needed(&mut c);
    assert_eq!(prev.get_kind(), PeerStateKind::Dead);
    assert_eq!((c.dead, c.not_needed), (0, 1));
    let prev = s.take(&mut c);
    assert_eq!(prev.get_kind(), PeerStateKind::NotNeeded);
    assert_eq!(s.get().get_kind(), PeerStateKind::Queued);
    assert_eq!((c.queued, c.connecting, c.live, c.dead, c.not_needed), (1, 0, 0, 0, 0));
}

#[test]
fn guarded_transitions_refuse_other_states() {
    let mut c = AggregatePeerStatsAtomic::new();
    c.queued = 1;
    let mut s = PeerStateNoMut::default();
    assert!(!s.connecting_to_live(Id20([9u8; 20]), &mut c));
    assert_eq!(s.get().get_kind(), PeerStateKind::Queued);
    assert!(s.get_live().is_none());
    assert!(s.get_live_mut().is_none());
    assert!(s.queued_to_connecting(&mut c));
    assert!(!s.queued_to_connecting(&mut c));
    assert_eq!(s.get().get_kind(), PeerStateKind::Connecting);
    assert_eq!((c.queued, c.connecting, c.live, c.dead, c.not_needed), (0, 1, 0, 0, 0));
    s.set(PeerState::Dead, &mut c);
    assert!(!s.queued_to_connecting(&mut c));
    assert!(!s.connecting_to_live(Id20([9u8; 20]), &mut c));
    assert_eq!((c.queued, c.connecting, c.live, c.dead, c.not_needed), (0, 0, 0, 1, 0));
}

#[test]
fn get_live_mut_changes_the_live_part() {
    let mut c = AggregatePeerStatsAtomic::new();
    let mut s = PeerStateNoMut(PeerState::Connecting);
    c.connecting = 1;
    s.connecting_to_live(Id20([1u8; 20]), &mut c);
    s.get_live_mut().unwrap().peer_interested = true;
    assert!(s.get_live().unwrap().peer_interested);
}

#[test]
fn has_full_torrent_looks_at_the_first_pieces() {
    let mut l = LivePeerState::new(Id20([0u8; 20]));
    // a peer without a bitfield has none of the pieces
    assert!(!l.has_full_torrent(1));
    assert!(l.has_full_torrent(0));
    l.bitfield = librqbit::bitfield::BF::from_vec(vec![0b1111_0000]);
    assert!(l.has_full_torrent(4));
    assert!(l.has_full_torrent(3));
    assert!(!l.has_full_torrent(5));
    assert!(!l.has_full_torrent(9));
}

#[test]
fn inflight_request_keys_are_one_to_one() {
    let l = Lengths::new(1 << 20, 1, None).unwrap();
    let a = InflightRequest { piece: l.validate_piece_index(3).unwrap(), chunk: 7 };
    assert_eq!(a.key(), (3u64 << 32) | 7);
    let back = InflightRequest::from_key(a.key());
    assert_eq!(back, a);
    let b = InflightRequest { piece: l.validate_piece_index(7).unwrap(), chunk: 3 };
    assert_ne!(a.key(), b.key());
    let hi = InflightRequest::from_key(u64::MAX);
    assert_eq!(hi.piece.get(), u32::MAX);
    assert_eq!(hi.chunk, u32::MAX);
    assert_eq!(hi.key(), u64::MAX);
}

#[test]
fn inflight_request_from_chunk_info() {
    let l = Lengths::new(100001, 40000, None).unwrap();
    let chunk = l.iter_chunk_infos(l.validate_piece_index(2).unwrap())[1];
    let r = InflightRequest::from(&chunk);
    assert_eq!(r.piece.get(), 2);
    assert_eq!(r.chunk, 1);
}

#[test]
fn defaults() {
    let c = PeerCounters::default();
    assert_eq!(
        (
            c.fetched_bytes,
            c.total_time_connecting_ms,
            c.connection_attempts,
            c.connections,
            c.errors,
            c.fetched_chunks,
            c.downloaded_and_checked_pieces,
            c.downloaded_and_checked_bytes
        ),
        (0, 0, 0, 0, 0, 0, 0, 0)
    );
    let p = Peer::default();
    assert_eq!(p.state.get().get_kind(), PeerStateKind::Queued);
    assert_eq!(p.stats.counters.errors, 0);
    assert_eq!(PeerStatsFilterState::default(), PeerStatsFilterState::Live);
    assert_eq!(PeerStatsFilter::default().state, PeerStatsFilterState::Live);
}

#[test]
fn the_backoff_of_a_peer_has_the_parameters_of_a_peer() {
    let stats = PeerStats::default();
    let p = stats.backoff.get_parameters();
    assert_eq!(
        p,
        BackoffParameters {
            initial_interval_secs: 10,
            multiplier: 6,
            max_interval_secs: 3600,
            max_elapsed_secs: 86400,
        }
    );
    assert_eq!(Peer::default().stats.backoff.get_parameters(), p);
    assert_eq!(BACKOFF_PARAMETER_LIMIT, u32::MAX as u64);
}

#[test]
fn filter_matches() {
    assert!(PeerStatsFilterState::All.matches(&PeerState::Queued));
    assert!(PeerStatsFilterState::All.matches(&PeerState::Dead));
    assert!(PeerStatsFilterState::All.matches(&live()));
    assert!(PeerStatsFilterState::Live.matches(&live()));
    assert!(!PeerStatsFilterState::Live.matches(&PeerState::Queued));
    assert!(!PeerStatsFilterState::Live.matches(&PeerState::Connecting));
    assert!(!PeerStatsFilterState::Live.matches(&PeerState::Dead));
    assert!(!PeerStatsFilterState::Live.matches(&PeerState::NotNeeded));
}
