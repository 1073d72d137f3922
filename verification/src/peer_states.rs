//! The registry of the known peers, and the counters of how many are in each state.

use vstd::prelude::*;
use vstd::set_lib::{lemma_len_subset, lemma_set_disjoint_lens};
use vstd::wrapping::u32_specs::wrapping_add;
use std::collections::HashSet;
use std::time::Duration;
use crate::bitfield::{all_set, bits_of, BF};
use crate::peer_stats_snapshot::{PeerStats, PeerStatsFilterState};
use crate::error::Error;
use crate::peer_map::{
    guard_value, peer_map_entries, peer_map_get, peer_map_insert, peer_map_keys, peer_map_new,
    peer_map_remove, PeerMap,
};
use crate::peer_state::{
    atomic_inc, AggregatePeerStatsAtomic, InflightRequest, LivePeerState, LivePeerView, Peer,
    PeerCounters, PeerHandle, PeerState, PeerStateKind, PeerStateNoMut, PeerStateView, PeerView,
};
use crate::protocol::Id20;
use crate::retry::{next_backoff, reset_backoff, PeerBackoff};
use crate::timed_existence::TimedExistence;

verus! {

/// The peers of `m` that are in state `kind`.
pub open spec fn peers_in_state(m: Map<PeerHandle, PeerView>, kind: PeerStateKind) -> Set<
    PeerHandle,
> {
    Set::new(|a: PeerHandle| m.contains_key(a) && m[a].state.kind() == kind)
}

/// Each state's counter holds the number of peers in that state, modulo 2^32.
pub open spec fn counters_agree(m: Map<PeerHandle, PeerView>, c: AggregatePeerStatsAtomic) -> bool {
    &&& m.dom().finite()
    &&& forall|kind: PeerStateKind| #[trigger]
        c.spec_counter(kind) as int == peers_in_state(m, kind).len() % 0x1_0000_0000
}

proof fn lemma_in_state_finite(m: Map<PeerHandle, PeerView>, kind: PeerStateKind)
    requires
        m.dom().finite(),
    ensures
        peers_in_state(m, kind).finite(),
        peers_in_state(m, kind).len() <= m.dom().len(),
{
    lemma_len_subset(peers_in_state(m, kind), m.dom());
}

/// Agreement survives a new peer, if the new peer's state is counted.
pub proof fn lemma_agree_insert(
    m: Map<PeerHandle, PeerView>,
    c: AggregatePeerStatsAtomic,
    a: PeerHandle,
    v: PeerView,
)
    requires
        counters_agree(m, c),
        !m.contains_key(a),
    ensures
        counters_agree(m.insert(a, v), c.after_inc(v.state.kind())),
{
    let m2 = m.insert(a, v);
    let c2 = c.after_inc(v.state.kind());
    assert forall|kind: PeerStateKind| #[trigger]
        c2.spec_counter(kind) as int == peers_in_state(m2, kind).len() % 0x1_0000_0000 by {
        lemma_in_state_finite(m, kind);
        assert(c.spec_counter(kind) as int == peers_in_state(m, kind).len() % 0x1_0000_0000);
        if kind == v.state.kind() {
            assert(peers_in_state(m2, kind) =~= peers_in_state(m, kind).insert(a));
        } else {
            assert(peers_in_state(m2, kind) =~= peers_in_state(m, kind));
        }
    }
}

/// Agreement survives the removal of a peer, if its state is counted down.
pub proof fn lemma_agree_remove(
    m: Map<PeerHandle, PeerView>,
    c: AggregatePeerStatsAtomic,
    a: PeerHandle,
)
    requires
        counters_agree(m, c),
        m.contains_key(a),
    ensures
        counters_agree(m.remove(a), c.after_dec(m[a].state.kind())),
{
    let m2 = m.remove(a);
    let c2 = c.after_dec(m[a].state.kind());
    assert forall|kind: PeerStateKind| #[trigger]
        c2.spec_counter(kind) as int == peers_in_state(m2, kind).len() % 0x1_0000_0000 by {
        lemma_in_state_finite(m, kind);
        assert(c.spec_counter(kind) as int == peers_in_state(m, kind).len() % 0x1_0000_0000);
        if kind == m[a].state.kind() {
            assert(peers_in_state(m, kind).contains(a));
            assert(peers_in_state(m2, kind) =~= peers_in_state(m, kind).remove(a));
        } else {
            assert(peers_in_state(m2, kind) =~= peers_in_state(m, kind));
        }
    }
}

/// Agreement survives a change of a peer's record, if the old state is counted down
/// and the new one up.
pub proof fn lemma_agree_replace(
    m: Map<PeerHandle, PeerView>,
    c: AggregatePeerStatsAtomic,
    a: PeerHandle,
    v: PeerView,
)
    requires
        counters_agree(m, c),
        m.contains_key(a),
    ensures
        counters_agree(m.insert(a, v), c.after_incdec(m[a].state.kind(), v.state.kind())),
        m[a].state.kind() == v.state.kind() ==> counters_agree(m.insert(a, v), c),
{
    lemma_agree_remove(m, c, a);
    lemma_agree_insert(m.remove(a), c.after_dec(m[a].state.kind()), a, v);
    assert(m.remove(a).insert(a, v) =~= m.insert(a, v));
    if m[a].state.kind() == v.state.kind() {
        let k = v.state.kind();
        let c2 = c.after_incdec(k, k);
        assert forall|kind: PeerStateKind| c2.spec_counter(kind) == c.spec_counter(kind) by {}
    }
}

/// The counters of the five states add up to the number of peers, as long as there
/// are fewer than 2^32 peers.
pub proof fn lemma_counters_sum(m: Map<PeerHandle, PeerView>, c: AggregatePeerStatsAtomic)
    requires
        counters_agree(m, c),
        m.dom().len() < 0x1_0000_0000,
    ensures
        c.queued + c.connecting + c.live + c.dead + c.not_needed == m.dom().len(),
{
    let q = peers_in_state(m, PeerStateKind::Queued);
    let n = peers_in_state(m, PeerStateKind::Connecting);
    let l = peers_in_state(m, PeerStateKind::Live);
    let d = peers_in_state(m, PeerStateKind::Dead);
    let x = peers_in_state(m, PeerStateKind::NotNeeded);
    lemma_in_state_finite(m, PeerStateKind::Queued);
    lemma_in_state_finite(m, PeerStateKind::Connecting);
    lemma_in_state_finite(m, PeerStateKind::Live);
    lemma_in_state_finite(m, PeerStateKind::Dead);
    lemma_in_state_finite(m, PeerStateKind::NotNeeded);
    assert(c.spec_counter(PeerStateKind::Queued) == q.len());
    assert(c.spec_counter(PeerStateKind::Connecting) == n.len());
    assert(c.spec_counter(PeerStateKind::Live) == l.len());
    assert(c.spec_counter(PeerStateKind::Dead) == d.len());
    assert(c.spec_counter(PeerStateKind::NotNeeded) == x.len());
    lemma_set_disjoint_lens(q, n);
    vstd::set_lib::lemma_set_union_finite_iff(q, n);
    lemma_set_disjoint_lens(q + n, l);
    vstd::set_lib::lemma_set_union_finite_iff(q + n, l);
    lemma_set_disjoint_lens(q + n + l, d);
    vstd::set_lib::lemma_set_union_finite_iff(q + n + l, d);
    lemma_set_disjoint_lens(q + n + l + d, x);
    assert(q + n + l + d + x =~= m.dom()) by {
        assert forall|a: PeerHandle| m.dom().contains(a) implies (q + n + l + d + x).contains(
            a,
        ) by {
            match m[a].state.kind() {
                PeerStateKind::Queued => assert(q.contains(a)),
                PeerStateKind::Connecting => assert(n.contains(a)),
                PeerStateKind::Live => assert(l.contains(a)),
                PeerStateKind::Dead => assert(d.contains(a)),
                PeerStateKind::NotNeeded => assert(x.contains(a)),
            }
        }
    }
}

/// Whether the registry `after` can follow the registry `before`: every peer of both
/// is in the state it was in or in a state that it may go to from there, and every
/// new peer is queued.
pub open spec fn legal_step(
    before: Map<PeerHandle, PeerView>,
    after: Map<PeerHandle, PeerView>,
) -> bool {
    forall|a: PeerHandle| #[trigger]
        after.contains_key(a) ==> if before.contains_key(a) {
            before[a].state.kind() == after[a].state.kind() || before[a].state.kind().may_become(
                after[a].state.kind(),
            )
        } else {
            after[a].state.kind() == PeerStateKind::Queued
        }
}

/// Whether `bits` has a bit at `i` and it is set.
pub open spec fn has_bit(bits: Seq<bool>, i: int) -> bool {
    0 <= i < bits.len() && bits[i]
}

/// The elements of a set of numbers, each once, in no particular order.
pub fn set_to_vec(s: &HashSet<u64>) -> (r: Vec<u64>)
    ensures
        r@.no_duplicates(),
        r@.to_set() == s@,
{
    broadcast use vstd::std_specs::hash::group_hash_axioms;

    let mut out: Vec<u64> = Vec::new();
    for k in it: s.iter()
        invariant
            out@.len() == it.index(),
            forall|i: int| 0 <= i < out@.len() ==> out@[i] == *it.seq()[i],
            it.seq().unref().to_set() == s@,
            it.seq().no_duplicates(),
            out@ =~= it.seq().unref().take(it.index() as int),
    {
        out.push(*k);
    }
    out
}

/// A snapshot of the counters of the states.
#[derive(Debug, Clone, Copy, PartialEq, Eq)]
pub struct AggregatePeerStats {
    pub queued: usize,
    pub connecting: usize,
    pub live: usize,
    pub seen: usize,
    pub dead: usize,
    pub not_needed: usize,
}

impl AggregatePeerStats {
    /// The snapshot of given counters.
    pub open spec fn of(s: AggregatePeerStatsAtomic) -> AggregatePeerStats {
        AggregatePeerStats {
            queued: s.queued as usize,
            connecting: s.connecting as usize,
            live: s.live as usize,
            seen: s.seen as usize,
            dead: s.dead as usize,
            not_needed: s.not_needed as usize,
        }
    }

    /// The snapshot of given counters.
    pub fn from(s: &AggregatePeerStatsAtomic) -> (r: AggregatePeerStats)
        ensures
            r == AggregatePeerStats::of(*s),
    {
        AggregatePeerStats {
            queued: s.queued as usize,
            connecting: s.connecting as usize,
            live: s.live as usize,
            seen: s.seen as usize,
            dead: s.dead as usize,
            not_needed: s.not_needed as usize,
        }
    }
}

/// The registry of the known peers.
pub struct PeerStates {
    stats: AggregatePeerStatsAtomic,
    states: PeerMap,
}

/// The registry as a mathematical value: the record of each known peer and the
/// counters of the states.
pub struct PeerStatesView {
    pub records: Map<PeerHandle, PeerView>,
    pub counters: AggregatePeerStatsAtomic,
}

impl View for PeerStates {
    type V = PeerStatesView;

    open spec fn view(&self) -> PeerStatesView {
        PeerStatesView {
            records: Map::new(
                |a: PeerHandle| self.peers().contains_key(a),
                |a: PeerHandle| self.peers()[a]@,
            ),
            counters: self.counters(),
        }
    }
}

/// `v` with its live part replaced by `live`.
pub open spec fn with_live_view(v: PeerView, live: LivePeerView) -> PeerView {
    PeerView { state: PeerStateView::Live(live), ..v }
}

/// `v` in another state.
pub open spec fn with_state(v: PeerView, state: PeerStateView) -> PeerView {
    PeerView { state, ..v }
}

/// The registry `m` with the backoff of `addr` replaced by `backoff`, if `addr` is
/// known; `m` itself otherwise.
pub open spec fn with_backoff(
    m: Map<PeerHandle, PeerView>,
    addr: PeerHandle,
    backoff: PeerBackoff,
) -> Map<PeerHandle, PeerView> {
    if m.contains_key(addr) {
        m.insert(addr, PeerView { backoff, ..m[addr] })
    } else {
        m
    }
}

impl PeerStates {
    /// The records of the peers.
    pub closed spec fn peers(&self) -> Map<PeerHandle, Peer> {
        peer_map_entries(self.states)
    }

    /// The counters of the states.
    pub closed spec fn counters(&self) -> AggregatePeerStatsAtomic {
        self.stats
    }

    /// The registry is finite and the counters agree with it.
    pub open spec fn wf(&self) -> bool {
        counters_agree(self@.records, self.counters())
    }

    /// Whether `addr` is known and live.
    pub open spec fn is_live(&self, addr: PeerHandle) -> bool {
        self@.records.contains_key(addr) && self@.records[addr].state is Live
    }

    /// The live part of a live peer.
    pub open spec fn live(&self, addr: PeerHandle) -> LivePeerView {
        self@.records[addr].state->Live_0
    }

    /// The state that `addr` is in.
    pub open spec fn kind_of(&self, addr: PeerHandle) -> PeerStateKind {
        self@.records[addr].state.kind()
    }

    /// Whether `other` is this registry but for the record of `addr`, which is `v`.
    pub open spec fn changed_at(&self, other: &PeerStates, addr: PeerHandle, v: PeerView) -> bool {
        &&& other@.records == self@.records.insert(addr, v)
        &&& other.counters() == self.counters().after_incdec(
            self@.records[addr].state.kind(),
            v.state.kind(),
        )
    }

    proof fn lemma_view_insert(before: &PeerStates, after: &PeerStates, addr: PeerHandle, p: Peer)
        requires
            after.peers() == before.peers().insert(addr, p),
        ensures
            after@.records == before@.records.insert(addr, p@),
    {
        assert(after@.records =~= before@.records.insert(addr, p@));
    }

    proof fn lemma_view_remove(before: &PeerStates, after: &PeerStates, addr: PeerHandle)
        requires
            after.peers() == before.peers().remove(addr),
        ensures
            after@.records == before@.records.remove(addr),
    {
        assert(after@.records =~= before@.records.remove(addr));
    }

    /// A registry without peers.
    pub fn new() -> (r: PeerStates)
        ensures
            r.wf(),
            r@.records == Map::<PeerHandle, PeerView>::empty(),
            r.counters() == AggregatePeerStatsAtomic::zero(),
    {
        let r = PeerStates { stats: AggregatePeerStatsAtomic::new(), states: peer_map_new() };
        proof {
            assert(r@.records =~= Map::<PeerHandle, PeerView>::empty());
            assert forall|kind: PeerStateKind| #[trigger]
                r.counters().spec_counter(kind) as int == peers_in_state(r@.records, kind).len()
                    % 0x1_0000_0000 by {
                assert(peers_in_state(r@.records, kind) =~= Set::<PeerHandle>::empty());
            }
        }
        r
    }

    /// A snapshot of the counters.
    pub fn stats(&self) -> (r: AggregatePeerStats)
        ensures
            r == AggregatePeerStats::of(self.counters()),
    {
        AggregatePeerStats::from(&self.stats)
    }

    /// The addresses of the known peers, each once, in no particular order.
    pub fn peer_handles(&self) -> (r: Vec<PeerHandle>)
        ensures
            r@.no_duplicates(),
            r@.to_set() == self@.records.dom(),
    {
        let r = peer_map_keys(&self.states);
        assert(self@.records.dom() =~= self.peers().dom());
        r
    }

    /// Whether `addr` is known.
    pub fn contains(&self, addr: PeerHandle) -> (r: bool)
        ensures
            r == self@.records.contains_key(addr),
    {
        peer_map_get(&self.states, addr).is_some()
    }

    /// Makes `addr` known, as a `Queued` peer with counters at zero and a backoff
    /// where it starts, unless it is known already. Returns the handle of the new
    /// peer, or `None` if nothing changed. A new peer counts as queued and as seen.
    pub fn add_if_not_seen(&mut self, addr: PeerHandle) -> (r: Option<PeerHandle>)
        requires
            old(self).wf(),
        ensures
            final(self).wf(),
            r == (if old(self)@.records.contains_key(addr) {
                None
            } else {
                Some(addr)
            }),
            r is None ==> final(self)@ == old(self)@,
            r is Some ==> final(self)@.records == old(self)@.records.insert(
                addr,
                final(self)@.records[addr],
            ),
            r is Some ==> final(self)@.records[addr].is_new(),
            r is Some ==> final(self).counters() == (AggregatePeerStatsAtomic {
                queued: wrapping_add(old(self).counters().queued, 1),
                seen: wrapping_add(old(self).counters().seen, 1),
                ..old(self).counters()
            }),
    {
        if self.contains(addr) {
            return None;
        }
        let peer = Peer::default();
        let ghost before = *self;
        peer_map_insert(&mut self.states, addr, peer);
        atomic_inc(&mut self.stats.queued);
        atomic_inc(&mut self.stats.seen);
        proof {
            Self::lemma_view_insert(&before, self, addr, peer);
            lemma_agree_insert(before@.records, before.counters(), addr, peer@);
            let counted = before.counters().after_inc(PeerStateKind::Queued);
            assert forall|kind: PeerStateKind| #[trigger]
                self.counters().spec_counter(kind) as int == peers_in_state(self@.records, kind).len()
                    % 0x1_0000_0000 by {
                assert(counted.spec_counter(kind) as int == peers_in_state(self@.records, kind).len()
                    % 0x1_0000_0000);
            }
        }
        Some(addr)
    }

    /// Runs `f` on the record of `addr`. `None` if `addr` is not known.
    pub fn with_peer<R, F: FnOnce(&Peer) -> R>(&self, addr: PeerHandle, f: F) -> (r: Option<R>)
        requires
            self.peers().contains_key(addr) ==> f.requires((&self.peers()[addr],)),
        ensures
            match r {
                Some(x) => self.peers().contains_key(addr) && f.ensures(
                    (&self.peers()[addr],),
                    x,
                ),
                None => !self.peers().contains_key(addr),
            },
    {
        match peer_map_get(&self.states, addr) {
            Some(g) => Some(f(guard_value(&g))),
            None => None,
        }
    }

    /// Runs `f` on the live part of `addr`. `None` if `addr` is not known or not
    /// live.
    pub fn with_live<R, F: FnOnce(&LivePeerState) -> R>(&self, addr: PeerHandle, f: F) -> (r:
        Option<R>)
        requires
            self.peers().contains_key(addr) ==> (self.peers()[addr].state.0 matches PeerState::Live(
                l,
            ) ==> f.requires((&l,))),
        ensures
            match r {
                Some(x) => self.peers().contains_key(addr) && (
                self.peers()[addr].state.0 matches PeerState::Live(l) && f.ensures((&l,), x)),
                None => !self.is_live(addr),
            },
    {
        match peer_map_get(&self.states, addr) {
            Some(g) => match guard_value(&g).state.get_live() {
                Some(l) => Some(f(l)),
                None => None,
            },
            None => None,
        }
    }

    /// Runs `f` on the record of `addr` and puts what `f` gives back in its place.
    /// `None`, and nothing changes, if `addr` is not known. `f` must leave the peer
    /// in the state it is in: a change of state goes with the counters, through
    /// [`Self::set_peer_state`]. The reason says what the record is held for.
    pub fn with_peer_mut<R, F: FnOnce(Peer) -> (Peer, R)>(
        &mut self,
        addr: PeerHandle,
        reason: &'static str,
        f: F,
    ) -> (r: Option<R>)
        requires
            old(self).wf(),
            old(self).peers().contains_key(addr) ==> f.requires((old(self).peers()[addr],)),
            forall|p: Peer, out: (Peer, R)| #[trigger]
                f.ensures((p,), out) ==> out.0@.state.kind() == p@.state.kind(),
        ensures
            final(self).wf(),
            final(self).counters() == old(self).counters(),
            r is Some <==> old(self).peers().contains_key(addr),
            r matches Some(x) ==> f.ensures(
                (old(self).peers()[addr],),
                (final(self).peers()[addr], x),
            ) && final(self).peers() == old(self).peers().insert(addr, final(self).peers()[addr]),
            r is None ==> final(self).peers() == old(self).peers(),
    {
        let ghost before = *self;
        match self.take(addr) {
            Some(p) => {
                let ghost mid = *self;
                let held = TimedExistence::new(p, reason);
                let (changed, x) = f(held.into_inner());
                self.put(addr, changed);
                proof {
                    Self::lemma_replaced(&before, &mid, self, addr, changed);
                    assert(self.peers() =~= before.peers().insert(addr, changed));
                }
                Some(x)
            },
            None => None,
        }
    }

    /// Runs `f` on the live part of `addr` and puts what `f` gives back in its
    /// place. `None`, and nothing changes, if `addr` is not known or not live. The
    /// reason says what the record is held for.
    pub fn with_live_mut<R, F: FnOnce(LivePeerState) -> (LivePeerState, R)>(
        &mut self,
        addr: PeerHandle,
        reason: &'static str,
        f: F,
    ) -> (r: Option<R>)
        requires
            old(self).wf(),
            old(self).peers().contains_key(addr) ==> (
            old(self).peers()[addr].state.0 matches PeerState::Live(l) ==> f.requires((l,))),
        ensures
            final(self).wf(),
            final(self).counters() == old(self).counters(),
            r is Some <==> old(self).is_live(addr),
            r matches Some(x) ==> {
                &&& final(self).peers()[addr].state.0 matches PeerState::Live(new_live)
                &&& f.ensures((old(self).peers()[addr].state.0->Live_0,), (new_live, x))
                &&& final(self).peers()[addr].stats == old(self).peers()[addr].stats
                &&& final(self).peers() == old(self).peers().insert(
                    addr,
                    final(self).peers()[addr],
                )
            },
            r is None ==> final(self)@.records == old(self)@.records,
    {
        let ghost before = *self;
        match self.take(addr) {
            Some(p) => {
                let ghost mid = *self;
                let held = TimedExistence::new(p, reason);
                let Peer { state, stats } = held.into_inner();
                match state.0 {
                    PeerState::Live(l) => {
                        let (new_live, x) = f(l);
                        let changed = Peer { state: PeerStateNoMut(PeerState::Live(new_live)), stats };
                        self.put(addr, changed);
                        proof {
                            Self::lemma_replaced(&before, &mid, self, addr, changed);
                            assert(self.peers() =~= before.peers().insert(addr, changed));
                        }
                        Some(x)
                    },
                    other => {
                        let changed = Peer { state: PeerStateNoMut(other), stats };
                        self.put(addr, changed);
                        proof {
                            Self::lemma_replaced(&before, &mid, self, addr, changed);
                            assert(self@.records =~= before@.records);
                        }
                        None
                    },
                }
            },
            None => None,
        }
    }

    /// Takes the record of `addr` out of the map, for a change that `put` ends.
    fn take(&mut self, addr: PeerHandle) -> (r: Option<Peer>)
        ensures
            final(self).counters() == old(self).counters(),
            r == (if old(self).peers().contains_key(addr) {
                Some(old(self).peers()[addr])
            } else {
                None
            }),
            r is None ==> final(self).peers() == old(self).peers(),
            r is Some ==> final(self).peers() == old(self).peers().remove(addr),
    {
        let r = peer_map_remove(&mut self.states, addr);
        proof {
            if r is None {
                assert(self.peers() =~= old(self).peers());
            }
        }
        r
    }

    /// Puts a record back that `take` took out.
    fn put(&mut self, addr: PeerHandle, peer: Peer)
        ensures
            final(self).counters() == old(self).counters(),
            final(self).peers() == old(self).peers().insert(addr, peer),
    {
        peer_map_insert(&mut self.states, addr, peer);
    }

    proof fn lemma_replaced(
        before: &PeerStates,
        mid: &PeerStates,
        after: &PeerStates,
        addr: PeerHandle,
        p: Peer,
    )
        requires
            before.wf(),
            before.peers().contains_key(addr),
            mid.peers() == before.peers().remove(addr),
            after.peers() == mid.peers().insert(addr, p),
            after.counters() == before.counters().after_incdec(
                before@.records[addr].state.kind(),
                p@.state.kind(),
            ) || (after.counters() == before.counters() && before@.records[addr].state.kind()
                == p@.state.kind()),
        ensures
            after.wf(),
            after@.records == before@.records.insert(addr, p@),
    {
        assert(after.peers() =~= before.peers().insert(addr, p));
        Self::lemma_view_insert(before, after, addr, p);
        lemma_agree_replace(before@.records, before.counters(), addr, p@);
    }

    /// Forgets `addr`. Returns its record, or `None` if it was not known. The
    /// counter of the state it was in goes down.
    pub fn drop_peer(&mut self, handle: PeerHandle) -> (r: Option<Peer>)
        requires
            old(self).wf(),
        ensures
            final(self).wf(),
            r is Some <==> old(self)@.records.contains_key(handle),
            r matches Some(p) ==> p@ == old(self)@.records[handle],
            final(self)@.records == old(self)@.records.remove(handle),
            final(self).counters() == (if old(self)@.records.contains_key(handle) {
                old(self).counters().after_dec(old(self).kind_of(handle))
            } else {
                old(self).counters()
            }),
    {
        let ghost before = *self;
        match self.take(handle) {
            Some(p) => {
                self.stats.dec(p.state.get());
                proof {
                    Self::lemma_view_remove(&before, self, handle);
                    lemma_agree_remove(before@.records, before.counters(), handle);
                }
                Some(p)
            },
            None => {
                assert(self@.records.remove(handle) =~= self@.records);
                None
            },
        }
    }

    /// Records whether a live peer is interested in our pieces. Returns what was
    /// recorded before, or `None` (and nothing changes) if the peer is not live.
    pub fn mark_peer_interested(&mut self, handle: PeerHandle, is_interested: bool) -> (r: Option<
        bool,
    >)
        requires
            old(self).wf(),
        ensures
            final(self).wf(),
            final(self).counters() == old(self).counters(),
            r == (if old(self).is_live(handle) {
                Some(old(self).live(handle).peer_interested)
            } else {
                None
            }),
            final(self)@.records == (if old(self).is_live(handle) {
                old(self)@.records.insert(
                    handle,
                    with_live_view(
                        old(self)@.records[handle],
                        LivePeerView { peer_interested: is_interested, ..old(self).live(handle) },
                    ),
                )
            } else {
                old(self)@.records
            }),
    {
        let ghost before = *self;
        match self.take(handle) {
            Some(mut p) => {
                let ghost mid = *self;
                let r = match &mut p.state.0 {
                    PeerState::Live(live) => {
                        let prev = live.peer_interested;
                        live.peer_interested = is_interested;
                        Some(prev)
                    },
                    _ => None,
                };
                self.put(handle, p);
                proof {
                    Self::lemma_replaced(&before, &mid, self, handle, p);
                    if r is None {
                        assert(self@.records =~= before@.records);
                    }
                }
                r
            },
            None => None,
        }
    }

    /// Replaces the bitfield of a live peer by the bits of `bitfield`. `None` (and
    /// nothing changes) if the peer is not live.
    pub fn update_bitfield_from_vec(&mut self, handle: PeerHandle, bitfield: Vec<u8>) -> (r:
        Option<()>)
        requires
            old(self).wf(),
        ensures
            final(self).wf(),
            final(self).counters() == old(self).counters(),
            r is Some <==> old(self).is_live(handle),
            final(self)@.records == (if old(self).is_live(handle) {
                old(self)@.records.insert(
                    handle,
                    with_live_view(
                        old(self)@.records[handle],
                        LivePeerView { bitfield: bits_of(bitfield@), ..old(self).live(handle) },
                    ),
                )
            } else {
                old(self)@.records
            }),
    {
        let ghost before = *self;
        match self.take(handle) {
            Some(mut p) => {
                let ghost mid = *self;
                let r = match &mut p.state.0 {
                    PeerState::Live(live) => {
                        live.bitfield = BF::from_vec(bitfield);
                        Some(())
                    },
                    _ => None,
                };
                self.put(handle, p);
                proof {
                    Self::lemma_replaced(&before, &mid, self, handle, p);
                    if r is None {
                        assert(self@.records =~= before@.records);
                    }
                }
                r
            },
            None => None,
        }
    }

    /// Sets one bit of the bitfield of a live peer. Nothing changes if the peer is
    /// not live or its bitfield has no such bit.
    pub fn set_peer_has_piece(&mut self, handle: PeerHandle, index: u32) -> (r: Option<bool>)
        requires
            old(self).wf(),
        ensures
            final(self).wf(),
            final(self).counters() == old(self).counters(),
            r == (if old(self).is_live(handle) {
                Some(index < old(self).live(handle).bitfield.len())
            } else {
                None
            }),
            final(self)@.records == (if r == Some(true) {
                old(self)@.records.insert(
                    handle,
                    with_live_view(
                        old(self)@.records[handle],
                        LivePeerView {
                            bitfield: old(self).live(handle).bitfield.update(index as int, true),
                            ..old(self).live(handle)
                        },
                    ),
                )
            } else {
                old(self)@.records
            }),
    {
        let ghost before = *self;
        match self.take(handle) {
            Some(mut p) => {
                let ghost mid = *self;
                let r = match &mut p.state.0 {
                    PeerState::Live(live) => Some(live.bitfield.set(index as usize, true)),
                    _ => None,
                };
                self.put(handle, p);
                proof {
                    Self::lemma_replaced(&before, &mid, self, handle, p);
                    if r != Some(true) {
                        assert(self@.records =~= before@.records);
                    }
                }
                r
            },
            None => None,
        }
    }

    /// Records that a chunk was asked of a live peer. Returns whether the request is
    /// new, or `None` (and nothing changes) if the peer is not live.
    pub fn add_inflight_request(&mut self, handle: PeerHandle, request: InflightRequest) -> (r:
        Option<bool>)
        requires
            old(self).wf(),
        ensures
            final(self).wf(),
            final(self).counters() == old(self).counters(),
            r == (if old(self).is_live(handle) {
                Some(!old(self).live(handle).inflight_requests.contains(request.spec_key()))
            } else {
                None
            }),
            final(self)@.records == (if old(self).is_live(handle) {
                old(self)@.records.insert(
                    handle,
                    with_live_view(
                        old(self)@.records[handle],
                        LivePeerView {
                            inflight_requests: old(self).live(handle).inflight_requests.insert(
                                request.spec_key(),
                            ),
                            ..old(self).live(handle)
                        },
                    ),
                )
            } else {
                old(self)@.records
            }),
    {
        broadcast use vstd::std_specs::hash::group_hash_axioms;

        let ghost before = *self;
        match self.take(handle) {
            Some(mut p) => {
                let ghost mid = *self;
                let r = match &mut p.state.0 {
                    PeerState::Live(live) => Some(live.inflight_requests.insert(request.key())),
                    _ => None,
                };
                self.put(handle, p);
                proof {
                    Self::lemma_replaced(&before, &mid, self, handle, p);
                    if r is None {
                        assert(self@.records =~= before@.records);
                    }
                }
                r
            },
            None => None,
        }
    }

    /// Records that a chunk asked of a live peer is no longer awaited. Returns
    /// whether it was awaited, or `None` (and nothing changes) if the peer is not
    /// live.
    pub fn remove_inflight_request(&mut self, handle: PeerHandle, request: InflightRequest) -> (r:
        Option<bool>)
        requires
            old(self).wf(),
        ensures
            final(self).wf(),
            final(self).counters() == old(self).counters(),
            r == (if old(self).is_live(handle) {
                Some(old(self).live(handle).inflight_requests.contains(request.spec_key()))
            } else {
                None
            }),
            final(self)@.records == (if old(self).is_live(handle) {
                old(self)@.records.insert(
                    handle,
                    with_live_view(
                        old(self)@.records[handle],
                        LivePeerView {
                            inflight_requests: old(self).live(handle).inflight_requests.remove(
                                request.spec_key(),
                            ),
                            ..old(self).live(handle)
                        },
                    ),
                )
            } else {
                old(self)@.records
            }),
    {
        broadcast use vstd::std_specs::hash::group_hash_axioms;

        let ghost before = *self;
        match self.take(handle) {
            Some(mut p) => {
                let ghost mid = *self;
                let r = match &mut p.state.0 {
                    PeerState::Live(live) => {
                        let key = request.key();
                        Some(live.inflight_requests.remove(&key))
                    },
                    _ => None,
                };
                self.put(handle, p);
                proof {
                    Self::lemma_replaced(&before, &mid, self, handle, p);
                    if r is None {
                        assert(self@.records =~= before@.records);
                    }
                }
                r
            },
            None => None,
        }
    }

    /// Replaces the counters of a known peer. Returns whether the peer is known.
    pub fn set_peer_counters(&mut self, handle: PeerHandle, counters: PeerCounters) -> (r: bool)
        requires
            old(self).wf(),
        ensures
            final(self).wf(),
            final(self).counters() == old(self).counters(),
            r == old(self)@.records.contains_key(handle),
            final(self)@.records == (if r {
                old(self)@.records.insert(handle, PeerView { counters, ..old(self)@.records[handle] })
            } else {
                old(self)@.records
            }),
    {
        let ghost before = *self;
        match self.take(handle) {
            Some(mut p) => {
                let ghost mid = *self;
                p.stats.counters = counters;
                self.put(handle, p);
                proof {
                    Self::lemma_replaced(&before, &mid, self, handle, p);
                }
                true
            },
            None => false,
        }
    }

    /// The counters of a known peer.
    pub fn peer_counters(&self, handle: PeerHandle) -> (r: Option<PeerCounters>)
        ensures
            r == (if self@.records.contains_key(handle) {
                Some(self@.records[handle].counters)
            } else {
                None
            }),
    {
        match peer_map_get(&self.states, handle) {
            Some(g) => Some(guard_value(&g).stats.counters),
            None => None,
        }
    }

    /// What a snapshot shows of a known peer, if the filter lets the peer through.
    pub fn peer_stats(&self, handle: PeerHandle, filter: &PeerStatsFilterState) -> (r: Option<
        PeerStats,
    >)
        ensures
            r is Some <==> self@.records.contains_key(handle) && filter.spec_matches(self.kind_of(handle)),
            r matches Some(s) ==> s.shows(self@.records[handle]),
    {
        match peer_map_get(&self.states, handle) {
            Some(g) => {
                let peer = guard_value(&g);
                if filter.matches(peer.state.get()) {
                    Some(PeerStats::from(peer))
                } else {
                    None
                }
            },
            None => None,
        }
    }

    /// Whether a live peer says it has piece `index`. `None` if the peer is not
    /// live.
    pub fn live_has_piece(&self, handle: PeerHandle, index: u32) -> (r: Option<bool>)
        ensures
            r == (if self.is_live(handle) {
                Some(has_bit(self.live(handle).bitfield, index as int))
            } else {
                None
            }),
    {
        match peer_map_get(&self.states, handle) {
            Some(g) => match guard_value(&g).state.get_live() {
                Some(live) => Some(live.bitfield.is_set(index as usize)),
                None => None,
            },
            None => None,
        }
    }

    /// Whether a live peer is interested in our pieces. `None` if the peer is not
    /// live.
    pub fn live_is_interested(&self, handle: PeerHandle) -> (r: Option<bool>)
        ensures
            r == (if self.is_live(handle) {
                Some(self.live(handle).peer_interested)
            } else {
                None
            }),
    {
        match peer_map_get(&self.states, handle) {
            Some(g) => match guard_value(&g).state.get_live() {
                Some(live) => Some(live.peer_interested),
                None => None,
            },
            None => None,
        }
    }

    /// Whether a live peer says it has each of the first `total_pieces` pieces.
    /// `None` if the peer is not live.
    pub fn live_has_full_torrent(&self, handle: PeerHandle, total_pieces: usize) -> (r: Option<
        bool,
    >)
        ensures
            r == (if self.is_live(handle) {
                Some(all_set(self.live(handle).bitfield, total_pieces as int))
            } else {
                None
            }),
    {
        match peer_map_get(&self.states, handle) {
            Some(g) => match guard_value(&g).state.get_live() {
                Some(live) => Some(live.has_full_torrent(total_pieces)),
                None => None,
            },
            None => None,
        }
    }

    /// The first of `candidates` that a live peer says it has. `None` if the peer is
    /// not live; `Some(None)` if it has none of them.
    pub fn first_piece_of(&self, handle: PeerHandle, candidates: &Vec<usize>) -> (r: Option<
        Option<usize>,
    >)
        ensures
            r is Some <==> self.is_live(handle),
            r matches Some(found) ==> match found {
                Some(p) => exists|i: int|
                    0 <= i < candidates@.len() && candidates@[i] == p && has_bit(
                        self.live(handle).bitfield,
                        p as int,
                    ) && forall|j: int|
                        0 <= j < i ==> !has_bit(
                            self.live(handle).bitfield,
                            #[trigger] candidates@[j] as int,
                        ),
                None => forall|j: int|
                    0 <= j < candidates@.len() ==> !has_bit(
                        self.live(handle).bitfield,
                        #[trigger] candidates@[j] as int,
                    ),
            },
    {
        match peer_map_get(&self.states, handle) {
            Some(g) => match guard_value(&g).state.get_live() {
                Some(live) => {
                    let mut i: usize = 0;
                    while i < candidates.len()
                        invariant
                            i <= candidates@.len(),
                            self.is_live(handle),
                            live@ == self.live(handle),
                            forall|j: int|
                                0 <= j < i ==> !has_bit(
                                    live@.bitfield,
                                    #[trigger] candidates@[j] as int,
                                ),
                        decreases candidates@.len() - i,
                    {
                        if live.bitfield.is_set(candidates[i]) {
                            return Some(Some(candidates[i]));
                        }
                        i += 1;
                    }
                    Some(None)
                },
                None => None,
            },
            None => None,
        }
    }

    /// The keys of the chunks that are asked of a live peer, each once, in no
    /// particular order. `None` if the peer is not live.
    pub fn live_inflight_requests(&self, handle: PeerHandle) -> (r: Option<Vec<u64>>)
        ensures
            r is Some <==> self.is_live(handle),
            r matches Some(keys) ==> keys@.no_duplicates() && keys@.to_set() == self.live(
                handle,
            ).inflight_requests,
    {
        match peer_map_get(&self.states, handle) {
            Some(g) => match guard_value(&g).state.get_live() {
                Some(live) => Some(set_to_vec(&live.inflight_requests)),
                None => None,
            },
            None => None,
        }
    }

    /// The state that a known peer is in.
    pub fn peer_state_kind(&self, handle: PeerHandle) -> (r: Option<PeerStateKind>)
        ensures
            r == (if self@.records.contains_key(handle) {
                Some(self.kind_of(handle))
            } else {
                None
            }),
    {
        match peer_map_get(&self.states, handle) {
            Some(g) => Some(guard_value(&g).state.get().get_kind()),
            None => None,
        }
    }

    /// Puts a known peer into state `new` and returns the state it was in, with the
    /// counters following. `None` (and nothing changes) if the peer is not known.
    pub fn set_peer_state(&mut self, handle: PeerHandle, new: PeerState) -> (r: Option<PeerState>)
        requires
            old(self).wf(),
        ensures
            final(self).wf(),
            r is Some <==> old(self)@.records.contains_key(handle),
            r matches Some(prev) ==> prev@ == old(self)@.records[handle].state && old(self).changed_at(
                final(self),
                handle,
                with_state(old(self)@.records[handle], new@),
            ),
            r is None ==> final(self)@ == old(self)@,
    {
        let ghost before = *self;
        match self.take(handle) {
            Some(mut p) => {
                let ghost mid = *self;
                let prev = p.state.set(new, &mut self.stats);
                self.put(handle, p);
                proof {
                    Self::lemma_replaced(&before, &mid, self, handle, p);
                }
                Some(prev)
            },
            None => None,
        }
    }

    /// From `Queued` to `Connecting`. Fails, and changes nothing, if the peer is
    /// not known or not `Queued`.
    pub fn mark_peer_connecting(&mut self, h: PeerHandle) -> (r: Result<(), Error>)
        requires
            old(self).wf(),
        ensures
            final(self).wf(),
            match r {
                Ok(()) => old(self)@.records.contains_key(h) && old(self).kind_of(h)
                    == PeerStateKind::Queued && old(self).changed_at(
                    final(self),
                    h,
                    with_state(old(self)@.records[h], PeerStateView::Connecting),
                ),
                Err(e) => {
                    &&& final(self)@.records == old(self)@.records
                    &&& final(self).counters() == old(self).counters()
                    &&& e == (if !old(self)@.records.contains_key(h) {
                        Error::PeerNotFound
                    } else {
                        Error::InvalidPeerState
                    })
                    &&& old(self)@.records.contains_key(h) ==> old(self).kind_of(h)
                        != PeerStateKind::Queued
                },
            },
    {
        let ghost before = *self;
        match self.take(h) {
            Some(mut p) => {
                let ghost mid = *self;
                let ok = p.state.queued_to_connecting(&mut self.stats);
                self.put(h, p);
                proof {
                    Self::lemma_replaced(&before, &mid, self, h, p);
                    if !ok {
                        assert(self@.records =~= before@.records);
                    }
                }
                if ok {
                    Ok(())
                } else {
                    Err(Error::InvalidPeerState)
                }
            },
            None => Err(Error::PeerNotFound),
        }
    }

    /// From `Connecting` to `Live`, with the peer id of the handshake. `None` if the
    /// peer is not known, `Some(false)` if it is not `Connecting`; in both cases
    /// nothing changes.
    pub fn mark_peer_live(&mut self, handle: PeerHandle, peer_id: Id20) -> (r: Option<bool>)
        requires
            old(self).wf(),
        ensures
            final(self).wf(),
            r == (if old(self)@.records.contains_key(handle) {
                Some(old(self).kind_of(handle) == PeerStateKind::Connecting)
            } else {
                None
            }),
            r == Some(true) ==> old(self).changed_at(
                final(self),
                handle,
                with_state(
                    old(self)@.records[handle],
                    PeerStateView::Live(
                        LivePeerView {
                            peer_id,
                            peer_interested: false,
                            bitfield: Seq::empty(),
                            inflight_requests: Set::empty(),
                        },
                    ),
                ),
            ),
            r != Some(true) ==> final(self)@ == old(self)@,
    {
        let ghost before = *self;
        match self.take(handle) {
            Some(mut p) => {
                let ghost mid = *self;
                let ok = p.state.connecting_to_live(peer_id, &mut self.stats);
                self.put(handle, p);
                proof {
                    if ok {
                        let c = before.counters();
                        assert(c.after_incdec(
                            PeerStateKind::Connecting,
                            PeerStateKind::Queued,
                        ).after_incdec(PeerStateKind::Queued, PeerStateKind::Live)
                            == c.after_incdec(PeerStateKind::Connecting, PeerStateKind::Live));
                    }
                    Self::lemma_replaced(&before, &mid, self, handle, p);
                    if !ok {
                        assert(self@.records =~= before@.records);
                    }
                }
                Some(ok)
            },
            None => None,
        }
    }

    /// To `NotNeeded`, from whatever state. Returns the state the peer was in, or
    /// `None` (and nothing changes) if the peer is not known.
    pub fn mark_peer_not_needed(&mut self, handle: PeerHandle) -> (r: Option<PeerState>)
        requires
            old(self).wf(),
        ensures
            final(self).wf(),
            r is Some <==> old(self)@.records.contains_key(handle),
            r matches Some(prev) ==> prev@ == old(self)@.records[handle].state && old(self).changed_at(
                final(self),
                handle,
                with_state(old(self)@.records[handle], PeerStateView::NotNeeded),
            ),
            r is None ==> final(self)@ == old(self)@,
    {
        self.set_peer_state(handle, PeerState::NotNeeded)
    }

    /// From `Dead` back to `Queued`, once the backoff has passed. Fails, and changes
    /// nothing, if the peer is not known or not `Dead`.
    pub fn mark_peer_queued_again(&mut self, handle: PeerHandle) -> (r: Result<(), Error>)
        requires
            old(self).wf(),
        ensures
            final(self).wf(),
            match r {
                Ok(()) => old(self)@.records.contains_key(handle) && old(self).kind_of(handle)
                    == PeerStateKind::Dead && old(self).changed_at(
                    final(self),
                    handle,
                    with_state(old(self)@.records[handle], PeerStateView::Queued),
                ),
                Err(e) => {
                    &&& final(self)@.records == old(self)@.records
                    &&& final(self).counters() == old(self).counters()
                    &&& e == (if !old(self)@.records.contains_key(handle) {
                        Error::PeerNotFound
                    } else {
                        Error::InvalidPeerState
                    })
                    &&& old(self)@.records.contains_key(handle) ==> old(self).kind_of(handle)
                        != PeerStateKind::Dead
                },
            },
    {
        match self.peer_state_kind(handle) {
            None => Err(Error::PeerNotFound),
            Some(PeerStateKind::Dead) => {
                self.set_peer_state(handle, PeerState::Queued);
                Ok(())
            },
            Some(_) => Err(Error::InvalidPeerState),
        }
    }

    /// Starts the backoff of a known peer over: its interval is the initial one
    /// again. Nothing else changes, and for an unknown peer nothing at all. From
    /// when the backoff counts the time until it gives up is up to the clock;
    /// nothing is claimed of that.
    pub fn reset_peer_backoff(&mut self, handle: PeerHandle)
        requires
            old(self).wf(),
        ensures
            final(self).wf(),
            final(self).counters() == old(self).counters(),
            final(self)@.records == with_backoff(
                old(self)@.records,
                handle,
                final(self)@.records[handle].backoff,
            ),
            old(self)@.records.contains_key(handle) ==> {
                &&& final(self)@.records[handle].backoff.is_fresh()
                &&& final(self)@.records[handle].backoff.parameters()
                    == old(self)@.records[handle].backoff.parameters()
            },
    {
        let ghost before = *self;
        match self.take(handle) {
            Some(mut p) => {
                let ghost mid = *self;
                reset_backoff(&mut p.stats.backoff);
                self.put(handle, p);
                proof {
                    Self::lemma_replaced(&before, &mid, self, handle, p);
                    assert(self@.records =~= with_backoff(before@.records, handle, p@.backoff));
                }
            },
            None => {
                assert(self@.records =~= before@.records);
            },
        }
    }

    /// Asks the backoff of a known peer for the delay before the next attempt.
    /// `None` if the peer is not known; `Some(None)` if the backoff has given up.
    /// Of the registry only that backoff changes, and its parameters stay.
    pub fn next_peer_backoff(&mut self, handle: PeerHandle) -> (r: Option<Option<Duration>>)
        requires
            old(self).wf(),
        ensures
            final(self).wf(),
            final(self).counters() == old(self).counters(),
            final(self)@.records == with_backoff(
                old(self)@.records,
                handle,
                final(self)@.records[handle].backoff,
            ),
            old(self)@.records.contains_key(handle) ==> final(self)@.records[handle].backoff.parameters()
                == old(self)@.records[handle].backoff.parameters(),
            r is Some <==> old(self)@.records.contains_key(handle),
    {
        let ghost before = *self;
        match self.take(handle) {
            Some(mut p) => {
                let ghost mid = *self;
                let d = next_backoff(&mut p.stats.backoff);
                self.put(handle, p);
                proof {
                    Self::lemma_replaced(&before, &mid, self, handle, p);
                    assert(self@.records =~= with_backoff(before@.records, handle, p@.backoff));
                }
                Some(d)
            },
            None => {
                assert(self@.records =~= before@.records);
                None
            },
        }
    }

    /// The counters of the five states add up to the number of known peers, as long
    /// as fewer than 2^32 peers are known.
    pub proof fn lemma_counter_agreement(&self)
        requires
            self.wf(),
            self@.records.dom().len() < 0x1_0000_0000,
        ensures
            self.counters().queued + self.counters().connecting + self.counters().live
                + self.counters().dead + self.counters().not_needed == self@.records.dom().len(),
    {
        lemma_counters_sum(self@.records, self.counters());
    }
}

} // verus!
