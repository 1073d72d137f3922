//! The map from peer addresses to peer records. It is `dashmap`'s `DashMap`; this
//! module declares the type, names what a map holds, and states of each call that
//! the engine makes what it does to that.
//!
//! The contracts hold of a map that is reached through one owner: every call that
//! changes the map takes it by `&mut`.

use vstd::prelude::*;
use dashmap::mapref::one::Ref;
use dashmap::DashMap;
use crate::peer_state::{Peer, PeerHandle};

verus! {

/// `dashmap::DashMap`, taken as it is: nothing is known of what is inside but what
/// the items below say.
#[verifier::external_type_specification]
#[verifier::external_body]
#[verifier::reject_recursive_types(K)]
#[verifier::reject_recursive_types(V)]
#[verifier::reject_recursive_types(S)]
pub struct ExDashMap<K, V, S>(DashMap<K, V, S>);

/// `dashmap::mapref::one::Ref`, the guard that `DashMap::get` returns, taken as it
/// is.
#[verifier::external_type_specification]
#[verifier::external_body]
#[verifier::reject_recursive_types(K)]
#[verifier::reject_recursive_types(V)]
#[verifier::reject_recursive_types(S)]
pub struct ExRef<'a, K, V, S>(Ref<'a, K, V, S>);

/// The map of the peers.
pub type PeerMap = DashMap<PeerHandle, Peer>;

/// The entries of a map of peers.
pub uninterp spec fn peer_map_entries(m: DashMap<PeerHandle, Peer>) -> Map<PeerHandle, Peer>;

/// The record that a guard of an entry gives access to.
pub uninterp spec fn guarded_peer(g: Ref<PeerHandle, Peer>) -> Peer;

/// Calls `DashMap::new`: a map without entries.
#[verifier::external_body]
pub(crate) fn peer_map_new() -> (m: PeerMap)
    ensures
        peer_map_entries(m) =~= Map::empty(),
{
    DashMap::new()
}

/// Calls `DashMap::insert`: afterwards `key` maps to `value` and every other entry is
/// as before. Returns the record that `key` mapped to before, if there was one.
#[verifier::external_body]
pub(crate) fn peer_map_insert(m: &mut PeerMap, key: PeerHandle, value: Peer) -> (prev: Option<Peer>)
    ensures
        peer_map_entries(*final(m)) == peer_map_entries(*old(m)).insert(key, value),
        prev == (if peer_map_entries(*old(m)).contains_key(key) {
            Some(peer_map_entries(*old(m))[key])
        } else {
            None
        }),
{
    m.insert(key, value)
}

/// Calls `DashMap::remove`: afterwards `key` has no entry and every other entry is as
/// before. Returns the record that `key` mapped to, if there was one.
#[verifier::external_body]
pub(crate) fn peer_map_remove(m: &mut PeerMap, key: PeerHandle) -> (prev: Option<Peer>)
    ensures
        peer_map_entries(*final(m)) == peer_map_entries(*old(m)).remove(key),
        prev == (if peer_map_entries(*old(m)).contains_key(key) {
            Some(peer_map_entries(*old(m))[key])
        } else {
            None
        }),
{
    m.remove(&key).map(|entry| entry.1)
}

/// Calls `DashMap::get`: a guard of the entry of `key`, if there is one.
#[verifier::external_body]
pub(crate) fn peer_map_get<'a>(m: &'a PeerMap, key: PeerHandle) -> (g: Option<
    Ref<'a, PeerHandle, Peer>,
>)
    ensures
        g is Some <==> peer_map_entries(*m).contains_key(key),
        g matches Some(guard) ==> guarded_peer(guard) == peer_map_entries(*m)[key],
{
    m.get(&key)
}

/// Calls `Ref::value`: the record behind a guard.
#[verifier::external_body]
pub(crate) fn guard_value<'a, 'b>(g: &'b Ref<'a, PeerHandle, Peer>) -> (p: &'b Peer)
    ensures
        *p == guarded_peer(*g),
{
    g.value()
}

/// Walks the map with `DashMap::iter` and collects the key of each entry: every key
/// of the map once, in no order that could be relied on.
#[verifier::external_body]
pub(crate) fn peer_map_keys(m: &PeerMap) -> (keys: Vec<PeerHandle>)
    ensures
        keys@.no_duplicates(),
        keys@.to_set() == peer_map_entries(*m).dom(),
{
    m.iter().map(|entry| *entry.key()).collect()
}

} // verus!
