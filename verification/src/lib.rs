//! The download engine of a BitTorrent client: the per-peer state machine, the
//! registry of peers with its aggregate counters, the reservation and stealing of
//! pieces, and the handling of the messages of a live peer.
//!
//! The engine is sequential: every operation takes the state it changes by `&mut`
//! and returns what has to be sent, stored or scheduled. Sockets, timers, files and
//! checksums belong to the caller, and so does the lock around the state where
//! several tasks share it.
//!
//! * [`lengths`], [`bitfield`], [`chunk_tracker`]: how a torrent splits into pieces
//!   and chunks, and which of them are there.
//! * [`protocol`], [`torrent_metainfo`]: the messages and the metadata, as plain
//!   values.
//! * [`peer_state`], [`peer_states`], [`peer_stats_snapshot`]: the record of a peer,
//!   the registry of the records with the counters of the states, and what
//!   snapshots show of them.
//! * [`torrent_state`], [`peer_handler`]: the state of the download and the session
//!   of one peer.
//! * [`peer_map`], [`retry`]: the two outside crates that the engine calls, each
//!   behind the contracts that the engine relies on.

pub mod bitfield;
pub mod chunk_tracker;
pub mod error;
pub mod lengths;
pub mod peer_handler;
pub mod peer_map;
pub mod peer_state;
pub mod peer_states;
pub mod peer_stats_snapshot;
pub mod protocol;
pub mod retry;
pub mod timed_existence;
pub mod torrent_metainfo;
pub mod torrent_state;
