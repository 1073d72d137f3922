//! The session of one peer: what each of its messages does to the state of the
//! download, which piece to ask it for next, and what becomes of it when the
//! session ends.
//!
//! Nothing here waits or sends. Every operation returns what the caller has to send,
//! store or schedule.

use vstd::prelude::*;
use std::time::Duration;
use crate::bitfield::{all_set, bits_of, BF};
use crate::chunk_tracker::{ChunkMarkingResult, ChunkTracker};
use crate::error::Error;
use crate::lengths::{ChunkInfo, ValidPieceIndex};
use crate::peer_state::{
    InflightRequest, LivePeerView, PeerCounters, PeerHandle, PeerState, PeerStateKind,
    PeerStateView, PeerView,
};
use crate::peer_states::{legal_step, with_backoff, with_live_view, with_state};
use crate::protocol::{
    bitfield_frame, serialize_bitfield_message, Handshake, Message, Piece, Request, WriterRequest,
};
use crate::torrent_state::{
    elapsed_since, inflight_piece_ids, AtomicStats, InflightPiece, TorrentState,
};

verus! {

broadcast use vstd::std_specs::hash::group_hash_axioms;

/// The number of requests that a peer may have outstanding once it unchokes us.
pub const REQUESTS_GRANTED_ON_UNCHOKE: usize = 16;

/// The number of requests that the arrival of a chunk frees.
pub const REQUESTS_GRANTED_PER_CHUNK: usize = 1;

/// The number of verified pieces below which no piece is stolen: the mean download
/// time means little before.
pub const MIN_PIECES_BEFORE_STEALING: u64 = 20;

/// How many times the mean download time a piece must be in flight to be stolen
/// before the queue is looked at.
pub const STEAL_THRESHOLD_BEFORE_QUEUE: u32 = 10;

/// How many times the mean download time a piece must be in flight to be stolen
/// when the queue has nothing for the peer.
pub const STEAL_THRESHOLD_AFTER_QUEUE: u32 = 2;

/// How long the requester waits to be unchoked before it looks again, in seconds.
pub const UNCHOKE_WAIT_SECS: u64 = 60;

/// How long the requester rests when there is no piece to ask for, in seconds.
pub const NOTHING_TO_REQUEST_WAIT_SECS: u64 = 10;

/// How long the requester waits for the peer to have a request to spare before it
/// tries again, in seconds.
pub const REQUEST_PERMIT_WAIT_SECS: u64 = 10;

/// The part of a session's state that the requester and the message handlers
/// share.
#[derive(Debug)]
pub struct PeerHandlerLocked {
    /// Whether the peer has choked us. A session starts choked.
    pub i_am_choked: bool,
    /// The pieces that this session has asked the peer for.
    pub previously_requested_pieces: BF,
}

/// The session of one peer.
#[derive(Debug)]
pub struct PeerHandler {
    pub addr: PeerHandle,
    pub locked: PeerHandlerLocked,
}

/// What the caller has to do after a message was handled.
#[derive(Debug)]
pub enum Reaction {
    /// Nothing.
    Nothing,
    /// Hand these to the peer's writer, in this order.
    Send(Vec<WriterRequest>),
    /// The peer's bitfield is in place and the peer has something for us: wake the
    /// requester.
    BitfieldReceived,
    /// The peer has unchoked us: wake the requester and let it send `permits` more
    /// requests.
    Unchoked { permits: usize },
    /// A chunk has arrived: let the requester send `permits` more requests. With
    /// `store`, write the chunk to disk.
    Chunk { permits: usize, store: Option<StoreChunk> },
}

/// A chunk to write to disk.
#[derive(Debug, Clone, Copy)]
pub struct StoreChunk {
    pub info: ChunkInfo,
    /// If the chunk completes its piece, the time in nanoseconds since the piece
    /// was reserved. The caller then checks the piece's hash and reports the
    /// outcome.
    pub completed_in: Option<u64>,
}

/// `c` after one more attempt to connect.
pub open spec fn after_attempt(c: PeerCounters) -> PeerCounters {
    PeerCounters {
        connection_attempts: vstd::wrapping::u32_specs::wrapping_add(c.connection_attempts, 1),
        ..c
    }
}

/// `c` after a connection that took `ms` milliseconds to open.
pub open spec fn after_connection(c: PeerCounters, ms: u64) -> PeerCounters {
    PeerCounters {
        connections: vstd::wrapping::u32_specs::wrapping_add(c.connections, 1),
        total_time_connecting_ms: vstd::wrapping::u64_specs::wrapping_add(
            c.total_time_connecting_ms,
            ms,
        ),
        ..c
    }
}

/// `c` after a chunk of `bytes` bytes was fetched.
pub open spec fn after_fetch(c: PeerCounters, bytes: u64) -> PeerCounters {
    PeerCounters {
        fetched_bytes: vstd::wrapping::u64_specs::wrapping_add(c.fetched_bytes, bytes),
        fetched_chunks: vstd::wrapping::u32_specs::wrapping_add(c.fetched_chunks, 1),
        ..c
    }
}

/// `c` after a piece of `bytes` bytes was verified.
pub open spec fn after_piece(c: PeerCounters, bytes: u64) -> PeerCounters {
    PeerCounters {
        downloaded_and_checked_pieces: vstd::wrapping::u32_specs::wrapping_add(
            c.downloaded_and_checked_pieces,
            1,
        ),
        downloaded_and_checked_bytes: vstd::wrapping::u64_specs::wrapping_add(
            c.downloaded_and_checked_bytes,
            bytes,
        ),
        ..c
    }
}

/// `c` after a session ended in an error.
pub open spec fn after_error(c: PeerCounters) -> PeerCounters {
    PeerCounters { errors: vstd::wrapping::u32_specs::wrapping_add(c.errors, 1), ..c }
}

/// The registry `before` with the counters of `addr` replaced by `c`, if `addr` is
/// known; `before` itself otherwise.
pub open spec fn with_counters(
    before: Map<PeerHandle, PeerView>,
    addr: PeerHandle,
    c: PeerCounters,
) -> Map<PeerHandle, PeerView> {
    if before.contains_key(addr) {
        before.insert(addr, PeerView { counters: c, ..before[addr] })
    } else {
        before
    }
}

impl TorrentState {
    /// Opens the session of a peer that was admitted: the peer goes from `Queued` to
    /// `Connecting` and one more connection attempt is counted. The caller creates
    /// the channel to the peer's writer, runs the connection and the requester
    /// side by side until one of them ends, gives its admission permit back and
    /// reports the end with [`PeerHandler::on_peer_died`].
    ///
    /// Fails, and changes nothing, if the peer is not known or not `Queued`.
    pub fn task_manage_peer(&mut self, addr: PeerHandle) -> (r: Result<PeerHandler, Error>)
        requires
            old(self).wf(),
        ensures
            final(self).wf(),
            final(self).spec_downloaded_bytes() >= old(self).spec_downloaded_bytes(),
            legal_step(old(self).peers@.records, final(self).peers@.records),
            old(self).same_download(final(self)),
            match r {
                Ok(handler) => {
                    &&& old(self).peers@.records.contains_key(addr)
                    &&& old(self).peers.kind_of(addr) == PeerStateKind::Queued
                    &&& final(self).peers@.records == old(self).peers@.records.insert(
                        addr,
                        PeerView {
                            state: PeerStateView::Connecting,
                            counters: after_attempt(old(self).peers@.records[addr].counters),
                            ..old(self).peers@.records[addr]
                        },
                    )
                    &&& final(self).peers.counters() == old(self).peers.counters().after_incdec(
                        PeerStateKind::Queued,
                        PeerStateKind::Connecting,
                    )
                    &&& handler.addr == addr
                    &&& handler.locked.i_am_choked
                    &&& handler.locked.previously_requested_pieces@.len() == 0
                },
                Err(e) => {
                    &&& old(self).same_peers(final(self))
                    &&& e == (if !old(self).peers@.records.contains_key(addr) {
                        Error::PeerNotFound
                    } else {
                        Error::InvalidPeerState
                    })
                    &&& old(self).peers@.records.contains_key(addr) ==> old(self).peers.kind_of(addr)
                        != PeerStateKind::Queued
                },
            },
    {
        match self.peers.mark_peer_connecting(addr) {
            Ok(()) => {},
            Err(e) => {
                return Err(e);
            },
        }
        let handler = PeerHandler {
            addr,
            locked: PeerHandlerLocked {
                i_am_choked: true,
                previously_requested_pieces: BF::new(),
            },
        };
        if let Some(c) = self.peers.peer_counters(addr) {
            let mut c = c;
            c.connection_attempts = c.connection_attempts.wrapping_add(1);
            self.peers.set_peer_counters(addr, c);
        }
        assert(self.peers@.records =~= old(self).peers@.records.insert(
            addr,
            PeerView {
                state: PeerStateView::Connecting,
                counters: after_attempt(old(self).peers@.records[addr].counters),
                ..old(self).peers@.records[addr]
            },
        ));
        Ok(handler)
    }
}

impl PeerHandler {
    /// The connection is open: one more connection is counted for the peer, and the
    /// time it took to open.
    pub fn on_connected(&self, state: &mut TorrentState, connection_time_ms: u64)
        requires
            old(state).wf(),
        ensures
            final(state).wf(),
            final(state).spec_downloaded_bytes() >= old(state).spec_downloaded_bytes(),
            legal_step(old(state).peers@.records, final(state).peers@.records),
            old(state).same_download(final(state)),
            final(state).peers.counters() == old(state).peers.counters(),
            final(state).peers@.records == with_counters(
                old(state).peers@.records,
                self.addr,
                after_connection(old(state).peers@.records[self.addr].counters, connection_time_ms),
            ),
    {
        if let Some(c) = state.peers.peer_counters(self.addr) {
            let mut c = c;
            c.connections = c.connections.wrapping_add(1);
            c.total_time_connecting_ms = c.total_time_connecting_ms.wrapping_add(
                connection_time_ms,
            );
            state.peers.set_peer_counters(self.addr, c);
        }
    }

    /// The bytes of verified pieces that we have.
    pub fn get_have_bytes(&self, state: &TorrentState) -> (r: u64)
        ensures
            r == state.stats.have_bytes,
    {
        state.stats.have_bytes
    }

    /// Replaces the contents of `buf` by the bitfield message that tells a peer
    /// which pieces we have, and returns the message's length.
    pub fn serialize_bitfield_message_to_buf(&self, state: &TorrentState, buf: &mut Vec<u8>) -> (r:
        Option<usize>)
        ensures
            r is Some <==> state.locked.chunks.have.bytes().len() + 5 <= u32::MAX,
            r matches Some(n) ==> n == state.locked.chunks.have.bytes().len() + 5 && final(buf)@
                == bitfield_frame(state.locked.chunks.have.bytes()),
            r is None ==> final(buf)@ == old(buf)@,
    {
        serialize_bitfield_message(state.locked.chunks.get_have_pieces().as_raw_slice(), buf)
    }

    /// The peer's handshake has arrived: a connecting peer becomes live.
    pub fn on_handshake(&self, state: &mut TorrentState, handshake: Handshake) -> (r: Result<
        (),
        Error,
    >)
        requires
            old(state).wf(),
        ensures
            final(state).wf(),
            final(state).spec_downloaded_bytes() >= old(state).spec_downloaded_bytes(),
            legal_step(old(state).peers@.records, final(state).peers@.records),
            old(state).same_download(final(state)),
            r is Ok,
            old(state).peers@.records.contains_key(self.addr) && old(state).peers.kind_of(self.addr)
                == PeerStateKind::Connecting ==> old(state).peers.changed_at(
                &final(state).peers,
                self.addr,
                with_state(
                    old(state).peers@.records[self.addr],
                    PeerStateView::Live(
                        LivePeerView {
                            peer_id: crate::protocol::Id20(handshake.peer_id),
                            peer_interested: false,
                            bitfield: Seq::empty(),
                            inflight_requests: Set::empty(),
                        },
                    ),
                ),
            ),
            !(old(state).peers@.records.contains_key(self.addr) && old(state).peers.kind_of(self.addr)
                == PeerStateKind::Connecting) ==> old(state).same_peers(final(state)),
    {
        state.set_peer_live(self.addr, handshake);
        Ok(())
    }

    /// We served `bytes` bytes to the peer.
    pub fn on_uploaded_bytes(&self, state: &mut TorrentState, bytes: u32)
        ensures
            final(state).spec_downloaded_bytes() >= old(state).spec_downloaded_bytes(),
            legal_step(old(state).peers@.records, final(state).peers@.records),
            *final(state) == (TorrentState {
                stats: AtomicStats {
                    uploaded_bytes: vstd::wrapping::u64_specs::wrapping_add(
                        old(state).stats.uploaded_bytes,
                        bytes as u64,
                    ),
                    ..old(state).stats
                },
                ..*old(state)
            }),
    {
        state.stats.uploaded_bytes = state.stats.uploaded_bytes.wrapping_add(bytes as u64);
    }

    /// The peer's extended handshake is of no concern to the download.
    pub fn on_extended_handshake(&self) -> (r: Result<(), Error>)
        ensures
            r is Ok,
    {
        Ok(())
    }

    /// The chunk that a request of the peer asks for, or why the request is
    /// refused: its piece is not one of the torrent, it names no chunk of the
    /// piece, or the piece is not verified.
    pub open spec fn requested_chunk(state: &TorrentState, request: Request) -> Result<
        ChunkInfo,
        Error,
    > {
        if !state.lengths.valid_piece(request.index as int) {
            Err(Error::InvalidPieceIndex)
        } else {
            match state.lengths.spec_chunk_info_from_received_data(
                ValidPieceIndex(request.index),
                request.begin,
                request.length,
            ) {
                None => Err(Error::InvalidChunkRequest),
                Some(info) => if state.locked.chunks.is_have(request.index as int) {
                    Ok(info)
                } else {
                    Err(Error::ChunkNotReady)
                },
            }
        }
    }

    /// The peer asks for a chunk. Returns the order to read the chunk from disk and
    /// send it, for the peer's writer.
    pub fn on_download_request(&self, state: &TorrentState, request: Request) -> (r: Result<
        WriterRequest,
        Error,
    >)
        requires
            state.wf(),
        ensures
            match Self::requested_chunk(state, request) {
                Ok(info) => r == Ok::<WriterRequest, Error>(WriterRequest::ReadChunkRequest(info)),
                Err(e) => r == Err::<WriterRequest, Error>(e),
            },
    {
        let piece_index = match state.lengths.validate_piece_index(request.index) {
            Some(p) => p,
            None => {
                return Err(Error::InvalidPieceIndex);
            },
        };
        let chunk_info = match state.lengths.chunk_info_from_received_data(
            piece_index,
            request.begin,
            request.length,
        ) {
            Some(d) => d,
            None => {
                return Err(Error::InvalidChunkRequest);
            },
        };
        proof {
            state.locked.chunks.lemma_sizes();
        }
        if !state.locked.chunks.is_chunk_ready_to_upload(&chunk_info) {
            return Err(Error::ChunkNotReady);
        }
        Ok(WriterRequest::ReadChunkRequest(chunk_info))
    }

    /// The peer says it has piece `have`: the bit is set in its bitfield. Nothing
    /// changes if the peer is not live or its bitfield has no such bit.
    pub fn on_have(&self, state: &mut TorrentState, have: u32)
        requires
            old(state).wf(),
        ensures
            final(state).wf(),
            final(state).spec_downloaded_bytes() >= old(state).spec_downloaded_bytes(),
            legal_step(old(state).peers@.records, final(state).peers@.records),
            old(state).same_download(final(state)),
            final(state).peers.counters() == old(state).peers.counters(),
            final(state).peers@.records == peers_after_have(old(state).peers@.records, self.addr, have),
    {
        state.peers.set_peer_has_piece(self.addr, have);
    }

    /// The peer has choked us.
    pub fn on_i_am_choked(&mut self)
        ensures
            final(self).locked.i_am_choked,
            final(self).addr == old(self).addr,
            final(self).locked.previously_requested_pieces == old(self).locked.previously_requested_pieces,
    {
        self.locked.i_am_choked = true;
    }

    /// The peer has unchoked us. Returns the number of requests that the requester
    /// may send now.
    pub fn on_i_am_unchoked(&mut self) -> (permits: usize)
        ensures
            permits == REQUESTS_GRANTED_ON_UNCHOKE,
            !final(self).locked.i_am_choked,
            final(self).addr == old(self).addr,
            final(self).locked.previously_requested_pieces == old(self).locked.previously_requested_pieces,
    {
        self.locked.i_am_choked = false;
        REQUESTS_GRANTED_ON_UNCHOKE
    }

    /// The peer is interested in our pieces.
    pub fn on_peer_interested(&self, state: &mut TorrentState)
        requires
            old(state).wf(),
        ensures
            final(state).wf(),
            final(state).spec_downloaded_bytes() >= old(state).spec_downloaded_bytes(),
            legal_step(old(state).peers@.records, final(state).peers@.records),
            old(state).same_download(final(state)),
            final(state).peers.counters() == old(state).peers.counters(),
            final(state).peers@.records == peers_after_interest(old(state).peers@.records, self.addr),
    {
        state.peers.mark_peer_interested(self.addr, true);
    }

    /// What the peer's bitfield is answered with when the peer has nothing for us:
    /// we unchoke it and say that we are not interested, and if the download is
    /// complete we hang up.
    pub open spec fn not_interested_reply(finished: bool) -> Seq<WriterRequest> {
        if finished {
            seq![
                WriterRequest::Message(Message::Unchoke),
                WriterRequest::Message(Message::NotInterested),
                WriterRequest::Disconnect,
            ]
        } else {
            seq![
                WriterRequest::Message(Message::Unchoke),
                WriterRequest::Message(Message::NotInterested),
            ]
        }
    }

    /// What the arrival of the peer's bitfield does. `before` and `after` are the
    /// session and the state of the download before and after it, `r` is the
    /// outcome.
    ///
    /// A bitfield of the wrong length is an error and changes nothing. Otherwise the
    /// bitfield is installed, if the peer is live, and the record of the pieces
    /// asked of the peer starts over. If the peer has a piece of the queue the
    /// requester is to be woken; if not, the peer is told so.
    pub open spec fn bitfield_handled(
        before: &PeerHandler,
        state_before: &TorrentState,
        bitfield: Seq<u8>,
        after: &PeerHandler,
        state_after: &TorrentState,
        r: Result<Reaction, Error>,
    ) -> bool {
        &&& state_before.same_download(state_after)
        &&& state_after.peers.counters() == state_before.peers.counters()
        &&& after.addr == before.addr
        &&& after.locked.i_am_choked == before.locked.i_am_choked
        &&& r is Err <==> bitfield.len() != state_before.lengths.spec_piece_bitfield_bytes()
        &&& r matches Err(e) ==> {
            &&& e == Error::UnexpectedBitfieldSize
            &&& state_before.same_peers(state_after)
            &&& after.locked.previously_requested_pieces
                == before.locked.previously_requested_pieces
        }
        &&& r matches Ok(reaction) ==> {
            &&& after.locked.previously_requested_pieces.bytes().len() == bitfield.len()
            &&& forall|i: int|
                0 <= i < 8 * bitfield.len() ==> !after.locked.previously_requested_pieces@[i]
            &&& state_after.peers@.records == peers_after_bitfield(
                state_before.peers@.records,
                before.addr,
                bitfield,
            )
            &&& {
                let interested = state_before.peers.is_live(before.addr) && exists|q: int|
                    state_before.wanted_from(bits_of(bitfield), q);
                match reaction {
                    Reaction::BitfieldReceived => interested,
                    Reaction::Send(messages) => !interested && messages@
                        == Self::not_interested_reply(state_before.spec_is_finished()),
                    _ => false,
                }
            }
        }
    }

    /// The peer's bitfield has arrived. See [`Self::bitfield_handled`].
    pub fn on_bitfield(&mut self, state: &mut TorrentState, bitfield: Vec<u8>) -> (r: Result<
        Reaction,
        Error,
    >)
        requires
            old(state).wf(),
        ensures
            final(state).wf(),
            final(state).spec_downloaded_bytes() >= old(state).spec_downloaded_bytes(),
            legal_step(old(state).peers@.records, final(state).peers@.records),
            Self::bitfield_handled(old(self), old(state), bitfield@, final(self), final(state), r),
    {
        if bitfield.len() != state.lengths.piece_bitfield_bytes() {
            return Err(Error::UnexpectedBitfieldSize);
        }
        self.locked.previously_requested_pieces = BF::zeroed(bitfield.len());
        let ghost bits = bits_of(bitfield@);
        state.peers.update_bitfield_from_vec(self.addr, bitfield);
        let interested = state.am_i_interested_in_peer(self.addr);
        proof {
            assert(state.peers.is_live(self.addr) == old(state).peers.is_live(self.addr));
            assert forall|q: int|
                state.wanted_from(bits, q) == old(state).wanted_from(bits, q) by {}
            if state.peers.is_live(self.addr) {
                assert(state.peers.live(self.addr).bitfield == bits);
                if interested {
                    let q = choose|q: int| state.wanted_from(bits, q);
                    assert(old(state).wanted_from(bits, q));
                }
            }
        }
        if !interested {
            let mut messages: Vec<WriterRequest> = Vec::new();
            messages.push(WriterRequest::Message(Message::Unchoke));
            messages.push(WriterRequest::Message(Message::NotInterested));
            if state.is_finished() {
                messages.push(WriterRequest::Disconnect);
            }
            assert(messages@ =~= Self::not_interested_reply(old(state).spec_is_finished()));
            return Ok(Reaction::Send(messages));
        }
        Ok(Reaction::BitfieldReceived)
    }

    /// What the arrival of a block of data does. `before` and `after` are the state
    /// of the download before and after it, `r` is the outcome.
    ///
    /// A block that is no chunk of the torrent is an error and changes nothing.
    /// Otherwise the chunk is counted as fetched, for the peer and for the download,
    /// and is no longer awaited from the peer. It is an error if the peer is not
    /// live or was not asked for the chunk. A chunk of a piece that is not in
    /// flight from this peer, or that was complete already, is dropped. Any other
    /// chunk is marked as arrived and is to be stored; if it completes its piece,
    /// the piece is no longer in flight and awaits the check of its hash.
    pub open spec fn piece_received(
        &self,
        before: &TorrentState,
        piece: &Piece,
        now: u64,
        after: &TorrentState,
        r: Result<Reaction, Error>,
    ) -> bool {
        match before.locked.chunks.spec_received_chunk(piece) {
            None => r == Err::<Reaction, Error>(Error::InvalidPiece) && *after == *before,
            Some(info) => {
                let p = info.piece_index@;
                let key = (InflightRequest { piece: info.piece_index, chunk: info.chunk_index }).spec_key();
                let len = piece.block@.len() as u64;
                let live = before.peers.is_live(self.addr);
                let asked = live && before.peers.live(self.addr).inflight_requests.contains(key);
                let mine = before.assigned_to(p, self.addr);
                let complete = before.locked.chunks.piece_complete(p as int);
                let dropped = Ok::<Reaction, Error>(
                    Reaction::Chunk { permits: REQUESTS_GRANTED_PER_CHUNK, store: None },
                );
                &&& after.info == before.info
                &&& after.info_hash == before.info_hash
                &&& after.peer_id == before.peer_id
                &&& after.lengths == before.lengths
                &&& after.needed_bytes == before.needed_bytes
                &&& after.have_plus_needed_bytes == before.have_plus_needed_bytes
                &&& after.options == before.options
                &&& after.stats == (AtomicStats {
                    fetched_bytes: vstd::wrapping::u64_specs::wrapping_add(
                        before.stats.fetched_bytes,
                        len,
                    ),
                    ..before.stats
                })
                &&& after.peers.counters() == before.peers.counters()
                &&& after.peers@.records == (if !before.peers@.records.contains_key(self.addr) {
                    before.peers@.records
                } else {
                    before.peers@.records.insert(
                        self.addr,
                        PeerView {
                            counters: after_fetch(before.peers@.records[self.addr].counters, len),
                            state: if live {
                                PeerStateView::Live(
                                    LivePeerView {
                                        inflight_requests: before.peers.live(
                                            self.addr,
                                        ).inflight_requests.remove(key),
                                        ..before.peers.live(self.addr)
                                    },
                                )
                            } else {
                                before.peers@.records[self.addr].state
                            },
                            backoff: before.peers@.records[self.addr].backoff,
                        },
                    )
                })
                &&& after.locked.chunks.lengths == before.locked.chunks.lengths
                &&& after.locked.chunks.have == before.locked.chunks.have
                &&& after.locked.chunks.needed_pieces == before.locked.chunks.needed_pieces
                &&& if !live {
                    r == Err::<Reaction, Error>(Error::PeerNotFound) && after.locked
                        == before.locked
                } else if !asked {
                    r == Err::<Reaction, Error>(Error::UnsolicitedPiece) && after.locked
                        == before.locked
                } else if !mine || complete {
                    r == dropped && after.locked == before.locked
                } else {
                    &&& after.locked.chunks.chunk_status@
                        == before.locked.chunks.chunk_status@.update(
                        info.absolute_index as int,
                        true,
                    )
                    &&& if after.locked.chunks.piece_complete(p as int) {
                        &&& after.inflight() == before.inflight().remove(p)
                        &&& after.unchecked() == before.unchecked().insert(
                            p,
                            elapsed_since(now, before.inflight()[p].started),
                        )
                        &&& r == Ok::<Reaction, Error>(
                            Reaction::Chunk {
                                permits: REQUESTS_GRANTED_PER_CHUNK,
                                store: Some(
                                    StoreChunk {
                                        info,
                                        completed_in: Some(
                                            elapsed_since(now, before.inflight()[p].started),
                                        ),
                                    },
                                ),
                            },
                        )
                    } else {
                        &&& after.inflight() == before.inflight()
                        &&& after.unchecked() == before.unchecked()
                        &&& r == Ok::<Reaction, Error>(
                            Reaction::Chunk {
                                permits: REQUESTS_GRANTED_PER_CHUNK,
                                store: Some(StoreChunk { info, completed_in: None }),
                            },
                        )
                    }
                }
            },
        }
    }

    /// A block of data has arrived from the peer. See [`Self::piece_received`].
    ///
    /// The caller writes the chunk to disk if the outcome says so. If the chunk
    /// completed its piece, the caller then checks the piece's hash and reports the
    /// result with [`Self::on_piece_checked`].
    pub fn on_received_piece(&self, state: &mut TorrentState, piece: &Piece, now: u64) -> (r:
        Result<Reaction, Error>)
        requires
            old(state).wf(),
        ensures
            final(state).wf(),
            final(state).spec_downloaded_bytes() >= old(state).spec_downloaded_bytes(),
            legal_step(old(state).peers@.records, final(state).peers@.records),
            self.piece_received(old(state), piece, now, final(state), r),
    {
        if piece.block.len() > u32::MAX as usize {
            return Err(Error::InvalidPiece);
        }
        let len = piece.block.len() as u32;
        let chunk_info = match state.lengths.chunk_info_from_received_piece(
            piece.index,
            piece.begin,
            len,
        ) {
            Some(i) => i,
            None => {
                return Err(Error::InvalidPiece);
            },
        };
        proof {
            state.locked.chunks.lemma_sizes();
        }
        if let Some(c) = state.peers.peer_counters(self.addr) {
            let mut c = c;
            c.fetched_bytes = c.fetched_bytes.wrapping_add(len as u64);
            c.fetched_chunks = c.fetched_chunks.wrapping_add(1);
            state.peers.set_peer_counters(self.addr, c);
        }
        state.stats.fetched_bytes = state.stats.fetched_bytes.wrapping_add(len as u64);
        let request = InflightRequest::from(&chunk_info);
        let removed = state.peers.remove_inflight_request(self.addr, request);
        proof {
            let key = request.spec_key();
            let before = old(state).peers@.records;
            if before.contains_key(self.addr) {
                let live = old(state).peers.is_live(self.addr);
                assert(state.peers@.records =~= before.insert(
                    self.addr,
                    PeerView {
                        counters: after_fetch(before[self.addr].counters, len as u64),
                        state: if live {
                            PeerStateView::Live(
                                LivePeerView {
                                    inflight_requests: old(state).peers.live(
                                        self.addr,
                                    ).inflight_requests.remove(key),
                                    ..old(state).peers.live(self.addr)
                                },
                            )
                        } else {
                            before[self.addr].state
                        },
                        backoff: before[self.addr].backoff,
                    },
                ));
            } else {
                assert(state.peers@.records =~= before);
            }
        }
        match removed {
            None => {
                return Err(Error::PeerNotFound);
            },
            Some(false) => {
                return Err(Error::UnsolicitedPiece);
            },
            Some(true) => {},
        }
        let p = chunk_info.piece_index.get();
        let started = match state.locked.inflight_pieces.get(&p) {
            Some(ip) => {
                if ip.peer.0 != self.addr.0 || ip.peer.1 != self.addr.1 {
                    return Ok(Reaction::Chunk { permits: REQUESTS_GRANTED_PER_CHUNK, store: None });
                }
                ip.started
            },
            None => {
                return Ok(Reaction::Chunk { permits: REQUESTS_GRANTED_PER_CHUNK, store: None });
            },
        };
        let ghost before = state.locked;
        let completed_in = match state.locked.chunks.mark_chunk_downloaded(piece) {
            Some(ChunkMarkingResult::Completed) => {
                let elapsed = now.saturating_sub(started);
                state.locked.inflight_pieces.remove(&p);
                state.locked.unchecked_pieces.insert(p, elapsed);
                Some(elapsed)
            },
            Some(ChunkMarkingResult::PreviouslyCompleted) => {
                return Ok(Reaction::Chunk { permits: REQUESTS_GRANTED_PER_CHUNK, store: None });
            },
            Some(ChunkMarkingResult::NotCompleted) => None,
            None => {
                return Err(Error::InvalidPiece);
            },
        };
        proof {
            assert forall|q: int| state.lengths.valid_piece(q) implies state.locked.is_pending(q)
                == before.is_pending(q) by {
                if q != p {
                    assert(state.locked.chunks.piece_complete(q) == before.chunks.piece_complete(q));
                }
            }
            before.lemma_pending_same(&state.locked);
        }
        Ok(
            Reaction::Chunk {
                permits: REQUESTS_GRANTED_PER_CHUNK,
                store: Some(StoreChunk { info: chunk_info, completed_in }),
            },
        )
    }

    /// The peers that are told to hang up when the download completes: the live
    /// peers that have the whole torrent. Each becomes `NotNeeded`; the caller sends
    /// each a disconnect. Each is named once.
    pub fn disconnect_all_peers_that_have_full_torrent(&self, state: &mut TorrentState) -> (r: Vec<
        PeerHandle,
    >)
        requires
            old(state).wf(),
        ensures
            final(state).wf(),
            final(state).spec_downloaded_bytes() >= old(state).spec_downloaded_bytes(),
            legal_step(old(state).peers@.records, final(state).peers@.records),
            old(state).same_download(final(state)),
            r@.no_duplicates(),
            forall|a: PeerHandle|
                r@.contains(a) <==> old(state).peers@.records.contains_key(a) && is_seeder(
                    old(state).peers@.records[a],
                    old(state).lengths.spec_total_pieces(),
                ),
            final(state).peers@.records == without_seeders(
                old(state).peers@.records,
                old(state).lengths.spec_total_pieces(),
            ),
            final(state).peers.counters() == old(state).peers.counters().after_moves(
                PeerStateKind::Live,
                PeerStateKind::NotNeeded,
                r@.len(),
            ),
    {
        let total = state.lengths.total_pieces() as usize;
        let handles = state.peers.peer_handles();
        let mut out: Vec<PeerHandle> = Vec::new();
        let mut i: usize = 0;
        let ghost before = old(state).peers@.records;
        let ghost n = old(state).lengths.spec_total_pieces();
        while i < handles.len()
            invariant
                i <= handles@.len(),
                handles@.no_duplicates(),
                handles@.to_set() == before.dom(),
                before == old(state).peers@.records,
                n == old(state).lengths.spec_total_pieces(),
                total == n,
                state.wf(),
                old(state).same_download(state),
                state.peers@.records.dom() == before.dom(),
                forall|a: PeerHandle|
                    before.contains_key(a) ==> #[trigger] state.peers@.records[a] == (if is_seeder(
                        before[a],
                        n,
                    ) && seen_before(handles@, i as int, a) {
                        with_state(before[a], PeerStateView::NotNeeded)
                    } else {
                        before[a]
                    }),
                out@.no_duplicates(),
                forall|k: int|
                    0 <= k < out@.len() ==> before.contains_key(#[trigger] out@[k]) && is_seeder(
                        before[out@[k]],
                        n,
                    ) && seen_before(handles@, i as int, out@[k]),
                forall|j: int|
                    0 <= j < i && is_seeder(before[#[trigger] handles@[j]], n) ==> out@.contains(
                        handles@[j],
                    ),
                state.peers.counters() == old(state).peers.counters().after_moves(
                    PeerStateKind::Live,
                    PeerStateKind::NotNeeded,
                    out@.len(),
                ),
            decreases handles@.len() - i,
        {
            let a = handles[i];
            proof {
                assert(handles@.to_set().contains(a));
                assert(!seen_before(handles@, i as int, a));
                assert(state.peers@.records[a] == before[a]);
            }
            let ghost mid = state.peers@.records;
            let ghost prev = out@;
            let full = match state.peers.live_has_full_torrent(a, total) {
                Some(f) => f,
                None => false,
            };
            if full {
                state.peers.mark_peer_not_needed(a);
                out.push(a);
                proof {
                    assert(out@[prev.len() as int] == a);
                    assert forall|k: int, l: int| 0 <= k < l < out@.len() implies out@[k]
                        != out@[l] by {
                        if l == prev.len() {
                            assert(seen_before(handles@, i as int, prev[k]));
                        }
                    }
                }
            }
            proof {
                assert forall|b: PeerHandle| seen_before(handles@, i + 1, b) <==> (seen_before(
                    handles@,
                    i as int,
                    b,
                ) || b == a) by {
                    if seen_before(handles@, i as int, b) {
                        let j = choose|j: int| 0 <= j < i && handles@[j] == b;
                        assert(0 <= j < i + 1 && handles@[j] == b);
                    }
                    if b == a {
                        assert(handles@[i as int] == b);
                    }
                }
                assert forall|b: PeerHandle| before.contains_key(b) implies #[trigger] state.peers@.records[b]
                    == (if is_seeder(before[b], n) && seen_before(handles@, i + 1, b) {
                    with_state(before[b], PeerStateView::NotNeeded)
                } else {
                    before[b]
                }) by {
                    if b != a {
                        assert(state.peers@.records[b] == mid[b]);
                    }
                }
                assert(state.peers@.records.dom() =~= before.dom());
                assert forall|j: int|
                    0 <= j < i + 1 && is_seeder(
                        before[#[trigger] handles@[j]],
                        n,
                    ) implies out@.contains(handles@[j]) by {
                    if j < i {
                        let k = choose|k: int| 0 <= k < prev.len() && prev[k] == handles@[j];
                        assert(out@[k] == handles@[j]);
                    }
                }
            }
            i += 1;
        }
        proof {
            assert forall|a: PeerHandle| before.contains_key(a) implies seen_before(
                handles@,
                handles@.len() as int,
                a,
            ) by {
                assert(handles@.to_set().contains(a));
            }
            assert(state.peers@.records =~= without_seeders(before, n));
            assert forall|a: PeerHandle| before.contains_key(a) && is_seeder(
                before[a],
                n,
            ) implies out@.contains(a) by {
                let j = choose|j: int| 0 <= j < handles@.len() && handles@[j] == a;
                assert(is_seeder(before[handles@[j]], n));
            }
        }
        out
    }

    /// What the check of a completed piece leads to. `before` and `after` are the
    /// state of the download before and after the report, `r` is the outcome.
    ///
    /// A report on a piece that awaits no check changes nothing. A piece that failed
    /// its check goes back into the queue with all its chunks missing; the peer
    /// stays. A piece that passed is marked as verified and counted: for the
    /// download, with the time it was in flight, and for the peer, whose backoff
    /// starts over. If nothing is left to download then, the peers that have the
    /// whole torrent are not needed any more. The peers that may want the piece are
    /// to be told that we have it.
    pub open spec fn piece_checked(
        &self,
        before: &TorrentState,
        piece: ValidPieceIndex,
        valid: bool,
        after: &TorrentState,
        r: PieceChecked,
    ) -> bool {
        let p = piece@ as int;
        let total = before.lengths.spec_total_pieces();
        if !before.unchecked().contains_key(piece@) {
            &&& *after == *before
            &&& !r.counted
            &&& !r.finished
            &&& r.disconnect@.len() == 0
            &&& r.haves@.len() == 0
        } else {
            &&& after.info == before.info
            &&& after.info_hash == before.info_hash
            &&& after.peer_id == before.peer_id
            &&& after.lengths == before.lengths
            &&& after.needed_bytes == before.needed_bytes
            &&& after.have_plus_needed_bytes == before.have_plus_needed_bytes
            &&& after.options == before.options
            &&& after.inflight() == before.inflight()
            &&& after.unchecked() == before.unchecked().remove(piece@)
            &&& after.locked.chunks.lengths == before.locked.chunks.lengths
            &&& if valid {
                let len = before.lengths.spec_piece_length(p) as u64;
                let download_time = before.unchecked()[piece@];
                let counted_peers = with_counters(
                    before.peers@.records,
                    self.addr,
                    after_piece(before.peers@.records[self.addr].counters, len),
                );
                let reset_peers = with_backoff(
                    counted_peers,
                    self.addr,
                    after.peers@.records[self.addr].backoff,
                );
                &&& r.counted
                &&& after.locked.chunks.needed_pieces == before.locked.chunks.needed_pieces
                &&& after.locked.chunks.chunk_status == before.locked.chunks.chunk_status
                &&& after.locked.chunks.have@ == before.locked.chunks.have@.update(p, true)
                &&& after.stats == (AtomicStats {
                    downloaded_and_checked_bytes: (before.stats.downloaded_and_checked_bytes
                        + len) as u64,
                    downloaded_and_checked_pieces: vstd::wrapping::u64_specs::wrapping_add(
                        before.stats.downloaded_and_checked_pieces,
                        1,
                    ),
                    have_bytes: vstd::wrapping::u64_specs::wrapping_add(
                        before.stats.have_bytes,
                        len,
                    ),
                    total_piece_download_ms: vstd::wrapping::u64_specs::wrapping_add(
                        before.stats.total_piece_download_ms,
                        download_time / 1_000_000,
                    ),
                    ..before.stats
                })
                &&& before.stats.downloaded_and_checked_bytes + len <= before.needed_bytes
                &&& r.finished == after.spec_is_finished()
                &&& after.peers@.records == (if r.finished {
                    without_seeders(reset_peers, total)
                } else {
                    reset_peers
                })
                &&& before.peers@.records.contains_key(self.addr) ==> {
                    &&& after.peers@.records[self.addr].backoff.is_fresh()
                    &&& after.peers@.records[self.addr].backoff.parameters()
                        == before.peers@.records[self.addr].backoff.parameters()
                }
                &&& r.disconnect@.no_duplicates()
                &&& forall|a: PeerHandle|
                    r.disconnect@.contains(a) <==> r.finished && before.peers@.records.contains_key(a)
                        && is_seeder(before.peers@.records[a], total)
                &&& after.peers.counters() == before.peers.counters().after_moves(
                    PeerStateKind::Live,
                    PeerStateKind::NotNeeded,
                    r.disconnect@.len(),
                )
                &&& r.haves@.no_duplicates()
                &&& forall|a: PeerHandle| r.haves@.contains(a) <==> after.wants_have(a, piece@)
            } else {
                &&& !r.counted
                &&& !r.finished
                &&& r.disconnect@.len() == 0
                &&& r.haves@.len() == 0
                &&& after.peers == before.peers
                &&& after.stats == before.stats
                &&& after.locked.chunks.have == before.locked.chunks.have
                &&& after.locked.chunks.needed_pieces@
                    == before.locked.chunks.needed_pieces@.update(p, true)
                &&& forall|c: int|
                    0 <= c < before.lengths.spec_chunks_per_piece(p)
                        ==> !#[trigger] after.locked.chunks.chunk_done(p, c)
                &&& forall|q: int|
                    before.lengths.valid_piece(q) && q != p
                        ==> #[trigger] after.locked.chunks.piece_complete(q)
                        == before.locked.chunks.piece_complete(q)
            }
        }
    }

    /// The hash of a completed piece was checked. See [`Self::piece_checked`].
    ///
    /// If the outcome is `finished`, the caller notifies whoever waits for the
    /// download and reopens the files read-only. It sends a disconnect to each peer
    /// of `disconnect` and a have to each of `haves`.
    pub fn on_piece_checked(&self, state: &mut TorrentState, piece: ValidPieceIndex, valid: bool) -> (r:
        PieceChecked)
        requires
            old(state).wf(),
        ensures
            final(state).wf(),
            final(state).spec_downloaded_bytes() >= old(state).spec_downloaded_bytes(),
            legal_step(old(state).peers@.records, final(state).peers@.records),
            self.piece_checked(old(state), piece, valid, final(state), r),
    {
        let index = piece.get();
        let download_time = match state.locked.unchecked_pieces.get(&index) {
            Some(t) => *t,
            None => {
                return PieceChecked {
                    counted: false,
                    finished: false,
                    disconnect: Vec::new(),
                    haves: Vec::new(),
                };
            },
        };
        state.locked.unchecked_pieces.remove(&index);
        let ghost before = old(state).locked;
        let ghost p = piece@ as int;
        proof {
            assert(before.unchecked_pieces@.contains_key(index));
            state.locked.chunks.lemma_sizes();
            state.lengths.lemma_piece(p);
        }
        if !valid {
            state.locked.chunks.mark_piece_broken(piece);
            proof {
                assert(!state.locked.chunks.chunk_done(p, 0));
                assert forall|q: int|
                    state.lengths.valid_piece(q) implies state.locked.is_pending(q)
                    == before.is_pending(q) by {}
                before.lemma_pending_same(&state.locked);
                assert forall|q: int|
                    state.lengths.valid_piece(q) && #[trigger] state.locked.chunks.have@[q]
                        implies state.locked.chunks.piece_complete(q) by {
                    assert(before.chunks.have@[q]);
                }
            }
            return PieceChecked {
                counted: false,
                finished: false,
                disconnect: Vec::new(),
                haves: Vec::new(),
            };
        }
        let counted = state.locked.chunks.mark_piece_downloaded(piece);
        proof {
            assert(counted);
            assert forall|q: int|
                state.lengths.valid_piece(q) && q != p implies state.locked.is_pending(q)
                == before.is_pending(q) by {
                state.locked.chunks.lemma_piece_complete_same(&before.chunks, q);
            }
            before.lemma_pending_differs_at(&state.locked, p);
            assert forall|q: int|
                state.lengths.valid_piece(q) && #[trigger] state.locked.chunks.have@[q]
                    implies state.locked.chunks.piece_complete(q) by {
                state.locked.chunks.lemma_piece_complete_same(&before.chunks, q);
                if q != p {
                    assert(before.chunks.have@[q]);
                }
            }
            assert forall|q: u32| #[trigger]
                state.locked.unchecked_pieces@.contains_key(q) implies {
                &&& state.lengths.valid_piece(q as int)
                &&& state.locked.chunks.piece_complete(q as int)
                &&& !state.locked.chunks.have@[q as int]
            } by {
                assert(before.unchecked_pieces@.contains_key(q));
                state.locked.chunks.lemma_piece_complete_same(&before.chunks, q as int);
            }
        }
        let len = state.lengths.piece_length(piece) as u64;
        state.stats.downloaded_and_checked_bytes = state.stats.downloaded_and_checked_bytes + len;
        state.stats.downloaded_and_checked_pieces =
            state.stats.downloaded_and_checked_pieces.wrapping_add(1);
        state.stats.have_bytes = state.stats.have_bytes.wrapping_add(len);
        state.stats.total_piece_download_ms = state.stats.total_piece_download_ms.wrapping_add(
            download_time / 1_000_000,
        );
        if let Some(c) = state.peers.peer_counters(self.addr) {
            let mut c = c;
            c.downloaded_and_checked_pieces = c.downloaded_and_checked_pieces.wrapping_add(1);
            c.downloaded_and_checked_bytes = c.downloaded_and_checked_bytes.wrapping_add(len);
            state.peers.set_peer_counters(self.addr, c);
        }
        state.peers.reset_peer_backoff(self.addr);
        let ghost reset = state.peers@.records;
        let finished = state.is_finished();
        let disconnect = if finished {
            self.disconnect_all_peers_that_have_full_torrent(state)
        } else {
            Vec::new()
        };
        let haves = state.maybe_transmit_haves(piece);
        proof {
            let total = state.lengths.spec_total_pieces();
            let peers = old(state).peers@.records;
            if peers.contains_key(self.addr) {
                assert(state.peers@.records[self.addr].backoff == reset[self.addr].backoff);
            }
            assert(reset =~= with_backoff(
                with_counters(
                    peers,
                    self.addr,
                    after_piece(
                        peers[self.addr].counters,
                        old(state).lengths.spec_piece_length(p) as u64,
                    ),
                ),
                self.addr,
                state.peers@.records[self.addr].backoff,
            ));
            assert forall|a: PeerHandle| peers.contains_key(a) implies is_seeder(peers[a], total)
                == is_seeder(#[trigger] reset[a], total) by {}
        }
        PieceChecked { counted, finished, disconnect, haves }
    }

    /// Only a passed check of a piece that awaits one counts, and it counts the
    /// piece once and with its own length.
    pub proof fn lemma_only_a_passed_check_counts(
        &self,
        before: &TorrentState,
        piece: ValidPieceIndex,
        valid: bool,
        after: &TorrentState,
        r: PieceChecked,
    )
        requires
            before.wf(),
            self.piece_checked(before, piece, valid, after, r),
        ensures
            r.counted <==> valid && before.unchecked().contains_key(piece@),
            r.counted ==> {
                &&& after.stats.downloaded_and_checked_bytes
                    == before.stats.downloaded_and_checked_bytes + before.lengths.spec_piece_length(
                    piece@ as int,
                )
                &&& after.stats.downloaded_and_checked_pieces
                    == vstd::wrapping::u64_specs::wrapping_add(
                    before.stats.downloaded_and_checked_pieces,
                    1,
                )
            },
            !r.counted ==> {
                &&& after.stats.downloaded_and_checked_bytes
                    == before.stats.downloaded_and_checked_bytes
                &&& after.stats.downloaded_and_checked_pieces
                    == before.stats.downloaded_and_checked_pieces
            },
    {
    }

    /// The chunk that completes a piece counts nothing by itself; once the check of
    /// the piece is reported as passed, the verified bytes have grown by the length
    /// of the piece and the verified pieces by one.
    pub proof fn lemma_completed_piece_is_counted(
        &self,
        before: &TorrentState,
        piece: &Piece,
        now: u64,
        received: &TorrentState,
        store: StoreChunk,
        after: &TorrentState,
        checked: PieceChecked,
    )
        requires
            before.wf(),
            received.wf(),
            store.completed_in is Some,
            self.piece_received(
                before,
                piece,
                now,
                received,
                Ok(Reaction::Chunk { permits: REQUESTS_GRANTED_PER_CHUNK, store: Some(store) }),
            ),
            self.piece_checked(received, store.info.piece_index, true, after, checked),
        ensures
            received.stats.downloaded_and_checked_bytes
                == before.stats.downloaded_and_checked_bytes,
            received.stats.downloaded_and_checked_pieces
                == before.stats.downloaded_and_checked_pieces,
            checked.counted,
            after.stats.downloaded_and_checked_bytes == before.stats.downloaded_and_checked_bytes
                + before.lengths.spec_piece_length(store.info.piece_index@ as int),
            after.stats.downloaded_and_checked_pieces == vstd::wrapping::u64_specs::wrapping_add(
                before.stats.downloaded_and_checked_pieces,
                1,
            ),
    {
        let info = before.locked.chunks.spec_received_chunk(piece)->Some_0;
        assert(store.info == info);
        assert(received.unchecked().contains_key(info.piece_index@));
    }

    /// The late chunk of a piece that another peer has taken over is dropped: it
    /// is not marked, not stored and not counted, and the piece stays with the
    /// other peer.
    pub proof fn lemma_chunk_of_a_stolen_piece_is_dropped(
        &self,
        before: &TorrentState,
        piece: &Piece,
        now: u64,
        after: &TorrentState,
        r: Result<Reaction, Error>,
        thief: PeerHandle,
    )
        requires
            self.piece_received(before, piece, now, after, r),
            thief != self.addr,
            before.locked.chunks.spec_received_chunk(piece) matches Some(info) && {
                &&& before.assigned_to(info.piece_index@, thief)
                &&& before.peers.is_live(self.addr)
                &&& before.peers.live(self.addr).inflight_requests.contains(
                    (InflightRequest { piece: info.piece_index, chunk: info.chunk_index }).spec_key(),
                )
            },
        ensures
            r == Ok::<Reaction, Error>(
                Reaction::Chunk { permits: REQUESTS_GRANTED_PER_CHUNK, store: None },
            ),
            after.locked == before.locked,
            after.assigned_to(
                before.locked.chunks.spec_received_chunk(piece)->Some_0.piece_index@,
                thief,
            ),
            after.stats.downloaded_and_checked_bytes == before.stats.downloaded_and_checked_bytes,
            after.stats.downloaded_and_checked_pieces
                == before.stats.downloaded_and_checked_pieces,
    {
    }

    /// What the end of the session of `addr` does. `before` and `after` are the
    /// state of the download before and after it, `error` says whether the session
    /// ended in an error, `r` is the outcome.
    ///
    /// The requests that a live peer had outstanding are given up. A peer that was
    /// not needed stays so. A peer that was queued or dead had no session to end and
    /// is forgotten. Of a peer that was connecting or live: without an error, or
    /// with the download complete, it is not needed any more; with an error, the
    /// error is counted and the peer is dead, or forgotten if its backoff has given
    /// up. The backoff is asked for a delay on that last path only: on every other
    /// path the backoff of the peer is as it was, and the backoff of every other
    /// peer is as it was on all of them.
    pub open spec fn peer_died(
        addr: PeerHandle,
        before: &TorrentState,
        error: bool,
        after: &TorrentState,
        r: PeerDeath,
    ) -> bool {
        if !before.peers@.records.contains_key(addr) {
            r is NotFound && *after == *before
        } else {
            let kind = before.peers.kind_of(addr);
            let record = before.peers@.records[addr];
            let counters = before.peers.counters();
            &&& after.info == before.info
            &&& after.info_hash == before.info_hash
            &&& after.peer_id == before.peer_id
            &&& after.lengths == before.lengths
            &&& after.needed_bytes == before.needed_bytes
            &&& after.have_plus_needed_bytes == before.have_plus_needed_bytes
            &&& after.options == before.options
            &&& after.stats == before.stats
            &&& after.inflight() == before.inflight()
            &&& after.unchecked() == before.unchecked()
            &&& if kind == PeerStateKind::Live {
                requests_cancelled(
                    &before.locked.chunks,
                    before.peers.live(addr).inflight_requests,
                    &after.locked.chunks,
                )
            } else {
                after.locked.chunks == before.locked.chunks
            }
            &&& match kind {
                PeerStateKind::NotNeeded => {
                    &&& r is NotNeeded
                    &&& after.peers@.records == before.peers@.records
                    &&& after.peers.counters() == counters
                },
                PeerStateKind::Queued | PeerStateKind::Dead => {
                    &&& r is WrongState
                    &&& after.peers@.records == before.peers@.records.remove(addr)
                    &&& after.peers.counters() == counters.after_dec(kind)
                },
                PeerStateKind::Connecting | PeerStateKind::Live => {
                    if !error {
                        &&& r is NotNeeded
                        &&& after.peers@.records == before.peers@.records.insert(
                            addr,
                            with_state(record, PeerStateView::NotNeeded),
                        )
                        &&& after.peers.counters() == counters.after_incdec(
                            kind,
                            PeerStateKind::NotNeeded,
                        )
                    } else if before.spec_is_finished() {
                        &&& r is NotNeeded
                        &&& after.peers@.records == before.peers@.records.insert(
                            addr,
                            PeerView {
                                state: PeerStateView::NotNeeded,
                                counters: after_error(record.counters),
                                backoff: record.backoff,
                            },
                        )
                        &&& after.peers.counters() == counters.after_incdec(
                            kind,
                            PeerStateKind::NotNeeded,
                        )
                    } else if r is Retry {
                        &&& after.peers@.records == before.peers@.records.insert(
                            addr,
                            PeerView {
                                state: PeerStateView::Dead,
                                counters: after_error(record.counters),
                                backoff: after.peers@.records[addr].backoff,
                            },
                        )
                        &&& after.peers@.records[addr].backoff.parameters() == record.backoff.parameters()
                        &&& after.peers.counters() == counters.after_incdec(
                            kind,
                            PeerStateKind::Dead,
                        )
                    } else {
                        &&& r is GivenUp
                        &&& after.peers@.records == before.peers@.records.remove(addr)
                        &&& after.peers.counters() == counters.after_dec(kind)
                    }
                },
            }
        }
    }

    /// Giving up one more request keeps the tracker in step with the requests given
    /// up so far.
    proof fn lemma_one_more_cancelled(
        before: &ChunkTracker,
        mid: &ChunkTracker,
        after: &ChunkTracker,
        done: Set<u64>,
        key: u64,
        cancelled: Option<bool>,
    )
        requires
            before.wf(),
            requests_cancelled(before, done, mid),
            after.lengths == mid.lengths,
            after.have == mid.have,
            after.chunk_status == mid.chunk_status,
            cancelled is None <==> !mid.lengths.valid_piece(InflightRequest::piece_of(key) as int),
            cancelled == Some(false) <==> mid.is_have(InflightRequest::piece_of(key) as int),
            after.needed_pieces@ == (if cancelled == Some(true) && !mid.piece_complete(
                InflightRequest::piece_of(key) as int,
            ) {
                mid.needed_pieces@.update(InflightRequest::piece_of(key) as int, true)
            } else {
                mid.needed_pieces@
            }),
        ensures
            requests_cancelled(before, done.insert(key), after),
    {
        let target = InflightRequest::piece_of(key) as int;
        let more = done.insert(key);
        before.lemma_sizes();
        mid.lemma_piece_complete_same(before, target);
        assert forall|p: int| 0 <= p < before.needed_pieces@.len() implies #[trigger] after.needed_pieces@[p]
            == (before.needed_pieces@[p] || back_to_queue(before, more, p)) by {
            assert(mid.needed_pieces@[p] == (before.needed_pieces@[p] || back_to_queue(
                before,
                done,
                p,
            )));
            if asks_for_piece(done, p) {
                let k = choose|k: u64| done.contains(k) && InflightRequest::piece_of(k) == p;
                assert(more.contains(k));
            }
            if asks_for_piece(more, p) && p != target {
                let k = choose|k: u64| more.contains(k) && InflightRequest::piece_of(k) == p;
                assert(done.contains(k));
                assert(asks_for_piece(done, p));
            }
            if p == target {
                assert(more.contains(key));
                assert(asks_for_piece(more, p));
                assert(mid.is_have(p) == before.is_have(p));
                if cancelled == Some(true) && !mid.piece_complete(target) {
                    assert(after.needed_pieces@[p]);
                    assert(!before.piece_complete(p));
                    assert(back_to_queue(before, more, p));
                } else {
                    assert(after.needed_pieces@[p] == mid.needed_pieces@[p]);
                    if cancelled is None {
                        assert(!before.lengths.valid_piece(p));
                    } else if cancelled == Some(false) {
                        assert(before.is_have(p));
                    } else {
                        assert(cancelled == Some(true));
                        assert(mid.piece_complete(target));
                        assert(before.piece_complete(p));
                    }
                    assert(!back_to_queue(before, more, p));
                    assert(!back_to_queue(before, done, p));
                }
            } else {
                assert(after.needed_pieces@[p] == mid.needed_pieces@[p]);
            }
        }
    }

    /// Gives up the requests with the keys `keys`.
    fn cancel_requests(state: &mut TorrentState, keys: &Vec<u64>)
        requires
            old(state).wf(),
        ensures
            final(state).wf(),
            old(state).same_but_locked(final(state)),
            final(state).inflight() == old(state).inflight(),
            final(state).unchecked() == old(state).unchecked(),
            requests_cancelled(
                &old(state).locked.chunks,
                keys@.to_set(),
                &final(state).locked.chunks,
            ),
    {
        let ghost before = old(state).locked.chunks;
        let mut i: usize = 0;
        proof {
            assert(keys@.take(0).to_set() =~= Set::<u64>::empty());
        }
        while i < keys.len()
            invariant
                i <= keys@.len(),
                before == old(state).locked.chunks,
                before.wf(),
                state.wf(),
                old(state).same_but_locked(state),
                state.inflight() == old(state).inflight(),
                state.unchecked() == old(state).unchecked(),
                requests_cancelled(&before, keys@.take(i as int).to_set(), &state.locked.chunks),
            decreases keys@.len() - i,
        {
            let request = InflightRequest::from_key(keys[i]);
            let ghost held = state.locked;
            let ghost mid = state.locked.chunks;
            let cancelled = state.locked.chunks.mark_chunk_request_cancelled(
                request.piece,
                request.chunk,
            );
            proof {
                assert forall|q: int|
                    state.lengths.valid_piece(q) implies state.locked.is_pending(q)
                    == held.is_pending(q) by {
                    state.locked.chunks.lemma_piece_complete_same(&mid, q);
                }
                held.lemma_pending_same(&state.locked);
                held.lemma_checks_same(&state.locked);
                let done = keys@.take(i as int);
                assert(keys@.take(i + 1) =~= done.push(keys@[i as int]));
                done.lemma_push_to_set_commute(keys@[i as int]);
                Self::lemma_one_more_cancelled(
                    &before,
                    &mid,
                    &state.locked.chunks,
                    done.to_set(),
                    keys@[i as int],
                    cancelled,
                );
            }
            i += 1;
        }
        proof {
            assert(keys@.take(keys@.len() as int) =~= keys@);
        }
    }

    /// The session has ended; `error` says whether in an error. See
    /// [`Self::peer_died`].
    ///
    /// Whether a dead peer is tried again is up to its backoff: the outcome is
    /// [`PeerDeath::Retry`] with the delay that the backoff gave, or
    /// [`PeerDeath::GivenUp`] if it gave none.
    pub fn on_peer_died(self, state: &mut TorrentState, error: bool) -> (r: PeerDeath)
        requires
            old(state).wf(),
        ensures
            final(state).wf(),
            final(state).spec_downloaded_bytes() >= old(state).spec_downloaded_bytes(),
            legal_step(old(state).peers@.records, final(state).peers@.records),
            Self::peer_died(self.addr, old(state), error, final(state), r),
    {
        let handle = self.addr;
        let kind = match state.peers.peer_state_kind(handle) {
            Some(k) => k,
            None => {
                return PeerDeath::NotFound;
            },
        };
        let ghost counters = old(state).peers.counters();
        let ghost record = old(state).peers@.records[handle];
        let prev = match state.peers.set_peer_state(handle, PeerState::Queued) {
            Some(p) => p,
            None => {
                return PeerDeath::NotFound;
            },
        };
        proof {
            counters.lemma_passing_through(kind, PeerStateKind::Queued, PeerStateKind::NotNeeded);
            counters.lemma_passing_through(kind, PeerStateKind::Queued, PeerStateKind::Dead);
            counters.lemma_passing_through(kind, PeerStateKind::Queued, kind);
        }
        match prev {
            PeerState::Connecting => {},
            PeerState::Live(live) => {
                let keys = crate::peer_states::set_to_vec(&live.inflight_requests);
                Self::cancel_requests(state, &keys);
            },
            PeerState::NotNeeded => {
                state.peers.set_peer_state(handle, PeerState::NotNeeded);
                assert(state.peers@.records =~= old(state).peers@.records);
                return PeerDeath::NotNeeded;
            },
            PeerState::Queued | PeerState::Dead => {
                state.peers.drop_peer(handle);
                assert(state.peers@.records =~= old(state).peers@.records.remove(handle));
                return PeerDeath::WrongState;
            },
        }
        if !error {
            state.peers.set_peer_state(handle, PeerState::NotNeeded);
            assert(state.peers@.records =~= old(state).peers@.records.insert(
                handle,
                with_state(record, PeerStateView::NotNeeded),
            ));
            return PeerDeath::NotNeeded;
        }
        if let Some(c) = state.peers.peer_counters(handle) {
            let mut c = c;
            c.errors = c.errors.wrapping_add(1);
            state.peers.set_peer_counters(handle, c);
        }
        if state.is_finished() {
            state.peers.set_peer_state(handle, PeerState::NotNeeded);
            assert(state.peers@.records =~= old(state).peers@.records.insert(
                handle,
                PeerView {
                    state: PeerStateView::NotNeeded,
                    counters: after_error(record.counters),
                    backoff: record.backoff,
                },
            ));
            return PeerDeath::NotNeeded;
        }
        state.peers.set_peer_state(handle, PeerState::Dead);
        assert(state.peers@.records =~= old(state).peers@.records.insert(
            handle,
            PeerView {
                state: PeerStateView::Dead,
                counters: after_error(record.counters),
                backoff: record.backoff,
            },
        ));
        let backoff = match state.peers.next_peer_backoff(handle) {
            Some(b) => b,
            None => None,
        };
        assert(state.peers@.records =~= old(state).peers@.records.insert(
            handle,
            PeerView {
                state: PeerStateView::Dead,
                counters: after_error(record.counters),
                backoff: state.peers@.records[handle].backoff,
            },
        ));
        proof {
            counters.after_incdec(kind, PeerStateKind::Dead).lemma_passing_through(
                PeerStateKind::Dead,
                PeerStateKind::Dead,
                PeerStateKind::Dead,
            );
            counters.lemma_passing_through(kind, PeerStateKind::Dead, PeerStateKind::Dead);
        }
        let r = settle_dead_peer(state, handle, backoff);
        proof {
            if r is GivenUp {
                assert(state.peers@.records =~= old(state).peers@.records.remove(handle));
            }
        }
        r
    }

    /// What a message of the peer does. `before` and `after` are the session and
    /// the state of the download before and after it, `r` is the outcome.
    pub open spec fn message_handled(
        before: &PeerHandler,
        state_before: &TorrentState,
        message: &Message,
        now: u64,
        after: &PeerHandler,
        state_after: &TorrentState,
        r: Result<Reaction, Error>,
    ) -> bool {
        match message {
            Message::Request(request) => {
                &&& *after == *before
                &&& *state_after == *state_before
                &&& match Self::requested_chunk(state_before, *request) {
                    Ok(info) => r matches Ok(Reaction::Send(messages)) && messages@
                        == seq![WriterRequest::ReadChunkRequest(info)],
                    Err(e) => r == Err::<Reaction, Error>(e),
                }
            },
            Message::Bitfield(bytes) => Self::bitfield_handled(
                before,
                state_before,
                bytes@,
                after,
                state_after,
                r,
            ),
            Message::Choke => {
                &&& after.locked.i_am_choked
                &&& after.addr == before.addr
                &&& after.locked.previously_requested_pieces
                    == before.locked.previously_requested_pieces
                &&& *state_after == *state_before
                &&& r matches Ok(Reaction::Nothing)
            },
            Message::Unchoke => {
                &&& !after.locked.i_am_choked
                &&& after.addr == before.addr
                &&& after.locked.previously_requested_pieces
                    == before.locked.previously_requested_pieces
                &&& *state_after == *state_before
                &&& r matches Ok(Reaction::Unchoked { permits }) && permits
                    == REQUESTS_GRANTED_ON_UNCHOKE
            },
            Message::Interested => {
                &&& *after == *before
                &&& state_before.same_download(state_after)
                &&& state_after.peers.counters() == state_before.peers.counters()
                &&& state_after.peers@.records == peers_after_interest(
                    state_before.peers@.records,
                    before.addr,
                )
                &&& r matches Ok(Reaction::Nothing)
            },
            Message::Have(have) => {
                &&& *after == *before
                &&& state_before.same_download(state_after)
                &&& state_after.peers.counters() == state_before.peers.counters()
                &&& state_after.peers@.records == peers_after_have(
                    state_before.peers@.records,
                    before.addr,
                    *have,
                )
                &&& r matches Ok(Reaction::Nothing)
            },
            Message::Piece(piece) => {
                &&& *after == *before
                &&& before.piece_received(state_before, piece, now, state_after, r)
            },
            Message::KeepAlive | Message::NotInterested | Message::Extended(_) => {
                &&& *after == *before
                &&& *state_after == *state_before
                &&& r matches Ok(Reaction::Nothing)
            },
        }
    }

    /// A message has arrived from the peer. See [`Self::message_handled`]. An error
    /// ends the session.
    pub fn on_received_message(&mut self, state: &mut TorrentState, message: Message, now: u64) -> (r:
        Result<Reaction, Error>)
        requires
            old(state).wf(),
        ensures
            final(state).wf(),
            final(state).spec_downloaded_bytes() >= old(state).spec_downloaded_bytes(),
            legal_step(old(state).peers@.records, final(state).peers@.records),
            Self::message_handled(old(self), old(state), &message, now, final(self), final(state), r),
    {
        match message {
            Message::Request(request) => {
                match self.on_download_request(state, request) {
                    Ok(order) => {
                        let mut messages: Vec<WriterRequest> = Vec::new();
                        messages.push(order);
                        assert(messages@ =~= seq![order]);
                        Ok(Reaction::Send(messages))
                    },
                    Err(e) => Err(e),
                }
            },
            Message::Bitfield(b) => self.on_bitfield(state, b),
            Message::Choke => {
                self.on_i_am_choked();
                Ok(Reaction::Nothing)
            },
            Message::Unchoke => {
                let permits = self.on_i_am_unchoked();
                Ok(Reaction::Unchoked { permits })
            },
            Message::Interested => {
                self.on_peer_interested(state);
                Ok(Reaction::Nothing)
            },
            Message::Piece(piece) => self.on_received_piece(state, &piece, now),
            Message::KeepAlive => Ok(Reaction::Nothing),
            Message::Have(h) => {
                self.on_have(state, h);
                Ok(Reaction::Nothing)
            },
            Message::NotInterested => Ok(Reaction::Nothing),
            Message::Extended(_) => Ok(Reaction::Nothing),
        }
    }

    /// Whether the queue holds nothing that the peer of this session could be asked
    /// for: we are choked, the peer is not live, or it has no piece of the queue.
    pub open spec fn nothing_to_reserve(&self, state: &TorrentState) -> bool {
        ||| self.locked.i_am_choked
        ||| !state.peers.is_live(self.addr)
        ||| forall|q: int| !state.wanted_from(state.peers.live(self.addr).bitfield, q)
    }

    /// Whether `p` is the piece that a reservation takes, and `after` the state that
    /// it leaves: `p` is the first piece of the queue that the peer has; it leaves
    /// the queue and is in flight from this peer since `now`.
    pub open spec fn reserves(
        &self,
        before: &TorrentState,
        now: u64,
        after: &TorrentState,
        p: ValidPieceIndex,
    ) -> bool {
        &&& !self.locked.i_am_choked
        &&& before.peers.is_live(self.addr)
        &&& before.wanted_from(before.peers.live(self.addr).bitfield, p@ as int)
        &&& forall|q: int|
            0 <= q < p@ ==> !before.wanted_from(before.peers.live(self.addr).bitfield, q)
        &&& before.same_but_locked(after)
        &&& after.inflight() == before.inflight().insert(
            p@,
            InflightPiece { peer: self.addr, started: now },
        )
        &&& after.locked.chunks.needed_pieces@ == before.locked.chunks.needed_pieces@.update(
            p@ as int,
            false,
        )
        &&& after.locked.chunks.have == before.locked.chunks.have
        &&& after.locked.chunks.chunk_status == before.locked.chunks.chunk_status
        &&& after.locked.chunks.lengths == before.locked.chunks.lengths
        &&& after.unchecked() == before.unchecked()
    }

    /// Takes the first piece of the queue that the peer has: the piece leaves the
    /// queue and is in flight from this peer. `None`, and nothing changes, if we are
    /// choked, the peer is not live, or it has no piece of the queue.
    pub fn reserve_next_needed_piece(&self, state: &mut TorrentState, now: u64) -> (r: Option<
        ValidPieceIndex,
    >)
        requires
            old(state).wf(),
        ensures
            final(state).wf(),
            final(state).spec_downloaded_bytes() >= old(state).spec_downloaded_bytes(),
            legal_step(old(state).peers@.records, final(state).peers@.records),
            match r {
                Some(p) => self.reserves(old(state), now, final(state), p),
                None => *final(state) == *old(state) && self.nothing_to_reserve(old(state)),
            },
    {
        if self.locked.i_am_choked {
            return None;
        }
        let n = match state.get_next_needed_piece(self.addr) {
            Some(n) => n,
            None => {
                return None;
            },
        };
        proof {
            state.locked.chunks.lemma_sizes();
        }
        state.locked.inflight_pieces.insert(n.get(), InflightPiece { peer: self.addr, started: now });
        state.locked.chunks.reserve_needed_piece(n);
        proof {
            assert forall|q: int| state.lengths.valid_piece(q) implies state.locked.is_pending(q)
                == old(state).locked.is_pending(q) by {
                state.locked.chunks.lemma_piece_complete_same(&old(state).locked.chunks, q);
            }
            old(state).locked.lemma_pending_same(&state.locked);
            old(state).locked.lemma_checks_same(&state.locked);
        }
        Some(n)
    }

    /// Whether piece `p` is in flight from another peer than `addr`.
    pub open spec fn steal_candidate(state: &TorrentState, addr: PeerHandle, p: u32) -> bool {
        state.inflight().contains_key(p) && state.inflight()[p].peer != addr
    }

    /// Whether a piece that has been in flight for `elapsed` nanoseconds has taken
    /// more than `threshold` times the mean download time of a piece.
    pub open spec fn too_slow(stats: AtomicStats, elapsed: u64, threshold: u32) -> bool {
        elapsed as int * stats.downloaded_and_checked_pieces as int
            > stats.total_piece_download_ms as int * 1_000_000 * threshold as int
    }

    /// Whether there is nothing to steal: too few pieces are verified for the mean
    /// to count, or no piece in flight from another peer is too slow.
    pub open spec fn nothing_to_steal(
        &self,
        state: &TorrentState,
        threshold: u32,
        now: u64,
    ) -> bool {
        ||| state.stats.downloaded_and_checked_pieces < MIN_PIECES_BEFORE_STEALING
        ||| forall|q: u32| #[trigger]
            Self::steal_candidate(state, self.addr, q) ==> !Self::too_slow(
                state.stats,
                elapsed_since(now, state.inflight()[q].started),
                threshold,
            )
    }

    /// Whether `p` is a piece that stealing takes, and `after` the state that it
    /// leaves: of the pieces in flight from other peers, `p` has been in flight the
    /// longest, and too long; it is in flight from this peer since `now`.
    pub open spec fn steals(
        &self,
        before: &TorrentState,
        threshold: u32,
        now: u64,
        after: &TorrentState,
        p: ValidPieceIndex,
    ) -> bool {
        &&& before.stats.downloaded_and_checked_pieces >= MIN_PIECES_BEFORE_STEALING
        &&& Self::steal_candidate(before, self.addr, p@)
        &&& Self::too_slow(
            before.stats,
            elapsed_since(now, before.inflight()[p@].started),
            threshold,
        )
        &&& forall|q: u32| #[trigger]
            Self::steal_candidate(before, self.addr, q) ==> elapsed_since(
                now,
                before.inflight()[q].started,
            ) <= elapsed_since(now, before.inflight()[p@].started)
        &&& before.same_but_locked(after)
        &&& after.locked.chunks == before.locked.chunks
        &&& after.unchecked() == before.unchecked()
        &&& after.inflight() == before.inflight().insert(
            p@,
            InflightPiece { peer: self.addr, started: now },
        )
    }

    proof fn lemma_too_slow_monotone(stats: AtomicStats, a: u64, b: u64, threshold: u32)
        requires
            a <= b,
            Self::too_slow(stats, a, threshold),
        ensures
            Self::too_slow(stats, b, threshold),
    {
        let d = stats.downloaded_and_checked_pieces as int;
        assert(a as int * d <= b as int * d) by (nonlinear_arith)
            requires
                a <= b,
                d >= 0,
        ;
    }

    /// Takes over the piece that has been in flight from another peer the longest,
    /// if that is more than `threshold` times the mean download time of a piece and
    /// at least [`MIN_PIECES_BEFORE_STEALING`] pieces are verified. `None`, and
    /// nothing changes, otherwise.
    pub fn try_steal_old_slow_piece(&self, state: &mut TorrentState, threshold: u32, now: u64) -> (r:
        Option<ValidPieceIndex>)
        requires
            old(state).wf(),
        ensures
            final(state).wf(),
            final(state).spec_downloaded_bytes() >= old(state).spec_downloaded_bytes(),
            legal_step(old(state).peers@.records, final(state).peers@.records),
            match r {
                Some(p) => self.steals(old(state), threshold, now, final(state), p),
                None => *final(state) == *old(state) && self.nothing_to_steal(
                    old(state),
                    threshold,
                    now,
                ),
            },
    {
        let total = state.stats.downloaded_and_checked_pieces;
        if total < MIN_PIECES_BEFORE_STEALING {
            return None;
        }
        let keys = inflight_piece_ids(&state.locked.inflight_pieces);
        let mut best: Option<(u32, u64)> = None;
        let mut i: usize = 0;
        while i < keys.len()
            invariant
                i <= keys@.len(),
                keys@.to_set() == state.inflight().dom(),
                match best {
                    Some((p, e)) => {
                        &&& Self::steal_candidate(state, self.addr, p)
                        &&& e == elapsed_since(now, state.inflight()[p].started)
                        &&& forall|j: int|
                            0 <= j < i && Self::steal_candidate(state, self.addr, #[trigger] keys@[j])
                                ==> elapsed_since(now, state.inflight()[keys@[j]].started) <= e
                    },
                    None => forall|j: int|
                        0 <= j < i ==> !Self::steal_candidate(state, self.addr, #[trigger] keys@[j]),
                },
            decreases keys@.len() - i,
        {
            let k = keys[i];
            assert(keys@.to_set().contains(k));
            let entry = state.locked.inflight_pieces.get(&k);
            if let Some(ip) = entry {
                if ip.peer.0 != self.addr.0 || ip.peer.1 != self.addr.1 {
                    let e = now.saturating_sub(ip.started);
                    let better = match best {
                        Some((_, b)) => e >= b,
                        None => true,
                    };
                    if better {
                        best = Some((k, e));
                    }
                }
            }
            i += 1;
        }
        let (p, e) = match best {
            Some(b) => b,
            None => {
                proof {
                    assert forall|q: u32| #[trigger]
                        Self::steal_candidate(state, self.addr, q) implies !Self::too_slow(
                        state.stats,
                        elapsed_since(now, state.inflight()[q].started),
                        threshold,
                    ) by {
                        assert(keys@.to_set().contains(q));
                        let j = choose|j: int| 0 <= j < keys@.len() && keys@[j] == q;
                        assert(!Self::steal_candidate(state, self.addr, keys@[j]));
                    }
                }
                return None;
            },
        };
        proof {
            assert forall|q: u32| #[trigger]
                Self::steal_candidate(state, self.addr, q) implies elapsed_since(
                now,
                state.inflight()[q].started,
            ) <= e by {
                assert(keys@.to_set().contains(q));
                let j = choose|j: int| 0 <= j < keys@.len() && keys@[j] == q;
                assert(Self::steal_candidate(state, self.addr, keys@[j]));
            }
        }
        let t = state.stats.total_piece_download_ms;
        assert(e as int * total as int <= 0xffff_ffff_ffff_ffff * 0xffff_ffff_ffff_ffff)
            by (nonlinear_arith)
            requires
                0 <= e <= 0xffff_ffff_ffff_ffff,
                0 <= total <= 0xffff_ffff_ffff_ffff,
        ;
        assert(t as int * 1_000_000 * threshold as int <= 0xffff_ffff_ffff_ffff * 1_000_000
            * 0xffff_ffff) by (nonlinear_arith)
            requires
                0 <= t <= 0xffff_ffff_ffff_ffff,
                0 <= threshold <= 0xffff_ffff,
        ;
        let lhs: u128 = (e as u128) * (total as u128);
        let rhs: u128 = (t as u128) * 1_000_000u128 * (threshold as u128);
        if lhs > rhs {
            assert(state.lengths.valid_piece(p as int)) by {
                assert(state.locked.inflight_pieces@.contains_key(p));
            }
            state.locked.inflight_pieces.insert(p, InflightPiece { peer: self.addr, started: now });
            proof {
                old(state).locked.lemma_pending_same(&state.locked);
            }
            return Some(ValidPieceIndex(p));
        }
        proof {
            assert forall|q: u32| #[trigger]
                Self::steal_candidate(state, self.addr, q) implies !Self::too_slow(
                state.stats,
                elapsed_since(now, state.inflight()[q].started),
                threshold,
            ) by {
                let eq = elapsed_since(now, state.inflight()[q].started);
                if Self::too_slow(state.stats, eq, threshold) {
                    Self::lemma_too_slow_monotone(state.stats, eq, e, threshold);
                }
            }
        }
        None
    }

    /// What the requester sends first, once the peer's bitfield is in place: we
    /// unchoke the peer and say that we are interested. The requester then waits to
    /// be unchoked, for [`UNCHOKE_WAIT_SECS`] at most.
    pub fn requester_greeting(&self) -> (r: Vec<WriterRequest>)
        ensures
            r@ == seq![
                WriterRequest::Message(Message::Unchoke),
                WriterRequest::Message(Message::Interested),
            ],
    {
        let mut messages: Vec<WriterRequest> = Vec::new();
        messages.push(WriterRequest::Message(Message::Unchoke));
        messages.push(WriterRequest::Message(Message::Interested));
        messages
    }

    /// The next move of the requester after its greeting.
    ///
    /// While we are choked, the requester waits to be unchoked. When the download is
    /// complete, it has nothing more to do. Otherwise it looks for a piece: first
    /// one to steal from a very slow peer, then the next of the queue, then one to
    /// steal from a slow peer. The piece it finds is noted as asked of this peer;
    /// the caller asks for its chunks, one call of [`Self::request_chunk`] each.
    pub fn task_peer_chunk_requester(&mut self, state: &mut TorrentState, now: u64) -> (r:
        RequesterStep)
        requires
            old(state).wf(),
        ensures
            final(state).wf(),
            final(state).spec_downloaded_bytes() >= old(state).spec_downloaded_bytes(),
            legal_step(old(state).peers@.records, final(state).peers@.records),
            final(self).addr == old(self).addr,
            final(self).locked.i_am_choked == old(self).locked.i_am_choked,
            match r {
                RequesterStep::WaitForUnchoke => old(self).locked.i_am_choked && *final(state)
                    == *old(state) && *final(self) == *old(self),
                RequesterStep::Finished => {
                    &&& !old(self).locked.i_am_choked
                    &&& old(state).spec_is_finished()
                    &&& *final(state) == *old(state)
                    &&& *final(self) == *old(self)
                },
                RequesterStep::NothingToRequest => {
                    &&& !old(self).locked.i_am_choked
                    &&& !old(state).spec_is_finished()
                    &&& *final(state) == *old(state)
                    &&& *final(self) == *old(self)
                    &&& old(self).nothing_to_steal(
                        old(state),
                        STEAL_THRESHOLD_BEFORE_QUEUE,
                        now,
                    )
                    &&& old(self).nothing_to_reserve(old(state))
                    &&& old(self).nothing_to_steal(old(state), STEAL_THRESHOLD_AFTER_QUEUE, now)
                },
                RequesterStep::Request(p) => {
                    &&& !old(self).locked.i_am_choked
                    &&& !old(state).spec_is_finished()
                    &&& {
                        let asked = old(self).locked.previously_requested_pieces@;
                        final(self).locked.previously_requested_pieces@ == (if p@ < asked.len() {
                            asked.update(p@ as int, true)
                        } else {
                            asked
                        })
                    }
                    &&& {
                        ||| old(self).steals(
                            old(state),
                            STEAL_THRESHOLD_BEFORE_QUEUE,
                            now,
                            final(state),
                            p,
                        )
                        ||| (old(self).nothing_to_steal(
                            old(state),
                            STEAL_THRESHOLD_BEFORE_QUEUE,
                            now,
                        ) && old(self).reserves(old(state), now, final(state), p))
                        ||| (old(self).nothing_to_steal(
                            old(state),
                            STEAL_THRESHOLD_BEFORE_QUEUE,
                            now,
                        ) && old(self).nothing_to_reserve(old(state)) && old(self).steals(
                            old(state),
                            STEAL_THRESHOLD_AFTER_QUEUE,
                            now,
                            final(state),
                            p,
                        ))
                    }
                },
            },
    {
        if self.locked.i_am_choked {
            return RequesterStep::WaitForUnchoke;
        }
        if state.is_finished() {
            return RequesterStep::Finished;
        }
        let mut next = self.try_steal_old_slow_piece(state, STEAL_THRESHOLD_BEFORE_QUEUE, now);
        if next.is_none() {
            next = self.reserve_next_needed_piece(state, now);
        }
        if next.is_none() {
            next = self.try_steal_old_slow_piece(state, STEAL_THRESHOLD_AFTER_QUEUE, now);
        }
        let next = match next {
            Some(n) => n,
            None => {
                return RequesterStep::NothingToRequest;
            },
        };
        self.locked.previously_requested_pieces.set(next.get() as usize, true);
        RequesterStep::Request(next)
    }

    /// Notes that a chunk is asked of the peer and returns the request to send. The
    /// caller sends it once the peer has a request to spare, looking again every
    /// [`REQUEST_PERMIT_WAIT_SECS`]. A chunk that is asked of the peer already is
    /// not asked for again; if the peer is not live any more, the requester ends.
    pub fn request_chunk(&self, state: &mut TorrentState, chunk: &ChunkInfo) -> (r: ChunkRequest)
        requires
            old(state).wf(),
        ensures
            final(state).wf(),
            final(state).spec_downloaded_bytes() >= old(state).spec_downloaded_bytes(),
            legal_step(old(state).peers@.records, final(state).peers@.records),
            old(state).same_download(final(state)),
            final(state).peers.counters() == old(state).peers.counters(),
            ({
                let key = (InflightRequest { piece: chunk.piece_index, chunk: chunk.chunk_index }).spec_key();
                &&& r == (if !old(state).peers.is_live(self.addr) {
                    ChunkRequest::PeerGone
                } else if old(state).peers.live(self.addr).inflight_requests.contains(key) {
                    ChunkRequest::AlreadyRequested
                } else {
                    ChunkRequest::Send(
                        Request {
                            index: chunk.piece_index@,
                            begin: chunk.offset,
                            length: chunk.size,
                        },
                    )
                })
                &&& final(state).peers@.records == (if old(state).peers.is_live(self.addr) {
                    old(state).peers@.records.insert(
                        self.addr,
                        with_live_view(
                            old(state).peers@.records[self.addr],
                            LivePeerView {
                                inflight_requests: old(state).peers.live(
                                    self.addr,
                                ).inflight_requests.insert(key),
                                ..old(state).peers.live(self.addr)
                            },
                        ),
                    )
                } else {
                    old(state).peers@.records
                })
            }),
    {
        let request = Request {
            index: chunk.piece_index.get(),
            begin: chunk.offset,
            length: chunk.size,
        };
        match state.peers.add_inflight_request(self.addr, InflightRequest::from(chunk)) {
            Some(true) => ChunkRequest::Send(request),
            Some(false) => ChunkRequest::AlreadyRequested,
            None => ChunkRequest::PeerGone,
        }
    }
}

/// The registry `m` after the live peer `addr` said it has piece `have`.
pub open spec fn peers_after_have(m: Map<PeerHandle, PeerView>, addr: PeerHandle, have: u32) -> Map<
    PeerHandle,
    PeerView,
> {
    if m.contains_key(addr) && m[addr].state is Live && have < m[addr].state->Live_0.bitfield.len() {
        let live = m[addr].state->Live_0;
        m.insert(
            addr,
            with_live_view(
                m[addr],
                LivePeerView { bitfield: live.bitfield.update(have as int, true), ..live },
            ),
        )
    } else {
        m
    }
}

/// The registry `m` after the live peer `addr` said it is interested.
pub open spec fn peers_after_interest(m: Map<PeerHandle, PeerView>, addr: PeerHandle) -> Map<
    PeerHandle,
    PeerView,
> {
    if m.contains_key(addr) && m[addr].state is Live {
        let live = m[addr].state->Live_0;
        m.insert(addr, with_live_view(m[addr], LivePeerView { peer_interested: true, ..live }))
    } else {
        m
    }
}

/// The registry `m` after the live peer `addr` sent the bitfield `bytes`.
pub open spec fn peers_after_bitfield(
    m: Map<PeerHandle, PeerView>,
    addr: PeerHandle,
    bytes: Seq<u8>,
) -> Map<PeerHandle, PeerView> {
    if m.contains_key(addr) && m[addr].state is Live {
        let live = m[addr].state->Live_0;
        m.insert(addr, with_live_view(m[addr], LivePeerView { bitfield: bits_of(bytes), ..live }))
    } else {
        m
    }
}

/// Whether a request of `requests` is for a chunk of piece `p`.
pub open spec fn asks_for_piece(requests: Set<u64>, p: int) -> bool {
    exists|k: u64| requests.contains(k) && InflightRequest::piece_of(k) == p
}

/// Whether piece `p` goes back into the queue when `requests` are given up: one of
/// them is for a chunk of `p`, and `p` is neither verified nor complete.
pub open spec fn back_to_queue(before: &ChunkTracker, requests: Set<u64>, p: int) -> bool {
    &&& before.lengths.valid_piece(p)
    &&& !before.is_have(p)
    &&& !before.piece_complete(p)
    &&& asks_for_piece(requests, p)
}

/// Whether `after` is the tracker `before` after `requests` were given up: the
/// pieces that go back into the queue are in it, and nothing else has changed.
pub open spec fn requests_cancelled(
    before: &ChunkTracker,
    requests: Set<u64>,
    after: &ChunkTracker,
) -> bool {
    &&& after.lengths == before.lengths
    &&& after.have == before.have
    &&& after.chunk_status == before.chunk_status
    &&& after.needed_pieces@.len() == before.needed_pieces@.len()
    &&& forall|p: int|
        0 <= p < before.needed_pieces@.len() ==> #[trigger] after.needed_pieces@[p] == (
        before.needed_pieces@[p] || back_to_queue(before, requests, p))
}

/// When the requests of a dead peer are given up, every piece that one of them
/// was for is in the queue again, unless it is verified or has all its chunks and
/// awaits its check.
pub proof fn lemma_cancelled_requests_are_needed_again(
    before: &ChunkTracker,
    requests: Set<u64>,
    after: &ChunkTracker,
    key: u64,
)
    requires
        before.wf(),
        requests_cancelled(before, requests, after),
        requests.contains(key),
        before.lengths.valid_piece(InflightRequest::piece_of(key) as int),
        !before.is_have(InflightRequest::piece_of(key) as int),
        !before.piece_complete(InflightRequest::piece_of(key) as int),
    ensures
        after.is_needed(InflightRequest::piece_of(key) as int),
{
    before.lemma_sizes();
    let p = InflightRequest::piece_of(key) as int;
    assert(asks_for_piece(requests, p));
    assert(after.needed_pieces@[p] == (before.needed_pieces@[p] || back_to_queue(
        before,
        requests,
        p,
    )));
}

/// What became of a peer whose session ended.
#[derive(Debug, Clone, Copy)]
pub enum PeerDeath {
    /// The peer is not known. Nothing was done.
    NotFound,
    /// The peer is not needed any more: it was so before, the session ended
    /// without an error, or the download is complete.
    NotNeeded,
    /// The peer was in a state in which no session runs. It has been forgotten.
    WrongState,
    /// The peer is dead. After this delay the caller makes it `Queued` again and
    /// puts its address on the queue of the peers to admit.
    Retry(Duration),
    /// The peer has failed for too long. It has been forgotten.
    GivenUp,
}

/// Whether `v` is a live peer that says it has each of the first `total` pieces.
pub open spec fn is_seeder(v: PeerView, total: int) -> bool {
    v.state matches PeerStateView::Live(live) && all_set(live.bitfield, total)
}

/// The registry `m` after every live peer that has the whole torrent has become
/// `NotNeeded`.
pub open spec fn without_seeders(m: Map<PeerHandle, PeerView>, total: int) -> Map<
    PeerHandle,
    PeerView,
> {
    Map::new(
        |a: PeerHandle| m.contains_key(a),
        |a: PeerHandle|
            if is_seeder(m[a], total) {
                with_state(m[a], PeerStateView::NotNeeded)
            } else {
                m[a]
            },
    )
}

/// Whether `a` is among the first `i` of `handles`.
pub open spec fn seen_before(handles: Seq<PeerHandle>, i: int, a: PeerHandle) -> bool {
    exists|j: int| 0 <= j < i && handles[j] == a
}

/// What the check of a completed piece led to.
#[derive(Debug)]
pub struct PieceChecked {
    /// Whether the piece passed and was counted as downloaded.
    pub counted: bool,
    /// Whether the download is complete now.
    pub finished: bool,
    /// The peers to send a disconnect.
    pub disconnect: Vec<PeerHandle>,
    /// The peers to tell that we have the piece.
    pub haves: Vec<PeerHandle>,
}

/// Ends the handling of a peer that has just died, given what its backoff
/// answered: with a delay the peer stays dead until the delay has passed; without
/// one the peer is forgotten.
pub fn settle_dead_peer(state: &mut TorrentState, addr: PeerHandle, backoff: Option<Duration>) -> (r:
    PeerDeath)
    requires
        old(state).wf(),
    ensures
        final(state).wf(),
        final(state).spec_downloaded_bytes() >= old(state).spec_downloaded_bytes(),
        legal_step(old(state).peers@.records, final(state).peers@.records),
        old(state).same_download(final(state)),
        match backoff {
            Some(delay) => r == PeerDeath::Retry(delay) && *final(state) == *old(state),
            None => {
                &&& r is GivenUp
                &&& final(state).peers@.records == old(state).peers@.records.remove(addr)
                &&& final(state).peers.counters() == (if old(state).peers@.records.contains_key(addr) {
                    old(state).peers.counters().after_dec(old(state).peers.kind_of(addr))
                } else {
                    old(state).peers.counters()
                })
            },
        },
{
    match backoff {
        Some(delay) => PeerDeath::Retry(delay),
        None => {
            state.peers.drop_peer(addr);
            PeerDeath::GivenUp
        },
    }
}

/// The next move of a peer's requester.
#[derive(Debug, Clone, Copy)]
pub enum RequesterStep {
    /// We are choked: wait to be unchoked, for [`UNCHOKE_WAIT_SECS`] at most, then
    /// ask again.
    WaitForUnchoke,
    /// The download is complete: there is nothing to ask for, ever.
    Finished,
    /// There is no piece to ask this peer for now: ask again in
    /// [`NOTHING_TO_REQUEST_WAIT_SECS`].
    NothingToRequest,
    /// Ask the peer for the chunks of this piece.
    Request(ValidPieceIndex),
}

/// What to do about one chunk of a piece that is asked of a peer.
#[derive(Debug, Clone, Copy)]
pub enum ChunkRequest {
    /// Send this request.
    Send(Request),
    /// The chunk is asked of the peer already: go on with the next chunk.
    AlreadyRequested,
    /// The peer is not live any more: stop.
    PeerGone,
}

} // verus!
