use librqbit::bitfield::BF;
use librqbit::chunk_tracker::ChunkTracker;
use librqbit::error::Error;
use librqbit::lengths::Lengths;
use librqbit::peer_handler::{
    settle_dead_peer, ChunkRequest, PeerDeath, PeerHandler, Reaction, RequesterStep,
    MIN_PIECES_BEFORE_STEALING, REQUESTS_GRANTED_ON_UNCHOKE, REQUESTS_GRANTED_PER_CHUNK,
    STEAL_THRESHOLD_AFTER_QUEUE, STEAL_THRESHOLD_BEFORE_QUEUE,
};
use librqbit::peer_state::{PeerHandle, PeerStateKind};
use librqbit::torrent_metainfo::TorrentMetaV1Info;
use librqbit::protocol::{Handshake, Id20, Message, Piece, Request, WriterRequest};
use librqbit::torrent_state::{InflightPiece, TorrentState};

const MS: u64 = 1_000_000;

fn addr(port: u16) -> PeerHandle {
    (0x0000_0000_0000_0000_0000_ffff_0a00_0001u128, port)
}

// `pieces` pieces of 4 chunks each, all to download
fn fresh_state(pieces: u32) -> TorrentState {
    let lengths = Lengths::new(65536 * pieces as u64, 65536, None).unwrap();
    let bytes = lengths.piece_bitfield_bytes();
    let mut needed = BF::zeroed(bytes);
    for p in 0..pieces {
        needed.set(p as usize, true);
    }
    let tracker = ChunkTracker::new(needed, BF::zeroed(bytes), lengths);
    let needed_bytes = tracker.calc_unfinished_bytes();
    TorrentState::new(info(), Id20([1u8; 20]), Id20([2u8; 20]), tracker, lengths, 0, needed_bytes, None)
}

fn info() -> TorrentMetaV1Info {
    TorrentMetaV1Info {
        name: Some(b"data".to_vec()),
        pieces: vec![0u8; 80],
        piece_length: 65536,
        length: Some(262144),
        files: None,
    }
}

fn handshake(id: u8) -> Handshake {
    Handshake { reserved: 0, info_hash: [1u8; 20], peer_id: [id; 20] }
}

fn connect(state: &mut TorrentState, port: u16) -> PeerHandler {
    let a = addr(port);
    assert!(state.add_peer_if_not_seen(a));
    assert!(state.task_peer_adder(a));
    let handler = state.task_manage_peer(a).unwrap();
    handler.on_connected(state, 12);
    assert_eq!(handler.on_handshake(state, handshake(port as u8)), Ok(()));
    handler
}

fn live(state: &mut TorrentState, port: u16, bitfield: Vec<u8>) -> PeerHandler {
    let mut handler = connect(state, port);
    handler.on_received_message(state, Message::Bitfield(bitfield), 0).unwrap();
    match handler.on_received_message(state, Message::Unchoke, 0) {
        Ok(Reaction::Unchoked { permits }) => assert_eq!(permits, 16),
        other => panic!("{:?}", other),
    }
    handler
}

fn block(index: u32, chunk: u32) -> Message {
    Message::Piece(Piece { index, begin: chunk * 16384, block: vec![0xABu8; 16384] })
}

// asks `handler`'s peer for every chunk of `piece` and lets the peer send the first
// `chunks` of them; returns the last reaction
fn download(
    handler: &mut PeerHandler,
    state: &mut TorrentState,
    piece: u32,
    chunks: u32,
    now: u64,
) -> Option<Reaction> {
    let index = state.lengths.validate_piece_index(piece).unwrap();
    for chunk in state.lengths.iter_chunk_infos(index) {
        match handler.request_chunk(state, &chunk) {
            ChunkRequest::Send(r) => {
                assert_eq!((r.index, r.begin, r.length), (piece, chunk.offset, chunk.size))
            }
            other => panic!("{:?}", other),
        }
    }
    let mut last = None;
    for c in 0..chunks {
        last = Some(handler.on_received_message(state, block(piece, c), now).unwrap());
    }
    last
}

// lets the peer of `handler` deliver the next piece that it is asked for, and the
// check of the piece pass
fn fetch(handler: &mut PeerHandler, state: &mut TorrentState, now: u64) -> u32 {
    let piece = match handler.task_peer_chunk_requester(state, now) {
        RequesterStep::Request(p) => p,
        other => panic!("{:?}", other),
    };
    let last = download(handler, state, piece.get(), 4, now);
    assert_eq!(completed_in(&last), Some(0));
    assert!(handler.on_piece_checked(state, piece, true).counted);
    piece.get()
}

fn completed_in(reaction: &Option<Reaction>) -> Option<u64> {
    match reaction {
        Some(Reaction::Chunk { permits, store: Some(store) }) => {
            assert_eq!(*permits, 1);
            store.completed_in
        }
        other => panic!("{:?}", other),
    }
}

fn is_dropped(reaction: &Result<Reaction, Error>) -> bool {
    matches!(reaction, Ok(Reaction::Chunk { permits: 1, store: None }))
}

#[test]
fn constants() {
    assert_eq!(REQUESTS_GRANTED_ON_UNCHOKE, 16);
    assert_eq!(REQUESTS_GRANTED_PER_CHUNK, 1);
    assert_eq!(MIN_PIECES_BEFORE_STEALING, 20);
    assert_eq!(STEAL_THRESHOLD_BEFORE_QUEUE, 10);
    assert_eq!(STEAL_THRESHOLD_AFTER_QUEUE, 2);
}

#[test]
fn on_connected_counts_the_connection() {
    let mut state = fresh_state(4);
    let handler = connect(&mut state, 1);
    handler.on_connected(&mut state, 30);
    let c = state.peers.peer_counters(addr(1)).unwrap();
    assert_eq!((c.connection_attempts, c.connections, c.total_time_connecting_ms), (1, 2, 42));
    assert_eq!(state.peers.peer_state_kind(addr(1)), Some(PeerStateKind::Live));
    assert_eq!(state.peers.with_live(addr(1), |l| l.peer_id.0), Some([1u8; 20]));
}

#[test]
fn on_handshake_of_a_peer_that_is_not_connecting_changes_nothing() {
    let mut state = fresh_state(4);
    let handler = connect(&mut state, 1);
    state.peers.update_bitfield_from_vec(addr(1), vec![0xF0]);
    assert_eq!(handler.on_handshake(&mut state, handshake(9)), Ok(()));
    assert_eq!(state.peers.with_live(addr(1), |l| l.peer_id.0), Some([1u8; 20]));
    assert_eq!(state.peers.live_has_piece(addr(1), 0), Some(true));
}

#[test]
fn uploaded_bytes_are_counted() {
    let mut state = fresh_state(4);
    let handler = connect(&mut state, 1);
    handler.on_uploaded_bytes(&mut state, 16384);
    handler.on_uploaded_bytes(&mut state, 1);
    assert_eq!(state.get_uploaded_bytes(), 16385);
    assert_eq!(handler.get_have_bytes(&state), 0);
    assert_eq!(handler.on_extended_handshake(), Ok(()));
}

#[test]
fn our_bitfield_message_shows_the_verified_pieces() {
    let mut state = fresh_state(4);
    let mut handler = live(&mut state, 1, vec![0b0100_0000]);
    assert_eq!(fetch(&mut handler, &mut state, 0), 1);
    let mut buf = vec![1u8, 2, 3];
    assert_eq!(handler.serialize_bitfield_message_to_buf(&state, &mut buf), Some(6));
    assert_eq!(buf, vec![0, 0, 0, 2, 5, 0b0100_0000]);
}

#[test]
fn empty_bitfield_is_answered_with_unchoke_and_not_interested() {
    let mut state = fresh_state(4);
    let mut handler = connect(&mut state, 1);
    match handler.on_received_message(&mut state, Message::Bitfield(vec![0]), 0) {
        Ok(Reaction::Send(messages)) => {
            assert_eq!(messages.len(), 2);
            assert!(matches!(messages[0], WriterRequest::Message(Message::Unchoke)));
            assert!(matches!(messages[1], WriterRequest::Message(Message::NotInterested)));
        }
        other => panic!("{:?}", other),
    }
    assert_eq!(state.peers.peer_state_kind(addr(1)), Some(PeerStateKind::Live));
    assert_eq!(state.peers.live_has_piece(addr(1), 0), Some(false));
}

#[test]
fn bitfield_of_a_useful_peer_wakes_the_requester() {
    let mut state = fresh_state(4);
    let mut handler = connect(&mut state, 1);
    handler.locked.previously_requested_pieces = BF::from_vec(vec![0xFF, 0xFF]);
    let r = handler.on_bitfield(&mut state, vec![0b0001_0000]);
    assert!(matches!(r, Ok(Reaction::BitfieldReceived)));
    assert_eq!(state.peers.live_has_piece(addr(1), 3), Some(true));
    assert_eq!(state.peers.live_has_piece(addr(1), 0), Some(false));
    assert_eq!(handler.locked.previously_requested_pieces.as_raw_slice(), &[0u8][..]);
    assert!(handler.locked.i_am_choked);
}

#[test]
fn bitfield_of_a_finished_download_ends_with_a_disconnect() {
    let lengths = Lengths::new(262144, 65536, None).unwrap();
    let tracker = ChunkTracker::new(BF::from_vec(vec![0]), BF::from_vec(vec![0xF0]), lengths);
    let mut state =
        TorrentState::new(info(), Id20([1u8; 20]), Id20([2u8; 20]), tracker, lengths, 262144, 0, None);
    state.add_peer_if_not_seen(addr(1));
    let mut handler = state.task_manage_peer(addr(1)).unwrap();
    handler.on_handshake(&mut state, handshake(1)).unwrap();
    match handler.on_bitfield(&mut state, vec![0xF0]) {
        Ok(Reaction::Send(messages)) => {
            assert_eq!(messages.len(), 3);
            assert!(matches!(messages[0], WriterRequest::Message(Message::Unchoke)));
            assert!(matches!(messages[1], WriterRequest::Message(Message::NotInterested)));
            assert!(matches!(messages[2], WriterRequest::Disconnect));
        }
        other => panic!("{:?}", other),
    }
}

#[test]
fn wrong_length_bitfield_is_an_error_and_the_peer_is_dropped_with_backoff() {
    let mut state = fresh_state(4);
    let mut handler = connect(&mut state, 1);
    let r = handler.on_received_message(&mut state, Message::Bitfield(vec![0xF0, 0]), 0);
    assert_eq!(r.unwrap_err(), Error::UnexpectedBitfieldSize);
    let r = handler.on_received_message(&mut state, Message::Bitfield(vec![]), 0);
    assert_eq!(r.unwrap_err(), Error::UnexpectedBitfieldSize);
    assert_eq!(state.peers.live_has_piece(addr(1), 0), Some(false));
    match handler.on_peer_died(&mut state, true) {
        PeerDeath::Retry(delay) => {
            assert!(delay >= std::time::Duration::from_secs(5));
            assert!(delay <= std::time::Duration::from_millis(15001));
        }
        other => panic!("{:?}", other),
    }
    assert_eq!(state.peers.peer_state_kind(addr(1)), Some(PeerStateKind::Dead));
    assert_eq!(state.peers.peer_counters(addr(1)).unwrap().errors, 1);
}

#[test]
fn choke_and_unchoke() {
    let mut state = fresh_state(4);
    let mut handler = connect(&mut state, 1);
    assert!(handler.locked.i_am_choked);
    assert_eq!(handler.on_i_am_unchoked(), 16);
    assert!(!handler.locked.i_am_choked);
    handler.on_i_am_choked();
    assert!(handler.locked.i_am_choked);
    let r = handler.on_received_message(&mut state, Message::Unchoke, 0);
    assert!(matches!(r, Ok(Reaction::Unchoked { permits: 16 })));
    assert!(!handler.locked.i_am_choked);
    let r = handler.on_received_message(&mut state, Message::Choke, 0);
    assert!(matches!(r, Ok(Reaction::Nothing)));
    assert!(handler.locked.i_am_choked);
}

#[test]
fn interested_and_have_update_the_live_peer() {
    let mut state = fresh_state(4);
    let mut handler = live(&mut state, 1, vec![0b1000_0000]);
    assert!(matches!(
        handler.on_received_message(&mut state, Message::Interested, 0),
        Ok(Reaction::Nothing)
    ));
    assert_eq!(state.peers.live_is_interested(addr(1)), Some(true));
    assert!(matches!(
        handler.on_received_message(&mut state, Message::Have(2), 0),
        Ok(Reaction::Nothing)
    ));
    assert_eq!(state.peers.live_has_piece(addr(1), 2), Some(true));
    assert_eq!(state.peers.live_has_piece(addr(1), 1), Some(false));
    // a have past the bitfield is ignored
    handler.on_have(&mut state, 8);
    handler.on_have(&mut state, u32::MAX);
    assert_eq!(state.peers.with_live(addr(1), |l| l.bitfield.as_raw_slice().to_vec()), Some(vec![0b1010_0000]));
}

#[test]
fn messages_without_effect() {
    let mut state = fresh_state(4);
    let mut handler = live(&mut state, 1, vec![0b1000_0000]);
    for m in [Message::KeepAlive, Message::NotInterested, Message::Extended(vec![1, 2, 3])] {
        assert!(matches!(handler.on_received_message(&mut state, m, 0), Ok(Reaction::Nothing)));
    }
    assert_eq!(state.peers.live_is_interested(addr(1)), Some(false));
    assert!(!handler.locked.i_am_choked);
}

#[test]
fn download_request_is_served_for_verified_pieces_only() {
    let mut state = fresh_state(4);
    let mut handler = live(&mut state, 1, vec![0b0100_0000]);
    let request = Request { index: 1, begin: 16384, length: 16384 };
    assert_eq!(handler.on_download_request(&state, request).unwrap_err(), Error::ChunkNotReady);
    assert_eq!(fetch(&mut handler, &mut state, 0), 1);
    match handler.on_download_request(&state, request) {
        Ok(WriterRequest::ReadChunkRequest(info)) => {
            assert_eq!(info.piece_index.get(), 1);
            assert_eq!(info.chunk_index, 1);
            assert_eq!(info.absolute_index, 5);
            assert_eq!(info.offset, 16384);
            assert_eq!(info.size, 16384);
        }
        other => panic!("{:?}", other),
    }
    match handler.on_received_message(&mut state, Message::Request(request), 0) {
        Ok(Reaction::Send(messages)) => {
            assert_eq!(messages.len(), 1);
            assert!(matches!(messages[0], WriterRequest::ReadChunkRequest(_)));
        }
        other => panic!("{:?}", other),
    }
    let bad_piece = Request { index: 4, begin: 0, length: 16384 };
    assert_eq!(
        handler.on_received_message(&mut state, Message::Request(bad_piece), 0).unwrap_err(),
        Error::InvalidPieceIndex
    );
    let bad_chunk = Request { index: 1, begin: 1, length: 16384 };
    assert_eq!(
        handler.on_download_request(&state, bad_chunk).unwrap_err(),
        Error::InvalidChunkRequest
    );
    let bad_length = Request { index: 1, begin: 0, length: 100 };
    assert_eq!(
        handler.on_download_request(&state, bad_length).unwrap_err(),
        Error::InvalidChunkRequest
    );
}

#[test]
fn requester_waits_while_choked() {
    let mut state = fresh_state(4);
    let mut handler = connect(&mut state, 1);
    handler.on_bitfield(&mut state, vec![0xF0]).unwrap();
    assert!(matches!(
        handler.task_peer_chunk_requester(&mut state, 0),
        RequesterStep::WaitForUnchoke
    ));
    assert!(handler.reserve_next_needed_piece(&mut state, 0).is_none());
    assert!(state.locked.inflight_pieces.is_empty());
    assert_eq!(state.locked.chunks.iter_needed_pieces(), vec![0, 1, 2, 3]);
}

#[test]
fn requester_reserves_the_pieces_of_the_queue_in_order() {
    let mut state = fresh_state(4);
    let mut handler = live(&mut state, 1, vec![0b0111_0000]);
    for expected in [1u32, 2, 3] {
        match handler.task_peer_chunk_requester(&mut state, 5 * expected as u64) {
            RequesterStep::Request(p) => assert_eq!(p.get(), expected),
            other => panic!("{:?}", other),
        }
        let ip = state.locked.inflight_pieces.get(&expected).unwrap();
        assert_eq!((ip.peer, ip.started), (addr(1), 5 * expected as u64));
    }
    assert_eq!(handler.locked.previously_requested_pieces.as_raw_slice(), &[0b0111_0000u8][..]);
    assert_eq!(state.locked.chunks.iter_needed_pieces(), vec![0]);
    // piece 0 is left, but the peer does not have it
    assert!(matches!(
        handler.task_peer_chunk_requester(&mut state, 100),
        RequesterStep::NothingToRequest
    ));
    assert_eq!(state.locked.inflight_pieces.len(), 3);
}

#[test]
fn request_chunk_notes_the_request_once() {
    let mut state = fresh_state(4);
    let handler = live(&mut state, 1, vec![0xF0]);
    let piece0 = state.lengths.validate_piece_index(0).unwrap();
    let chunks = state.lengths.iter_chunk_infos(piece0);
    match handler.request_chunk(&mut state, &chunks[1]) {
        ChunkRequest::Send(r) => assert_eq!((r.index, r.begin, r.length), (0, 16384, 16384)),
        other => panic!("{:?}", other),
    }
    assert!(matches!(
        handler.request_chunk(&mut state, &chunks[1]),
        ChunkRequest::AlreadyRequested
    ));
    assert_eq!(state.peers.live_inflight_requests(addr(1)).unwrap(), vec![1]);
    state.peers.mark_peer_not_needed(addr(1));
    assert!(matches!(handler.request_chunk(&mut state, &chunks[2]), ChunkRequest::PeerGone));
}

#[test]
fn single_peer_happy_path() {
    let mut state = fresh_state(4);
    let mut handler = live(&mut state, 1, vec![0xF0]);
    let mut now = 0u64;
    for expected in 0..4u32 {
        let before = state.get_downloaded_bytes();
        let piece = match handler.task_peer_chunk_requester(&mut state, now) {
            RequesterStep::Request(p) => p,
            other => panic!("{:?}", other),
        };
        assert_eq!(piece.get(), expected);
        let last = download(&mut handler, &mut state, expected, 3, now + MS);
        assert_eq!(completed_in(&last), None);
        assert!(state.locked.inflight_pieces.contains_key(&expected));
        now += 7 * MS;
        let last = Some(handler.on_received_message(&mut state, block(expected, 3), now).unwrap());
        assert_eq!(completed_in(&last), Some(7 * MS));
        assert!(!state.locked.inflight_pieces.contains_key(&expected));
        assert_eq!(state.locked.unchecked_pieces.get(&expected), Some(&(7 * MS)));
        assert_eq!(state.get_downloaded_bytes(), before);
        let checked = handler.on_piece_checked(&mut state, piece, true);
        assert!(checked.counted);
        assert_eq!(checked.finished, expected == 3);
        assert!(checked.haves.is_empty());
        assert!(state.get_downloaded_bytes() > before);
    }
    assert_eq!(state.stats.downloaded_and_checked_pieces, 4);
    assert_eq!(state.stats.downloaded_and_checked_bytes, 262144);
    assert_eq!(state.stats.have_bytes, 262144);
    assert_eq!(state.stats.fetched_bytes, 262144);
    assert_eq!(state.stats.total_piece_download_ms, 28);
    assert!(state.is_finished());
    assert!(state.wait_until_completed());
    assert_eq!(state.get_left_to_download_bytes(), 0);
    assert_eq!(state.locked.chunks.get_have_pieces().as_raw_slice(), &[0xF0u8][..]);
    assert!(state.locked.chunks.iter_needed_pieces().is_empty());
    let c = state.peers.peer_counters(addr(1)).unwrap();
    assert_eq!(
        (c.fetched_bytes, c.fetched_chunks, c.downloaded_and_checked_pieces, c.downloaded_and_checked_bytes),
        (262144, 16, 4, 262144)
    );
    assert!(state.peers.live_inflight_requests(addr(1)).is_none());
    assert!(matches!(handler.task_peer_chunk_requester(&mut state, now), RequesterStep::Finished));
}

#[test]
fn finish_path_disconnects_the_peers_that_have_everything() {
    let mut state = fresh_state(2);
    // seeder and half have sent their bitfields; leecher is interested in piece 1
    let mut seeder = live(&mut state, 1, vec![0b1100_0000]);
    let _half = live(&mut state, 2, vec![0b1000_0000]);
    let _other_seeder = live(&mut state, 3, vec![0b1111_1111]);
    state.peers.mark_peer_interested(addr(2), true);
    state.add_peer_if_not_seen(addr(4));
    for piece in 0..2u32 {
        let p = match seeder.task_peer_chunk_requester(&mut state, 0) {
            RequesterStep::Request(p) => p,
            other => panic!("{:?}", other),
        };
        let last = download(&mut seeder, &mut state, piece, 4, 3 * MS);
        assert_eq!(completed_in(&last), Some(3 * MS));
        let checked = seeder.on_piece_checked(&mut state, p, true);
        assert!(checked.counted);
        if piece == 0 {
            assert!(!checked.finished);
            assert!(checked.disconnect.is_empty());
            // peer 2 is interested but has piece 0
            assert!(checked.haves.is_empty());
        } else {
            assert!(checked.finished);
            let mut gone = checked.disconnect;
            gone.sort();
            assert_eq!(gone, vec![addr(1), addr(3)]);
            assert_eq!(checked.haves, vec![addr(2)]);
        }
    }
    assert!(state.wait_until_completed());
    assert_eq!(state.peers.peer_state_kind(addr(1)), Some(PeerStateKind::NotNeeded));
    assert_eq!(state.peers.peer_state_kind(addr(2)), Some(PeerStateKind::Live));
    assert_eq!(state.peers.peer_state_kind(addr(3)), Some(PeerStateKind::NotNeeded));
    assert_eq!(state.peers.peer_state_kind(addr(4)), Some(PeerStateKind::Queued));
    let s = state.peers.stats();
    assert_eq!((s.queued, s.connecting, s.live, s.dead, s.not_needed, s.seen), (1, 0, 1, 0, 2, 4));
    // the session of a peer that was told to go ends without an error
    assert!(matches!(seeder.on_peer_died(&mut state, false), PeerDeath::NotNeeded));
    assert_eq!(state.peers.peer_state_kind(addr(1)), Some(PeerStateKind::NotNeeded));
    assert_eq!(state.peers.stats().not_needed, 2);
}

#[test]
fn disconnect_all_peers_that_have_full_torrent_spares_the_others() {
    let mut state = fresh_state(4);
    let handler = live(&mut state, 1, vec![0xF0]);
    let _partial = live(&mut state, 2, vec![0xE0]);
    let _connecting = connect(&mut state, 3);
    let gone = handler.disconnect_all_peers_that_have_full_torrent(&mut state);
    assert_eq!(gone, vec![addr(1)]);
    assert_eq!(state.peers.peer_state_kind(addr(1)), Some(PeerStateKind::NotNeeded));
    assert_eq!(state.peers.peer_state_kind(addr(2)), Some(PeerStateKind::Live));
    assert_eq!(state.peers.peer_state_kind(addr(3)), Some(PeerStateKind::Live));
    assert!(handler.disconnect_all_peers_that_have_full_torrent(&mut state).is_empty());
    let s = state.peers.stats();
    assert_eq!((s.live, s.not_needed), (2, 1));
}

#[test]
fn late_have_goes_to_the_interested_peer_that_lacks_the_piece() {
    let mut state = fresh_state(8);
    let mut source = live(&mut state, 1, vec![0xFF]);
    let _p = live(&mut state, 2, vec![0b0000_0001]);
    let _q = live(&mut state, 3, vec![0b1000_0000]);
    state.peers.mark_peer_interested(addr(2), true);
    state.peers.mark_peer_interested(addr(3), true);
    // make piece 7 the one that the source is asked for
    for p in 0..7u32 {
        let index = state.lengths.validate_piece_index(p).unwrap();
        state.locked.chunks.reserve_needed_piece(index);
    }
    let piece = match source.task_peer_chunk_requester(&mut state, 0) {
        RequesterStep::Request(p) => p,
        other => panic!("{:?}", other),
    };
    assert_eq!(piece.get(), 7);
    let last = download(&mut source, &mut state, 7, 4, MS);
    assert_eq!(completed_in(&last), Some(MS));
    let checked = source.on_piece_checked(&mut state, piece, true);
    assert!(checked.counted);
    assert!(!checked.finished);
    assert!(checked.disconnect.is_empty());
    assert_eq!(checked.haves, vec![addr(3)]);
}

#[test]
fn duplicate_piece_is_not_counted_twice() {
    let mut state = fresh_state(4);
    let mut handler = live(&mut state, 1, vec![0xF0]);
    let piece = match handler.task_peer_chunk_requester(&mut state, 0) {
        RequesterStep::Request(p) => p,
        other => panic!("{:?}", other),
    };
    let last = download(&mut handler, &mut state, 0, 4, MS);
    assert_eq!(completed_in(&last), Some(MS));
    let first = handler.on_piece_checked(&mut state, piece, true);
    assert!(first.counted);
    assert!(state.locked.unchecked_pieces.is_empty());
    let stats = state.stats;
    // the check is reported once more
    let second = handler.on_piece_checked(&mut state, piece, true);
    assert!(!second.counted);
    assert!(second.haves.is_empty());
    assert_eq!(state.stats.downloaded_and_checked_pieces, stats.downloaded_and_checked_pieces);
    assert_eq!(state.stats.downloaded_and_checked_bytes, 65536);
    assert_eq!(state.stats.have_bytes, 65536);
    assert_eq!(state.peers.peer_counters(addr(1)).unwrap().downloaded_and_checked_pieces, 1);
    // the peer is asked for a chunk of the piece again and sends it: the chunk is
    // dropped
    let chunk = state.lengths.iter_chunk_infos(piece)[0];
    assert!(matches!(handler.request_chunk(&mut state, &chunk), ChunkRequest::Send(_)));
    let r = handler.on_received_message(&mut state, block(0, 0), 2 * MS);
    assert!(is_dropped(&r));
    assert_eq!(state.stats.downloaded_and_checked_pieces, 1);
    assert_eq!(state.stats.fetched_bytes, 5 * 16384);
}

#[test]
fn chunk_of_a_complete_piece_is_dropped() {
    let mut state = fresh_state(4);
    let mut handler = live(&mut state, 1, vec![0xF0]);
    handler.task_peer_chunk_requester(&mut state, 0);
    download(&mut handler, &mut state, 0, 4, MS);
    // the piece awaits its check; another peer has reserved it meanwhile and the
    // first peer sends a chunk once more
    let piece0 = state.lengths.validate_piece_index(0).unwrap();
    state.locked.inflight_pieces.insert(0, InflightPiece { peer: addr(1), started: 0 });
    let chunk = state.lengths.iter_chunk_infos(piece0)[2];
    handler.request_chunk(&mut state, &chunk);
    let r = handler.on_received_message(&mut state, block(0, 2), 2 * MS);
    assert!(is_dropped(&r));
    assert!(state.locked.inflight_pieces.contains_key(&0));
}

#[test]
fn checksum_mismatch_requeues_the_piece_and_keeps_the_peer() {
    let mut state = fresh_state(4);
    let mut handler = live(&mut state, 1, vec![0xF0]);
    let piece = match handler.task_peer_chunk_requester(&mut state, 0) {
        RequesterStep::Request(p) => p,
        other => panic!("{:?}", other),
    };
    download(&mut handler, &mut state, 0, 4, MS);
    assert_eq!(state.locked.chunks.iter_needed_pieces(), vec![1, 2, 3]);
    assert!(state.locked.chunks.is_piece_complete(piece));
    let checked = handler.on_piece_checked(&mut state, piece, false);
    assert!(!checked.counted);
    assert!(!checked.finished);
    assert!(checked.disconnect.is_empty());
    assert!(checked.haves.is_empty());
    assert_eq!(state.locked.chunks.iter_needed_pieces(), vec![0, 1, 2, 3]);
    assert!(!state.locked.chunks.is_piece_complete(piece));
    assert_eq!(state.locked.chunks.chunk_status.as_raw_slice(), &[0u8, 0u8][..]);
    assert_eq!(state.stats.downloaded_and_checked_pieces, 0);
    assert_eq!(state.stats.downloaded_and_checked_bytes, 0);
    assert_eq!(state.stats.have_bytes, 0);
    assert_eq!(state.peers.peer_state_kind(addr(1)), Some(PeerStateKind::Live));
    assert_eq!(state.peers.peer_counters(addr(1)).unwrap().errors, 0);
    // the piece can be asked for again
    match handler.task_peer_chunk_requester(&mut state, 2 * MS) {
        RequesterStep::Request(p) => assert_eq!(p.get(), 0),
        other => panic!("{:?}", other),
    }
}

#[test]
fn unsolicited_piece_is_a_protocol_violation() {
    let mut state = fresh_state(4);
    let mut handler = live(&mut state, 1, vec![0xF0]);
    let r = handler.on_received_message(&mut state, block(1, 0), MS);
    assert_eq!(r.unwrap_err(), Error::UnsolicitedPiece);
    // the chunk was fetched all the same
    assert_eq!(state.stats.fetched_bytes, 16384);
    let c = state.peers.peer_counters(addr(1)).unwrap();
    assert_eq!((c.fetched_bytes, c.fetched_chunks, c.errors), (16384, 1, 0));
    assert_eq!(state.locked.chunks.chunk_status.as_raw_slice(), &[0u8, 0u8][..]);
    let needed = state.locked.chunks.iter_needed_pieces();
    assert!(matches!(handler.on_peer_died(&mut state, true), PeerDeath::Retry(_)));
    assert_eq!(state.peers.peer_state_kind(addr(1)), Some(PeerStateKind::Dead));
    assert_eq!(state.peers.peer_counters(addr(1)).unwrap().errors, 1);
    assert_eq!(state.locked.chunks.iter_needed_pieces(), needed);
    // another peer picks the piece up
    let mut other = live(&mut state, 2, vec![0b0100_0000]);
    match other.task_peer_chunk_requester(&mut state, 2 * MS) {
        RequesterStep::Request(p) => assert_eq!(p.get(), 1),
        other => panic!("{:?}", other),
    }
}

#[test]
fn invalid_piece_is_an_error() {
    let mut state = fresh_state(4);
    let mut handler = live(&mut state, 1, vec![0xF0]);
    let short = Message::Piece(Piece { index: 0, begin: 0, block: vec![0u8; 100] });
    assert_eq!(
        handler.on_received_message(&mut state, short, 0).unwrap_err(),
        Error::InvalidPiece
    );
    let off = Message::Piece(Piece { index: 0, begin: 5, block: vec![0u8; 16384] });
    assert_eq!(handler.on_received_message(&mut state, off, 0).unwrap_err(), Error::InvalidPiece);
    assert_eq!(
        handler.on_received_message(&mut state, block(4, 0), 0).unwrap_err(),
        Error::InvalidPiece
    );
    assert_eq!(state.stats.fetched_bytes, 0);
    assert_eq!(state.peers.peer_counters(addr(1)).unwrap().fetched_chunks, 0);
}

#[test]
fn piece_from_a_peer_that_is_not_live_is_an_error() {
    let mut state = fresh_state(4);
    let handler = live(&mut state, 1, vec![0xF0]);
    state.peers.mark_peer_not_needed(addr(1));
    let piece = Piece { index: 0, begin: 0, block: vec![0u8; 16384] };
    assert_eq!(handler.on_received_piece(&mut state, &piece, 0).unwrap_err(), Error::PeerNotFound);
    state.peers.drop_peer(addr(1));
    assert_eq!(handler.on_received_piece(&mut state, &piece, 0).unwrap_err(), Error::PeerNotFound);
}

#[test]
fn stealing_needs_twenty_verified_pieces() {
    let mut state = fresh_state(4);
    let mut a = live(&mut state, 1, vec![0xF0]);
    let b = live(&mut state, 2, vec![0xF0]);
    a.task_peer_chunk_requester(&mut state, 0);
    state.stats.downloaded_and_checked_pieces = 19;
    state.stats.total_piece_download_ms = 19;
    assert!(b.try_steal_old_slow_piece(&mut state, 2, 1_000_000 * MS).is_none());
    state.stats.downloaded_and_checked_pieces = 20;
    state.stats.total_piece_download_ms = 20;
    // the mean is 1 ms; 2 ms are not more than twice the mean, 2 ms and 1 ns are
    assert!(b.try_steal_old_slow_piece(&mut state, 2, 2 * MS).is_none());
    assert_eq!(state.locked.inflight_pieces.get(&0).unwrap().peer, addr(1));
    assert_eq!(b.try_steal_old_slow_piece(&mut state, 2, 2 * MS + 1).unwrap().get(), 0);
    let ip = state.locked.inflight_pieces.get(&0).unwrap();
    assert_eq!((ip.peer, ip.started), (addr(2), 2 * MS + 1));
    // nobody steals from themselves
    assert!(b.try_steal_old_slow_piece(&mut state, 2, 1_000_000 * MS).is_none());
}

#[test]
fn stealing_takes_the_piece_that_has_been_in_flight_the_longest() {
    let mut state = fresh_state(4);
    let me = live(&mut state, 9, vec![0xF0]);
    state.stats.downloaded_and_checked_pieces = 20;
    state.stats.total_piece_download_ms = 200;
    state.locked.inflight_pieces.insert(0, InflightPiece { peer: addr(1), started: 50 * MS });
    state.locked.inflight_pieces.insert(1, InflightPiece { peer: addr(2), started: 10 * MS });
    state.locked.inflight_pieces.insert(2, InflightPiece { peer: addr(9), started: 0 });
    state.locked.inflight_pieces.insert(3, InflightPiece { peer: addr(3), started: 30 * MS });
    // the mean is 10 ms; piece 1 has been in flight for 100 ms at 110 ms
    assert!(me.try_steal_old_slow_piece(&mut state, 10, 110 * MS).is_none());
    assert_eq!(me.try_steal_old_slow_piece(&mut state, 10, 110 * MS + 1).unwrap().get(), 1);
    assert_eq!(state.locked.inflight_pieces.get(&1).unwrap().peer, addr(9));
    assert_eq!(state.locked.inflight_pieces.get(&1).unwrap().started, 110 * MS + 1);
    assert_eq!(state.locked.inflight_pieces.get(&0).unwrap().peer, addr(1));
    assert_eq!(state.locked.inflight_pieces.get(&3).unwrap().peer, addr(3));
    // next in line is piece 3
    assert_eq!(me.try_steal_old_slow_piece(&mut state, 2, 110 * MS + 1).unwrap().get(), 3);
    // a started time in the future counts as no time at all
    state.locked.inflight_pieces.insert(0, InflightPiece { peer: addr(1), started: u64::MAX });
    assert!(me.try_steal_old_slow_piece(&mut state, 0, 110 * MS + 1).is_none());
}

#[test]
fn stolen_piece_is_completed_by_the_thief_and_counted_once() {
    let mut state = fresh_state(24);
    let mut warm = live(&mut state, 1, vec![0xFF, 0xFF, 0xFF]);
    // 20 pieces arrive in 1 ms each
    let mut now = 0;
    for piece in 0..20u32 {
        let p = match warm.task_peer_chunk_requester(&mut state, now) {
            RequesterStep::Request(p) => p,
            other => panic!("{:?}", other),
        };
        assert_eq!(p.get(), piece);
        now += MS;
        let last = download(&mut warm, &mut state, piece, 4, now);
        assert_eq!(completed_in(&last), Some(MS));
        warm.on_piece_checked(&mut state, p, true);
    }
    assert_eq!(state.stats.downloaded_and_checked_pieces, 20);
    assert_eq!(state.stats.total_piece_download_ms, 20);
    // peer A reserves piece 20, sends 3 of its 4 chunks and goes silent
    let mut a = live(&mut state, 2, vec![0, 0, 0b0000_1000]);
    match a.task_peer_chunk_requester(&mut state, now) {
        RequesterStep::Request(p) => assert_eq!(p.get(), 20),
        other => panic!("{:?}", other),
    }
    let reserved_at = now;
    download(&mut a, &mut state, 20, 3, now);
    // peer B has pieces 20 and 21. While piece 20 has not been in flight for more than
    // ten times the mean of 1 ms, B takes the next piece of the queue
    let mut b = live(&mut state, 3, vec![0, 0, 0b0000_1100]);
    now = reserved_at + 10 * MS;
    match b.task_peer_chunk_requester(&mut state, now) {
        RequesterStep::Request(p) => assert_eq!(p.get(), 21),
        other => panic!("{:?}", other),
    }
    assert_eq!(state.locked.inflight_pieces.get(&20).unwrap().peer, addr(2));
    // after that B steals it
    now = reserved_at + 10 * MS + 1;
    let stolen = match b.task_peer_chunk_requester(&mut state, now) {
        RequesterStep::Request(p) => p,
        other => panic!("{:?}", other),
    };
    assert_eq!(stolen.get(), 20);
    let ip = state.locked.inflight_pieces.get(&20).unwrap();
    assert_eq!((ip.peer, ip.started), (addr(3), now));
    assert_eq!(b.locked.previously_requested_pieces.as_raw_slice(), &[0u8, 0, 0b0000_1100][..]);
    // A's last chunk arrives late and is dropped
    let late = a.on_received_message(&mut state, block(20, 3), now + 1);
    assert!(is_dropped(&late));
    assert!(state.locked.inflight_pieces.contains_key(&20));
    // B fetches the chunks; the first three were there already
    let before = state.stats.downloaded_and_checked_pieces;
    let last = download(&mut b, &mut state, 20, 4, now + 2 * MS);
    assert_eq!(completed_in(&last), Some(2 * MS));
    let checked = b.on_piece_checked(&mut state, stolen, true);
    assert!(checked.counted);
    assert_eq!(state.stats.downloaded_and_checked_pieces, before + 1);
    assert_eq!(state.peers.peer_counters(addr(3)).unwrap().downloaded_and_checked_pieces, 1);
    assert_eq!(state.peers.peer_counters(addr(2)).unwrap().downloaded_and_checked_pieces, 0);
}

#[test]
fn slow_piece_is_stolen_when_the_queue_has_nothing_for_the_peer() {
    let mut state = fresh_state(4);
    let mut a = live(&mut state, 1, vec![0x80]);
    let mut b = live(&mut state, 2, vec![0x80]);
    a.task_peer_chunk_requester(&mut state, 0);
    state.stats.downloaded_and_checked_pieces = 20;
    state.stats.total_piece_download_ms = 20;
    // the mean is 1 ms; B has piece 0 only, which A has reserved
    assert!(matches!(
        b.task_peer_chunk_requester(&mut state, 2 * MS),
        RequesterStep::NothingToRequest
    ));
    assert_eq!(state.locked.inflight_pieces.get(&0).unwrap().peer, addr(1));
    match b.task_peer_chunk_requester(&mut state, 2 * MS + 1) {
        RequesterStep::Request(p) => assert_eq!(p.get(), 0),
        other => panic!("{:?}", other),
    }
    assert_eq!(state.locked.inflight_pieces.get(&0).unwrap().peer, addr(2));
}

#[test]
fn very_slow_piece_is_stolen_before_the_queue_is_looked_at() {
    let mut state = fresh_state(4);
    let mut a = live(&mut state, 1, vec![0xF0]);
    let mut b = live(&mut state, 2, vec![0xF0]);
    a.task_peer_chunk_requester(&mut state, 0);
    state.stats.downloaded_and_checked_pieces = 20;
    state.stats.total_piece_download_ms = 20;
    // B takes the next of the queue while A's piece is not very slow
    match b.task_peer_chunk_requester(&mut state, 10 * MS) {
        RequesterStep::Request(p) => assert_eq!(p.get(), 1),
        other => panic!("{:?}", other),
    }
    // and steals A's piece once it is more than ten times the mean old, though
    // the queue has pieces
    match b.task_peer_chunk_requester(&mut state, 10 * MS + 1) {
        RequesterStep::Request(p) => assert_eq!(p.get(), 0),
        other => panic!("{:?}", other),
    }
    assert_eq!(state.locked.inflight_pieces.get(&0).unwrap().peer, addr(2));
    assert_eq!(state.locked.chunks.iter_needed_pieces(), vec![2, 3]);
}

#[test]
fn death_of_a_live_peer_puts_its_requests_back() {
    let mut state = fresh_state(4);
    let mut handler = live(&mut state, 1, vec![0xF0]);
    for _ in 0..3 {
        handler.task_peer_chunk_requester(&mut state, 0);
    }
    // piece 0: one chunk has arrived; piece 1: all have; piece 2: none has
    download(&mut handler, &mut state, 0, 1, MS);
    download(&mut handler, &mut state, 1, 4, MS);
    download(&mut handler, &mut state, 2, 0, MS);
    assert_eq!(state.locked.chunks.iter_needed_pieces(), vec![3]);
    let mut requests = state.peers.live_inflight_requests(addr(1)).unwrap();
    requests.sort();
    assert_eq!(requests, vec![1, 2, 3, 2 << 32, (2 << 32) | 1, (2 << 32) | 2, (2 << 32) | 3]);
    let downloaded = state.get_downloaded_bytes();
    assert!(matches!(handler.on_peer_died(&mut state, true), PeerDeath::Retry(_)));
    // pieces 0 and 2 are needed again; piece 1 has all its chunks and waits for
    // its check
    assert_eq!(state.locked.chunks.iter_needed_pieces(), vec![0, 2, 3]);
    assert_eq!(state.locked.chunks.chunk_status.as_raw_slice(), &[0b1000_1111u8, 0u8][..]);
    assert_eq!(state.get_downloaded_bytes(), downloaded);
    assert_eq!(state.peers.peer_state_kind(addr(1)), Some(PeerStateKind::Dead));
    let s = state.peers.stats();
    assert_eq!((s.live, s.dead), (0, 1));
}

#[test]
fn clean_end_of_a_session_makes_the_peer_not_needed() {
    let mut state = fresh_state(4);
    let mut handler = live(&mut state, 1, vec![0xF0]);
    handler.task_peer_chunk_requester(&mut state, 0);
    download(&mut handler, &mut state, 0, 0, MS);
    assert!(matches!(handler.on_peer_died(&mut state, false), PeerDeath::NotNeeded));
    assert_eq!(state.peers.peer_state_kind(addr(1)), Some(PeerStateKind::NotNeeded));
    assert_eq!(state.peers.peer_counters(addr(1)).unwrap().errors, 0);
    assert_eq!(state.locked.chunks.iter_needed_pieces(), vec![0, 1, 2, 3]);
    let s = state.peers.stats();
    assert_eq!((s.live, s.not_needed), (0, 1));
}

#[test]
fn death_of_a_connecting_peer() {
    let mut state = fresh_state(4);
    state.add_peer_if_not_seen(addr(1));
    let handler = state.task_manage_peer(addr(1)).unwrap();
    assert!(matches!(handler.on_peer_died(&mut state, true), PeerDeath::Retry(_)));
    assert_eq!(state.peers.peer_state_kind(addr(1)), Some(PeerStateKind::Dead));
    assert_eq!(state.peers.peer_counters(addr(1)).unwrap().errors, 1);
    let s = state.peers.stats();
    assert_eq!((s.queued, s.connecting, s.dead), (0, 0, 1));
}

#[test]
fn death_with_an_error_after_the_download_finished() {
    let mut state = fresh_state(1);
    let mut handler = live(&mut state, 1, vec![0x00]);
    let mut source = live(&mut state, 2, vec![0x80]);
    let p = match source.task_peer_chunk_requester(&mut state, 0) {
        RequesterStep::Request(p) => p,
        other => panic!("{:?}", other),
    };
    download(&mut source, &mut state, 0, 4, MS);
    assert!(source.on_piece_checked(&mut state, p, true).finished);
    handler.on_i_am_choked();
    assert!(matches!(handler.on_peer_died(&mut state, true), PeerDeath::NotNeeded));
    assert_eq!(state.peers.peer_state_kind(addr(1)), Some(PeerStateKind::NotNeeded));
    assert_eq!(state.peers.peer_counters(addr(1)).unwrap().errors, 1);
}

#[test]
fn death_of_a_peer_in_a_state_without_a_session() {
    let mut state = fresh_state(4);
    let gone = PeerHandler {
        addr: addr(7),
        locked: librqbit::peer_handler::PeerHandlerLocked {
            i_am_choked: true,
            previously_requested_pieces: BF::new(),
        },
    };
    assert!(matches!(gone.on_peer_died(&mut state, true), PeerDeath::NotFound));
    assert!(state.peers.peer_handles().is_empty());

    // not needed stays not needed
    let handler = live(&mut state, 1, vec![0xF0]);
    state.peers.mark_peer_not_needed(addr(1));
    assert!(matches!(handler.on_peer_died(&mut state, true), PeerDeath::NotNeeded));
    assert_eq!(state.peers.peer_state_kind(addr(1)), Some(PeerStateKind::NotNeeded));
    assert_eq!(state.peers.peer_counters(addr(1)).unwrap().errors, 0);
    assert_eq!(state.peers.stats().not_needed, 1);

    // dead and queued peers are forgotten
    let handler = live(&mut state, 2, vec![0xF0]);
    state.peers.set_peer_state(addr(2), librqbit::peer_state::PeerState::Dead);
    assert!(matches!(handler.on_peer_died(&mut state, false), PeerDeath::WrongState));
    assert!(!state.peers.contains(addr(2)));
    let handler = live(&mut state, 3, vec![0xF0]);
    state.peers.set_peer_state(addr(3), librqbit::peer_state::PeerState::Queued);
    assert!(matches!(handler.on_peer_died(&mut state, true), PeerDeath::WrongState));
    assert!(!state.peers.contains(addr(3)));
    let s = state.peers.stats();
    assert_eq!((s.queued, s.connecting, s.live, s.dead, s.not_needed, s.seen), (0, 0, 0, 0, 1, 3));
}

#[test]
fn backoff_dead_then_queued_then_retried() {
    let mut state = fresh_state(4);
    state.add_peer_if_not_seen(addr(1));
    // the peer fails immediately, again and again: the delays grow sixfold
    let mut low = 5_000u64;
    for round in 1..=3u32 {
        assert!(state.task_peer_adder(addr(1)));
        let handler = state.task_manage_peer(addr(1)).unwrap();
        let delay = match handler.on_peer_died(&mut state, true) {
            PeerDeath::Retry(delay) => delay,
            other => panic!("{:?}", other),
        };
        assert!(delay >= std::time::Duration::from_millis(low));
        assert!(delay <= std::time::Duration::from_millis(3 * low + 1));
        low *= 6;
        assert_eq!(state.peers.peer_state_kind(addr(1)), Some(PeerStateKind::Dead));
        assert_eq!(state.peers.peer_counters(addr(1)).unwrap().errors, round);
        assert_eq!(state.peers.peer_counters(addr(1)).unwrap().connection_attempts, round);
        // while dead the peer cannot be connected to
        assert_eq!(state.task_manage_peer(addr(1)).unwrap_err(), Error::InvalidPeerState);
        // the delay has passed
        assert_eq!(state.peers.mark_peer_queued_again(addr(1)), Ok(()));
        assert_eq!(state.peers.peer_state_kind(addr(1)), Some(PeerStateKind::Queued));
    }
}

#[test]
fn settle_dead_peer_forgets_a_peer_whose_backoff_has_given_up() {
    let mut state = fresh_state(4);
    state.add_peer_if_not_seen(addr(1));
    state.peers.set_peer_state(addr(1), librqbit::peer_state::PeerState::Dead);
    let delay = std::time::Duration::from_secs(60);
    match settle_dead_peer(&mut state, addr(1), Some(delay)) {
        PeerDeath::Retry(d) => assert_eq!(d, delay),
        other => panic!("{:?}", other),
    }
    assert_eq!(state.peers.peer_state_kind(addr(1)), Some(PeerStateKind::Dead));
    assert!(matches!(settle_dead_peer(&mut state, addr(1), None), PeerDeath::GivenUp));
    assert!(!state.peers.contains(addr(1)));
    let s = state.peers.stats();
    assert_eq!((s.queued, s.dead, s.seen), (0, 0, 1));
    assert!(matches!(settle_dead_peer(&mut state, addr(1), None), PeerDeath::GivenUp));
}

#[test]
fn a_piece_is_in_flight_from_one_peer_at_a_time() {
    let mut state = fresh_state(4);
    let mut a = live(&mut state, 1, vec![0xF0]);
    let mut b = live(&mut state, 2, vec![0xF0]);
    let first = match a.task_peer_chunk_requester(&mut state, 0) {
        RequesterStep::Request(p) => p.get(),
        other => panic!("{:?}", other),
    };
    let second = match b.task_peer_chunk_requester(&mut state, 0) {
        RequesterStep::Request(p) => p.get(),
        other => panic!("{:?}", other),
    };
    assert_ne!(first, second);
    assert_eq!(state.locked.inflight_pieces.get(&first).unwrap().peer, addr(1));
    assert_eq!(state.locked.inflight_pieces.get(&second).unwrap().peer, addr(2));
    assert_eq!(state.locked.inflight_pieces.len(), 2);
}

#[test]
fn report_on_a_piece_that_awaits_no_check_changes_nothing() {
    let mut state = fresh_state(4);
    let mut handler = live(&mut state, 1, vec![0xF0]);
    let piece = match handler.task_peer_chunk_requester(&mut state, 0) {
        RequesterStep::Request(p) => p,
        other => panic!("{:?}", other),
    };
    download(&mut handler, &mut state, 0, 3, MS);
    for valid in [true, false] {
        let checked = handler.on_piece_checked(&mut state, piece, valid);
        assert!(!checked.counted);
        assert!(!checked.finished);
        assert!(checked.disconnect.is_empty());
        assert!(checked.haves.is_empty());
    }
    assert_eq!(state.stats.downloaded_and_checked_pieces, 0);
    assert_eq!(state.get_downloaded_bytes(), 0);
    assert_eq!(state.locked.chunks.get_have_pieces().as_raw_slice(), &[0u8][..]);
    assert_eq!(state.locked.chunks.chunk_status.as_raw_slice(), &[0b1110_0000u8, 0u8][..]);
    assert_eq!(state.locked.chunks.iter_needed_pieces(), vec![1, 2, 3]);
}

#[test]
fn download_of_some_pieces_only_finishes_without_the_others() {
    // pieces 1 and 3 are wanted; 0 and 2 are left out
    let lengths = Lengths::new(262144, 65536, None).unwrap();
    let tracker = ChunkTracker::new(BF::from_vec(vec![0b0101_0000]), BF::zeroed(1), lengths);
    let needed = tracker.calc_unfinished_bytes();
    assert_eq!(needed, 131072);
    let mut state =
        TorrentState::new(info(), Id20([1u8; 20]), Id20([2u8; 20]), tracker, lengths, 0, needed, None);
    let mut handler = live(&mut state, 1, vec![0xF0]);
    assert_eq!(fetch(&mut handler, &mut state, 0), 1);
    assert!(!state.is_finished());
    assert_eq!(state.get_left_to_download_bytes(), 65536);
    assert_eq!(fetch(&mut handler, &mut state, 0), 3);
    assert!(state.is_finished());
    assert_eq!(state.locked.chunks.get_have_pieces().as_raw_slice(), &[0b0101_0000u8][..]);
    assert_eq!(state.peers.peer_state_kind(addr(1)), Some(PeerStateKind::NotNeeded));
}

fn secs(n: u64) -> std::time::Duration {
    std::time::Duration::from_secs(n)
}

#[test]
fn verified_piece_starts_the_backoff_of_its_peer_over() {
    let mut state = fresh_state(4);
    let mut handler = live(&mut state, 1, vec![0xF0]);
    // two delays have been asked for: the next would be drawn around 360 s
    let first = state.peers.next_peer_backoff(addr(1)).unwrap().unwrap();
    assert!(first >= secs(5) && first <= secs(16));
    let second = state.peers.next_peer_backoff(addr(1)).unwrap().unwrap();
    assert!(second >= secs(30) && second <= secs(91));
    fetch(&mut handler, &mut state, 0);
    let again = state.peers.next_peer_backoff(addr(1)).unwrap().unwrap();
    assert!(again >= secs(5) && again <= secs(16));
}

#[test]
fn failed_check_leaves_the_backoff_alone() {
    let mut state = fresh_state(4);
    let mut handler = live(&mut state, 1, vec![0xF0]);
    state.peers.next_peer_backoff(addr(1));
    let piece = match handler.task_peer_chunk_requester(&mut state, 0) {
        RequesterStep::Request(p) => p,
        other => panic!("{:?}", other),
    };
    download(&mut handler, &mut state, 0, 4, MS);
    handler.on_piece_checked(&mut state, piece, false);
    let next = state.peers.next_peer_backoff(addr(1)).unwrap().unwrap();
    assert!(next >= secs(30) && next <= secs(91));
}

#[test]
fn clean_end_of_a_session_does_not_ask_the_backoff() {
    let mut state = fresh_state(4);
    let handler = live(&mut state, 1, vec![0xF0]);
    state.peers.next_peer_backoff(addr(1));
    assert!(matches!(handler.on_peer_died(&mut state, false), PeerDeath::NotNeeded));
    // the next delay is the second of the backoff, not the first and not the third
    let next = state.peers.next_peer_backoff(addr(1)).unwrap().unwrap();
    assert!(next >= secs(30) && next <= secs(91));
}

#[test]
fn error_after_the_download_finished_does_not_ask_the_backoff() {
    let mut state = fresh_state(1);
    let handler = live(&mut state, 1, vec![0x00]);
    let mut source = live(&mut state, 2, vec![0x80]);
    fetch(&mut source, &mut state, 0);
    assert!(state.is_finished());
    state.peers.next_peer_backoff(addr(1));
    assert!(matches!(handler.on_peer_died(&mut state, true), PeerDeath::NotNeeded));
    let next = state.peers.next_peer_backoff(addr(1)).unwrap().unwrap();
    assert!(next >= secs(30) && next <= secs(91));
}

#[test]
fn error_while_the_download_runs_asks_the_backoff_once() {
    let mut state = fresh_state(4);
    let handler = live(&mut state, 1, vec![0xF0]);
    match handler.on_peer_died(&mut state, true) {
        PeerDeath::Retry(delay) => assert!(delay >= secs(5) && delay <= secs(16)),
        other => panic!("{:?}", other),
    }
    let next = state.peers.next_peer_backoff(addr(1)).unwrap().unwrap();
    assert!(next >= secs(30) && next <= secs(91));
}
