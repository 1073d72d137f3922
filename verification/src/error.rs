//! Why the engine refused an event.

use vstd::prelude::*;

verus! {

/// The ways in which an operation of the engine fails. An error that comes out of
/// the handling of a peer's message ends that peer's session.
#[derive(Debug, Clone, Copy, PartialEq, Eq)]
pub enum Error {
    /// The peer is not in the registry.
    PeerNotFound,
    /// The peer is not in the state that the operation starts from.
    InvalidPeerState,
    /// A request names a piece that the torrent does not have.
    InvalidPieceIndex,
    /// A request names no chunk of its piece.
    InvalidChunkRequest,
    /// A request asks for a chunk of a piece that is not verified.
    ChunkNotReady,
    /// A bitfield does not have one bit per piece, rounded up to whole bytes.
    UnexpectedBitfieldSize,
    /// A block of data is no chunk of any piece.
    InvalidPiece,
    /// A block of data was not asked for.
    UnsolicitedPiece,
}

} // verus!
