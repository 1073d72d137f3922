//! The messages of the peer wire protocol that the engine reads and writes, as plain
//! values, and the framing of the one message the engine serialises itself.

use vstd::prelude::*;
use crate::lengths::ChunkInfo;

verus! {

/// A 20-byte identifier: an info hash or a peer id.
#[derive(Debug, Clone, Copy)]
pub struct Id20(pub [u8; 20]);

/// The fixed-size greeting that opens a connection.
#[derive(Debug, Clone, Copy)]
pub struct Handshake {
    pub reserved: u64,
    pub info_hash: [u8; 20],
    pub peer_id: [u8; 20],
}

/// A request for one chunk.
#[derive(Debug, Clone, Copy)]
pub struct Request {
    pub index: u32,
    pub begin: u32,
    pub length: u32,
}

/// One chunk of data.
#[derive(Debug)]
pub struct Piece {
    pub index: u32,
    pub begin: u32,
    pub block: Vec<u8>,
}

/// A message of the wire protocol.
#[derive(Debug)]
pub enum Message {
    Request(Request),
    Bitfield(Vec<u8>),
    KeepAlive,
    Have(u32),
    Choke,
    Unchoke,
    Interested,
    NotInterested,
    Piece(Piece),
    /// The extended handshake, passed through unread.
    Extended(Vec<u8>),
}

/// What the engine hands to the task that writes to a peer's socket.
#[derive(Debug)]
pub enum WriterRequest {
    /// Send this message.
    Message(Message),
    /// Read this chunk from disk and send it.
    ReadChunkRequest(ChunkInfo),
    /// Close the connection.
    Disconnect,
}

/// The message id of a bitfield message.
pub const MSGID_BITFIELD: u8 = 5;

/// The four bytes of `n`, most significant first.
pub open spec fn be_bytes(n: u32) -> Seq<u8> {
    seq![(n >> 24) as u8, (n >> 16) as u8, (n >> 8) as u8, n as u8]
}

/// A bitfield message on the wire: the length of what follows the prefix as four
/// big-endian bytes, the message id, the bitfield.
pub open spec fn bitfield_frame(payload: Seq<u8>) -> Seq<u8> {
    be_bytes((payload.len() + 1) as u32) + seq![MSGID_BITFIELD] + payload
}

/// Replaces the contents of `buf` by the bitfield message that carries `payload`
/// and returns the message's length. A payload too long for the 32-bit length
/// prefix leaves `buf` alone and gives `None`.
pub fn serialize_bitfield_message(payload: &[u8], buf: &mut Vec<u8>) -> (r: Option<usize>)
    ensures
        r is Some <==> payload@.len() + 5 <= u32::MAX,
        r matches Some(n) ==> n == payload@.len() + 5 && final(buf)@ == bitfield_frame(payload@),
        r is None ==> final(buf)@ == old(buf)@,
{
    if payload.len() > (u32::MAX - 5) as usize {
        return None;
    }
    let n: u32 = (payload.len() + 1) as u32;
    buf.clear();
    buf.push((n >> 24) as u8);
    buf.push((n >> 16) as u8);
    buf.push((n >> 8) as u8);
    buf.push(n as u8);
    buf.push(MSGID_BITFIELD);
    let mut i: usize = 0;
    while i < payload.len()
        invariant
            i <= payload@.len(),
            payload@.len() + 5 <= u32::MAX,
            buf@ == (be_bytes(n) + seq![MSGID_BITFIELD]) + payload@.subrange(0, i as int),
        decreases payload@.len() - i,
    {
        buf.push(payload[i]);
        assert(buf@ =~= (be_bytes(n) + seq![MSGID_BITFIELD]) + payload@.subrange(0, i + 1));
        i += 1;
    }
    assert(payload@.subrange(0, i as int) =~= payload@);
    assert(buf@ =~= bitfield_frame(payload@));
    Some(payload.len() + 5)
}

} // verus!
