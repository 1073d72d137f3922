//! How a torrent of a given size splits into pieces, and each piece into chunks.

use vstd::prelude::*;
use vstd::arithmetic::div_mod::{lemma_fundamental_div_mod, lemma_mod_bound};

verus! {

/// The chunk length used when none is asked for.
pub const CHUNK_SIZE: u32 = 16384;

/// The number of blocks of size `b` needed to cover `a`.
pub open spec fn ceil_div(a: int, b: int) -> int {
    a / b + if a % b == 0 {
        0int
    } else {
        1int
    }
}

/// For positive `b`, `ceil_div(a, b)` is the least count of blocks that covers `a`.
pub proof fn lemma_ceil_div(a: int, b: int)
    requires
        0 <= a,
        0 < b,
    ensures
        0 <= ceil_div(a, b),
        a <= ceil_div(a, b) * b,
        ceil_div(a, b) * b < a + b,
        a > 0 ==> ceil_div(a, b) >= 1,
        a <= b && a > 0 ==> ceil_div(a, b) == 1,
        ceil_div(a, b) <= a,
{
    lemma_fundamental_div_mod(a, b);
    lemma_mod_bound(a, b);
    let q = a / b;
    let r = a % b;
    assert(a == b * q + r);
    assert(q >= 0) by (nonlinear_arith)
        requires
            a == b * q + r,
            0 <= r < b,
            0 <= a,
            0 < b,
    ;
    assert((q + 1) * b == q * b + b) by (nonlinear_arith);
    assert(q * b == b * q) by (nonlinear_arith);
    if q == 0 {
        assert(b * q == 0) by (nonlinear_arith)
            requires
                q == 0,
        ;
    }
    assert(q <= a) by (nonlinear_arith)
        requires
            a == b * q + r,
            0 <= r,
            0 <= q,
            1 <= b,
    ;
    if r != 0 {
        assert(q < a) by (nonlinear_arith)
            requires
                a == b * q + r,
                0 < r,
                0 <= q,
                1 <= b,
        ;
    }
    if a <= b && a > 0 {
        assert(q <= 1) by (nonlinear_arith)
            requires
                a == b * q + r,
                0 <= r,
                a <= b,
                0 < b,
        ;
        if q == 1 {
            assert(b * q == b) by (nonlinear_arith)
                requires
                    q == 1,
            ;
        } else {
            assert(b * q == 0) by (nonlinear_arith)
                requires
                    q == 0,
            ;
        }
    }
}

/// `ceil_div` on 64-bit numbers.
pub fn ceil_div_u64(a: u64, b: u64) -> (r: u64)
    requires
        b > 0,
    ensures
        r == ceil_div(a as int, b as int),
{
    proof {
        lemma_ceil_div(a as int, b as int);
    }
    let q = a / b;
    if a % b == 0 {
        q
    } else {
        q + 1
    }
}

/// `ceil_div` on 32-bit numbers.
pub fn ceil_div_u32(a: u32, b: u32) -> (r: u32)
    requires
        b > 0,
    ensures
        r == ceil_div(a as int, b as int),
{
    proof {
        lemma_ceil_div(a as int, b as int);
    }
    let q = a / b;
    if a % b == 0 {
        q
    } else {
        q + 1
    }
}

/// Why a torrent's lengths were refused.
#[derive(Debug, Clone, Copy, PartialEq, Eq)]
pub enum LengthsError {
    /// The torrent holds no bytes.
    ZeroTotalLength,
    /// The piece length is zero.
    ZeroPieceLength,
    /// The chunk length is zero.
    ZeroChunkLength,
    /// The torrent has more pieces or chunks than a 32-bit index can count.
    TooManyChunks,
}

/// A piece index that a [`Lengths`] has accepted.
#[derive(Debug, Clone, Copy, PartialEq, Eq, Hash)]
pub struct ValidPieceIndex(pub u32);

impl View for ValidPieceIndex {
    type V = u32;

    open spec fn view(&self) -> u32 {
        self.0
    }
}

impl ValidPieceIndex {
    /// The index as a number.
    pub fn get(&self) -> (r: u32)
        ensures
            r == self@,
    {
        self.0
    }
}

/// One chunk of one piece.
#[derive(Debug, Clone, Copy)]
pub struct ChunkInfo {
    /// The piece the chunk belongs to.
    pub piece_index: ValidPieceIndex,
    /// The chunk's position within its piece.
    pub chunk_index: u32,
    /// The chunk's position among all chunks of the torrent.
    pub absolute_index: u32,
    /// The chunk's length in bytes.
    pub size: u32,
    /// The offset of the chunk's first byte within its piece.
    pub offset: u32,
}

/// The sizes of a torrent.
#[derive(Debug, Clone, Copy)]
pub struct Lengths {
    pub total_length: u64,
    pub piece_length: u32,
    pub chunk_length: u32,
    pub last_piece_id: u32,
    pub last_piece_length: u32,
    pub chunks_per_piece: u32,
}

impl Lengths {
    /// The derived fields agree with the three lengths, and every chunk of the
    /// torrent has a 32-bit absolute index.
    pub open spec fn wf(&self) -> bool {
        &&& self.total_length > 0
        &&& self.piece_length > 0
        &&& self.chunk_length > 0
        &&& self.last_piece_id + 1 == ceil_div(self.total_length as int, self.piece_length as int)
        &&& self.last_piece_length == self.total_length - self.last_piece_id * self.piece_length
        &&& self.chunks_per_piece == ceil_div(self.piece_length as int, self.chunk_length as int)
        &&& (self.last_piece_id + 1) * self.chunks_per_piece <= u32::MAX
    }

    /// The number of pieces.
    pub open spec fn spec_total_pieces(&self) -> int {
        self.last_piece_id + 1
    }

    /// Whether `index` is a piece of this torrent.
    pub open spec fn valid_piece(&self, index: int) -> bool {
        0 <= index <= self.last_piece_id
    }

    /// The length in bytes of piece `index`.
    pub open spec fn spec_piece_length(&self, index: int) -> int {
        if index == self.last_piece_id {
            self.last_piece_length as int
        } else {
            self.piece_length as int
        }
    }

    /// The number of chunks of piece `index`.
    pub open spec fn spec_chunks_per_piece(&self, index: int) -> int {
        ceil_div(self.spec_piece_length(index), self.chunk_length as int)
    }

    /// The length in bytes of chunk `chunk` of piece `index`.
    pub open spec fn spec_chunk_size(&self, index: int, chunk: int) -> int {
        let rest = self.spec_piece_length(index) - chunk * self.chunk_length;
        if rest < self.chunk_length {
            rest
        } else {
            self.chunk_length as int
        }
    }

    /// The description of chunk `chunk` of piece `piece`.
    pub open spec fn chunk_info_at(&self, piece: ValidPieceIndex, chunk: int) -> ChunkInfo {
        ChunkInfo {
            piece_index: piece,
            chunk_index: chunk as u32,
            absolute_index: (self.chunks_per_piece * piece@ + chunk) as u32,
            size: self.spec_chunk_size(piece@ as int, chunk) as u32,
            offset: (chunk * self.chunk_length) as u32,
        }
    }

    /// The chunk that a block of `size` bytes at offset `begin` of `piece` is, if it
    /// is one: the offset is a chunk boundary inside the piece and the size is that
    /// chunk's.
    pub open spec fn spec_chunk_info_from_received_data(
        &self,
        piece: ValidPieceIndex,
        begin: u32,
        size: u32,
    ) -> Option<ChunkInfo> {
        let chunk = begin as int / self.chunk_length as int;
        if chunk < self.spec_chunks_per_piece(piece@ as int) && chunk * self.chunk_length == begin
            && self.spec_chunk_size(piece@ as int, chunk) == size {
            Some(self.chunk_info_at(piece, chunk))
        } else {
            None
        }
    }

    /// The number of bytes of a bitfield over the pieces.
    pub open spec fn spec_piece_bitfield_bytes(&self) -> int {
        ceil_div(self.spec_total_pieces(), 8)
    }

    /// The number of chunk slots: every piece gets the full count of a whole piece.
    pub open spec fn spec_chunk_slots(&self) -> int {
        self.spec_total_pieces() * self.chunks_per_piece
    }

    /// The absolute index of the first chunk of piece `index`.
    pub open spec fn spec_chunk_range_start(&self, index: int) -> int {
        index * self.chunks_per_piece
    }

    /// Facts about a valid piece that follow from `wf`.
    pub proof fn lemma_piece(&self, index: int)
        requires
            self.wf(),
            self.valid_piece(index),
        ensures
            0 < self.spec_piece_length(index) <= self.piece_length,
            1 <= self.spec_chunks_per_piece(index) <= self.chunks_per_piece,
            self.spec_chunk_range_start(index) + self.chunks_per_piece <= self.spec_chunk_slots(),
            0 <= self.spec_chunk_range_start(index),
            self.spec_chunk_slots() <= u32::MAX,
    {
        let total = self.total_length as int;
        let pl = self.piece_length as int;
        let cl = self.chunk_length as int;
        let last = self.last_piece_id as int;
        lemma_ceil_div(total, pl);
        assert((last + 1) * pl == last * pl + pl) by (nonlinear_arith);
        assert(0 < self.last_piece_length <= pl);
        let len = self.spec_piece_length(index);
        lemma_ceil_div(len, cl);
        lemma_ceil_div(pl, cl);
        let n = self.spec_chunks_per_piece(index);
        let cpp = self.chunks_per_piece as int;
        assert(n <= cpp) by (nonlinear_arith)
            requires
                n * cl < len + cl,
                pl <= cpp * cl,
                len <= pl,
                cl > 0,
        ;
        assert(index * cpp + cpp <= (last + 1) * cpp) by (nonlinear_arith)
            requires
                0 <= index <= last,
                cpp >= 0,
        ;
        assert(0 <= index * cpp) by (nonlinear_arith)
            requires
                0 <= index,
                cpp >= 0,
        ;
    }

    /// Facts about a chunk of a valid piece that follow from `wf`.
    pub proof fn lemma_chunk(&self, index: int, chunk: int)
        requires
            self.wf(),
            self.valid_piece(index),
            0 <= chunk < self.spec_chunks_per_piece(index),
        ensures
            0 <= chunk * self.chunk_length < self.spec_piece_length(index),
            0 < self.spec_chunk_size(index, chunk) <= self.chunk_length,
            chunk * self.chunk_length + self.spec_chunk_size(index, chunk)
                <= self.spec_piece_length(index),
            0 <= self.chunks_per_piece * index + chunk < self.spec_chunk_slots(),
            self.chunks_per_piece * index + chunk == self.spec_chunk_range_start(index) + chunk,
    {
        self.lemma_piece(index);
        let cl = self.chunk_length as int;
        let len = self.spec_piece_length(index);
        let n = self.spec_chunks_per_piece(index);
        let cpp = self.chunks_per_piece as int;
        lemma_ceil_div(len, cl);
        assert(chunk * cl < len && 0 <= chunk * cl) by (nonlinear_arith)
            requires
                0 <= chunk,
                chunk + 1 <= n,
                n * cl < len + cl,
                cl > 0,
        ;
        assert(cpp * index == index * cpp) by (nonlinear_arith);
    }

    /// The lengths of a torrent of `total_length` bytes in pieces of `piece_length`
    /// bytes, split into chunks of `chunk_length` bytes (of [`CHUNK_SIZE`] if `None`).
    pub fn new(total_length: u64, piece_length: u32, chunk_length: Option<u32>) -> (r: Result<
        Lengths,
        LengthsError,
    >)
        ensures
            match r {
                Ok(l) => {
                    &&& l.wf()
                    &&& l.total_length == total_length
                    &&& l.piece_length == piece_length
                    &&& l.chunk_length == (match chunk_length {
                        Some(c) => c,
                        None => CHUNK_SIZE,
                    })
                },
                Err(e) => {
                    let cl = match chunk_length {
                        Some(c) => c,
                        None => CHUNK_SIZE,
                    };
                    if cl == 0 {
                        e == LengthsError::ZeroChunkLength
                    } else if piece_length == 0 {
                        e == LengthsError::ZeroPieceLength
                    } else if total_length == 0 {
                        e == LengthsError::ZeroTotalLength
                    } else {
                        &&& e == LengthsError::TooManyChunks
                        &&& ceil_div(total_length as int, piece_length as int) * ceil_div(
                            piece_length as int,
                            cl as int,
                        ) > u32::MAX
                    }
                },
            },
    {
        let cl: u32 = match chunk_length {
            Some(c) => c,
            None => CHUNK_SIZE,
        };
        if cl == 0 {
            return Err(LengthsError::ZeroChunkLength);
        }
        if piece_length == 0 {
            return Err(LengthsError::ZeroPieceLength);
        }
        if total_length == 0 {
            return Err(LengthsError::ZeroTotalLength);
        }
        let pl64: u64 = piece_length as u64;
        let pieces: u64 = ceil_div_u64(total_length, pl64);
        let cpp: u32 = ceil_div_u32(piece_length, cl);
        proof {
            lemma_ceil_div(total_length as int, piece_length as int);
            lemma_ceil_div(piece_length as int, cl as int);
        }
        if pieces > u32::MAX as u64 {
            proof {
                let p = pieces as int;
                let c = cpp as int;
                assert(p * c > u32::MAX) by (nonlinear_arith)
                    requires
                        p > u32::MAX,
                        c >= 1,
                ;
            }
            return Err(LengthsError::TooManyChunks);
        }
        assert(pieces * cpp <= u32::MAX * u32::MAX) by (nonlinear_arith)
            requires
                pieces <= u32::MAX,
                cpp <= u32::MAX,
        ;
        let slots: u64 = pieces * (cpp as u64);
        if slots > u32::MAX as u64 {
            return Err(LengthsError::TooManyChunks);
        }
        let last_piece_id: u32 = (pieces - 1) as u32;
        proof {
            let t = total_length as int;
            let p = piece_length as int;
            let n = pieces as int;
            assert((n - 1) * p < t && t <= n * p) by (nonlinear_arith)
                requires
                    t <= n * p,
                    n * p < t + p,
            ;
            assert((n - 1) * p == n * p - p) by (nonlinear_arith);
        }
        let last_piece_length: u32 = (total_length - (last_piece_id as u64) * pl64) as u32;
        Ok(
            Lengths {
                total_length,
                piece_length,
                chunk_length: cl,
                last_piece_id,
                last_piece_length,
                chunks_per_piece: cpp,
            },
        )
    }

    /// The number of bytes of the torrent.
    pub fn total_length(&self) -> (r: u64)
        ensures
            r == self.total_length,
    {
        self.total_length
    }

    /// The number of pieces.
    pub fn total_pieces(&self) -> (r: u32)
        requires
            self.wf(),
        ensures
            r == self.spec_total_pieces(),
            r >= 1,
    {
        proof {
            self.lemma_piece(0);
            assert(self.spec_total_pieces() * self.chunks_per_piece >= self.spec_total_pieces())
                by (nonlinear_arith)
                requires
                    self.chunks_per_piece >= 1,
                    self.spec_total_pieces() >= 0,
            ;
        }
        self.last_piece_id + 1
    }

    /// The length of every piece but the last.
    pub fn default_piece_length(&self) -> (r: u32)
        ensures
            r == self.piece_length,
    {
        self.piece_length
    }

    /// The number of chunks of every piece but the last.
    pub fn default_chunks_per_piece(&self) -> (r: u32)
        ensures
            r == self.chunks_per_piece,
    {
        self.chunks_per_piece
    }

    /// The number of chunk slots of the torrent.
    pub fn chunk_slots(&self) -> (r: u32)
        requires
            self.wf(),
        ensures
            r == self.spec_chunk_slots(),
    {
        let n = self.total_pieces();
        n * self.chunks_per_piece
    }

    /// The number of bytes of a bitfield over the pieces.
    pub fn piece_bitfield_bytes(&self) -> (r: usize)
        requires
            self.wf(),
        ensures
            r == self.spec_piece_bitfield_bytes(),
            8 * r >= self.spec_total_pieces(),
    {
        let n = self.total_pieces();
        proof {
            lemma_ceil_div(n as int, 8);
        }
        let bytes: u32 = ceil_div_u32(n, 8);
        bytes as usize
    }

    /// `index` as a piece index, if the torrent has such a piece.
    pub fn validate_piece_index(&self, index: u32) -> (r: Option<ValidPieceIndex>)
        ensures
            r == (if self.valid_piece(index as int) {
                Some(ValidPieceIndex(index))
            } else {
                None
            }),
    {
        if index > self.last_piece_id {
            None
        } else {
            Some(ValidPieceIndex(index))
        }
    }

    /// The length in bytes of a piece.
    pub fn piece_length(&self, index: ValidPieceIndex) -> (r: u32)
        ensures
            r == self.spec_piece_length(index@ as int),
    {
        if index.0 == self.last_piece_id {
            self.last_piece_length
        } else {
            self.piece_length
        }
    }

    /// The number of chunks of a piece.
    pub fn chunks_per_piece(&self, index: ValidPieceIndex) -> (r: u32)
        requires
            self.wf(),
        ensures
            r == self.spec_chunks_per_piece(index@ as int),
    {
        let len = self.piece_length(index);
        ceil_div_u32(len, self.chunk_length)
    }

    /// The absolute index of the first chunk of a piece.
    pub fn chunk_range_start(&self, index: ValidPieceIndex) -> (r: u32)
        requires
            self.wf(),
            self.valid_piece(index@ as int),
        ensures
            r == self.spec_chunk_range_start(index@ as int),
    {
        proof {
            self.lemma_piece(index@ as int);
        }
        index.0 * self.chunks_per_piece
    }

    /// The length in bytes of chunk `chunk_index` of a piece, or `None` if the piece
    /// has no such chunk.
    pub fn chunk_size(&self, piece_index: ValidPieceIndex, chunk_index: u32) -> (r: Option<u32>)
        requires
            self.wf(),
            self.valid_piece(piece_index@ as int),
        ensures
            r == (if chunk_index < self.spec_chunks_per_piece(piece_index@ as int) {
                Some(self.spec_chunk_size(piece_index@ as int, chunk_index as int) as u32)
            } else {
                None
            }),
            r matches Some(s) ==> s == self.spec_chunk_size(
                piece_index@ as int,
                chunk_index as int,
            ),
    {
        let n = self.chunks_per_piece(piece_index);
        if chunk_index >= n {
            return None;
        }
        proof {
            self.lemma_chunk(piece_index@ as int, chunk_index as int);
        }
        let len = self.piece_length(piece_index);
        let offset = chunk_index * self.chunk_length;
        let rest = len - offset;
        if rest < self.chunk_length {
            Some(rest)
        } else {
            Some(self.chunk_length)
        }
    }

    /// The chunks of a piece, in order.
    pub fn iter_chunk_infos(&self, index: ValidPieceIndex) -> (r: Vec<ChunkInfo>)
        requires
            self.wf(),
            self.valid_piece(index@ as int),
        ensures
            r@.len() == self.spec_chunks_per_piece(index@ as int),
            forall|c: int| 0 <= c < r@.len() ==> r@[c] == self.chunk_info_at(index, c),
    {
        let n = self.chunks_per_piece(index);
        let start = self.chunk_range_start(index);
        let len = self.piece_length(index);
        let mut out: Vec<ChunkInfo> = Vec::new();
        let mut c: u32 = 0;
        while c < n
            invariant
                self.wf(),
                self.valid_piece(index@ as int),
                n == self.spec_chunks_per_piece(index@ as int),
                start == self.spec_chunk_range_start(index@ as int),
                len == self.spec_piece_length(index@ as int),
                c <= n,
                out@.len() == c,
                forall|k: int| 0 <= k < c ==> out@[k] == self.chunk_info_at(index, k),
            decreases n - c,
        {
            proof {
                self.lemma_chunk(index@ as int, c as int);
            }
            let offset = c * self.chunk_length;
            let rest = len - offset;
            let size = if rest < self.chunk_length {
                rest
            } else {
                self.chunk_length
            };
            out.push(
                ChunkInfo {
                    piece_index: index,
                    chunk_index: c,
                    absolute_index: start + c,
                    size,
                    offset,
                },
            );
            c += 1;
        }
        out
    }

    /// The chunk that a block of `chunk_size` bytes at offset `begin` of a piece is.
    pub fn chunk_info_from_received_data(
        &self,
        piece_index: ValidPieceIndex,
        begin: u32,
        chunk_size: u32,
    ) -> (r: Option<ChunkInfo>)
        requires
            self.wf(),
            self.valid_piece(piece_index@ as int),
        ensures
            r == self.spec_chunk_info_from_received_data(piece_index, begin, chunk_size),
    {
        let index = begin / self.chunk_length;
        let expected = match self.chunk_size(piece_index, index) {
            Some(s) => s,
            None => {
                return None;
            },
        };
        proof {
            self.lemma_chunk(piece_index@ as int, index as int);
        }
        let offset = index * self.chunk_length;
        if offset != begin {
            return None;
        }
        if expected != chunk_size {
            return None;
        }
        let start = self.chunk_range_start(piece_index);
        Some(
            ChunkInfo {
                piece_index,
                chunk_index: index,
                absolute_index: start + index,
                size: chunk_size,
                offset,
            },
        )
    }

    /// The chunk that a received block is, given the piece as a bare number.
    pub fn chunk_info_from_received_piece(&self, index: u32, begin: u32, block_len: u32) -> (r:
        Option<ChunkInfo>)
        requires
            self.wf(),
        ensures
            r == self.spec_chunk_info_from_received_piece(index, begin, block_len),
    {
        match self.validate_piece_index(index) {
            Some(p) => self.chunk_info_from_received_data(p, begin, block_len),
            None => None,
        }
    }

    /// The chunk that a block of `block_len` bytes at offset `begin` of piece `index`
    /// is, if the torrent has that piece and the block is one of its chunks.
    pub open spec fn spec_chunk_info_from_received_piece(
        &self,
        index: u32,
        begin: u32,
        block_len: u32,
    ) -> Option<ChunkInfo> {
        if self.valid_piece(index as int) {
            self.spec_chunk_info_from_received_data(ValidPieceIndex(index), begin, block_len)
        } else {
            None
        }
    }
}

} // verus!
