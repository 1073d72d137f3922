//! The static description of a torrent, as its metadata gives it. The engine
//! carries it for those who read and write the files.

use vstd::prelude::*;

verus! {

/// One file of a torrent of several files.
#[derive(Debug, Clone)]
pub struct TorrentMetaV1File {
    /// The length of the file in bytes.
    pub length: u64,
    /// The path of the file below the torrent's directory, one entry per
    /// component.
    pub path: Vec<Vec<u8>>,
}

/// The description of a torrent.
#[derive(Debug, Clone)]
pub struct TorrentMetaV1Info {
    /// The name of the file, or of the directory of the files.
    pub name: Option<Vec<u8>>,
    /// The SHA-1 hashes of the pieces, 20 bytes each.
    pub pieces: Vec<u8>,
    /// The length of every piece but the last.
    pub piece_length: u32,
    /// The length of the file, for a torrent of one file.
    pub length: Option<u64>,
    /// The files, for a torrent of several files.
    pub files: Option<Vec<TorrentMetaV1File>>,
}

} // verus!
