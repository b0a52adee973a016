//! The errors of disk IO.

use vstd::prelude::*;

verus! {

/// Error type returned on failed torrent allocations.
///
/// This error is non-fatal so it should not be grouped with the global `Error`
/// type as it may be recovered from.
#[derive(Debug)]
pub enum NewTorrentError {
    /// The torrent entry already exists in `Disk`'s map of torrents.
    AlreadyExists,
    /// IO error while allocating torrent, with this description.
    Io(String),
}

impl NewTorrentError {
    /// Returns the description of the error.
    pub fn message(&self) -> (text: String)
        ensures
            text@ == match self {
                NewTorrentError::AlreadyExists => "disk torrent entry already exists"@,
                NewTorrentError::Io(e) => e@,
            },
    {
        match self {
            NewTorrentError::AlreadyExists => "disk torrent entry already exists".to_owned(),
            NewTorrentError::Io(e) => e.clone(),
        }
    }
}

/// Error type returned on failed block writes.
///
/// This error is non-fatal so it should not be grouped with the global `Error`
/// type as it may be recovered from.
#[derive(Debug)]
pub enum WriteError {
    /// The block's piece index is invalid.
    InvalidPieceIndex,
    /// An IO error occurred, with this description.
    Io(String),
}

impl WriteError {
    /// Returns the description of the error.
    pub fn message(&self) -> (text: String)
        ensures
            text@ == match self {
                WriteError::InvalidPieceIndex => "invalid piece index"@,
                WriteError::Io(e) => e@,
            },
    {
        match self {
            WriteError::InvalidPieceIndex => "invalid piece index".to_owned(),
            WriteError::Io(e) => e.clone(),
        }
    }
}

/// Error type returned on failed block reads.
///
/// This error is non-fatal so it should not be grouped with the global `Error`
/// type as it may be recovered from.
#[derive(Debug)]
pub enum ReadError {
    /// The block's piece index is invalid.
    InvalidPieceIndex,
    /// The block's offset in piece is invalid.
    InvalidBlockOffset,
    /// The block is valid within torrent but its data has not been downloaded
    /// yet or has been deleted.
    DataMissing,
    /// An IO error occurred, with this description.
    Io(String),
}

impl ReadError {
    /// Returns the description of the error.
    pub fn message(&self) -> (text: String)
        ensures
            text@ == match self {
                ReadError::InvalidPieceIndex => "invalid piece index"@,
                ReadError::InvalidBlockOffset => "invalid block offset"@,
                ReadError::DataMissing => "torrent data missing"@,
                ReadError::Io(e) => e@,
            },
    {
        match self {
            ReadError::InvalidPieceIndex => "invalid piece index".to_owned(),
            ReadError::InvalidBlockOffset => "invalid block offset".to_owned(),
            ReadError::DataMissing => "torrent data missing".to_owned(),
            ReadError::Io(e) => e.clone(),
        }
    }
}

} // verus!
