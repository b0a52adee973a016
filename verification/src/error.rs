//! The errors of the engine.

use vstd::prelude::*;

verus! {

/// An error of the engine.
#[derive(Debug)]
pub enum Error {
    /// The channel on which some component in engine was listening or sending
    /// died.
    Channel,
    /// The torrent download location is not valid.
    InvalidDownloadPath,
    /// The torrent ID did not correspond to any entry.
    InvalidTorrentId,
    /// The piece index does not belong to any piece of the torrent.
    InvalidPieceIndex,
    /// Holds IO related errors, with their description.
    Io(String),
}

impl Error {
    /// The description of the error.
    pub open spec fn text(self) -> Seq<char> {
        match self {
            Error::Channel => "channel error"@,
            Error::InvalidDownloadPath => "invalid download path"@,
            Error::InvalidTorrentId => "invalid torrent id"@,
            Error::InvalidPieceIndex => "invalid piece index"@,
            Error::Io(e) => e@,
        }
    }

    /// Returns the description of the error.
    pub fn message(&self) -> (text: String)
        ensures
            text@ == self.text(),
    {
        match self {
            Error::Channel => "channel error".to_owned(),
            Error::InvalidDownloadPath => "invalid download path".to_owned(),
            Error::InvalidTorrentId => "invalid torrent id".to_owned(),
            Error::InvalidPieceIndex => "invalid piece index".to_owned(),
            Error::Io(e) => e.clone(),
        }
    }
}

/// The result of an operation of the engine.
pub type Result<T, E = Error> = std::result::Result<T, E>;

} // verus!
