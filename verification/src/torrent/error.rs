//! The errors of torrents.

use vstd::prelude::*;

verus! {

/// Error type returned on failed torrents.
///
/// This error is non-fatal so it should not be grouped with the global `Error`
/// type as it may be recovered from.
#[derive(Debug)]
#[non_exhaustive]
pub enum TorrentError {
    /// The channel on which some component in engine was listening or sending
    /// died.
    Channel,
    /// An IO error occurred, with this description.
    Io(String),
}

impl TorrentError {
    /// Returns the description of the error.
    pub fn message(&self) -> (text: String)
        ensures
            text@ == match self {
                TorrentError::Channel => "channel error"@,
                TorrentError::Io(e) => e@,
            },
    {
        match self {
            TorrentError::Channel => "channel error".to_owned(),
            TorrentError::Io(e) => e.clone(),
        }
    }
}

} // verus!
