//! The errors of peer sessions.

use vstd::prelude::*;

verus! {

/// Error type returned on failed peer sessions.
///
/// This error is non-fatal so it should not be grouped with the global `Error`
/// type as it may be recovered from.
#[derive(Debug)]
#[non_exhaustive]
pub enum PeerError {
    /// The bitfield message was not sent after the handshake. According to the
    /// protocol, it should only be accepted after the handshake and when
    /// received at any other time, connection is severed.
    BitfieldNotAfterHandshake,
    /// The channel on which some component in engine was listening or sending
    /// died.
    Channel,
    /// Peers are not allowed to request blocks while they are choked. If they
    /// do so, their connection is severed.
    RequestWhileChoked,
    /// A peer session timed out because neither side of the connection became
    /// interested in each other.
    InactivityTimeout,
    /// The block information the peer sent is invalid.
    InvalidBlockInfo,
    /// The block's piece index is invalid.
    InvalidPieceIndex,
    /// Peer's torrent info hash did not match ours.
    InvalidInfoHash,
    /// The peer doesn't have all pieces, and we only download from seeds.
    PeerNotSeed,
    /// An IO error occurred, with this description.
    Io(String),
}

impl PeerError {
    /// The description of the error.
    pub open spec fn text(self) -> Seq<char> {
        match self {
            PeerError::BitfieldNotAfterHandshake => "received unexpected bitfield"@,
            PeerError::Channel => "channel error"@,
            PeerError::RequestWhileChoked => "choked peer sent request"@,
            PeerError::InactivityTimeout => "inactivity timeout"@,
            PeerError::InvalidBlockInfo => "invalid block info"@,
            PeerError::InvalidPieceIndex => "invalid piece index"@,
            PeerError::InvalidInfoHash => "invalid info hash"@,
            PeerError::PeerNotSeed => "peer is not a seed"@,
            PeerError::Io(e) => e@,
        }
    }

    /// Returns the description of the error.
    pub fn message(&self) -> (text: String)
        ensures
            text@ == self.text(),
    {
        match self {
            PeerError::BitfieldNotAfterHandshake => "received unexpected bitfield".to_owned(),
            PeerError::Channel => "channel error".to_owned(),
            PeerError::RequestWhileChoked => "choked peer sent request".to_owned(),
            PeerError::InactivityTimeout => "inactivity timeout".to_owned(),
            PeerError::InvalidBlockInfo => "invalid block info".to_owned(),
            PeerError::InvalidPieceIndex => "invalid piece index".to_owned(),
            PeerError::InvalidInfoHash => "invalid info hash".to_owned(),
            PeerError::PeerNotSeed => "peer is not a seed".to_owned(),
            PeerError::Io(e) => e.clone(),
        }
    }
}

/// The result of a step of a peer session.
pub type Result<T, E = PeerError> = std::result::Result<T, E>;

} // verus!
