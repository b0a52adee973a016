//! This module defines the alerts the API user may receive from the torrent
//! engine.

use vstd::prelude::*;

use crate::block::TorrentId;
use crate::torrent::stats::TorrentStats;

verus! {

/// The alerts that the engine may send the library user.
#[derive(Clone, Debug)]
pub enum Alert {
    /// Posted when the torrent has finished downloading.
    TorrentComplete(TorrentId),
    /// Each running torrent sends an update of its latest statistics every
    /// second via this alert.
    TorrentStats { id: TorrentId, stats: TorrentStats },
}

} // verus!
