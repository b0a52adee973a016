//! This module defines types used to configure the engine and its parts.

use vstd::prelude::*;

use crate::block::PeerId;
use crate::time::Duration;

verus! {

/// The default cratetorrent client id: `cbt-0000000000000000`.
pub const CRATETORRENT_CLIENT_ID: PeerId = [
    99, 98, 116, 45, 48, 48, 48, 48, 48, 48, 48, 48, 48, 48, 48, 48, 48, 48, 48, 48,
];

/// The global configuration for the torrent engine and all its parts.
#[derive(Clone, Debug)]
pub struct Conf {
    pub engine: EngineConf,
    pub torrent: TorrentConf,
}

impl Conf {
    /// Returns the torrent configuration with reasonable defaults, except for
    /// the download directory, as it is not sensible to guess that for the
    /// user. It uses the default cratetorrent client id,
    /// [`CRATETORRENT_CLIENT_ID`].
    pub fn new(download_dir: String) -> (conf: Self)
        ensures
            conf.engine.client_id == CRATETORRENT_CLIENT_ID,
            conf.engine.download_dir == download_dir,
            conf.torrent.is_default(),
    {
        Conf {
            engine: EngineConf { client_id: CRATETORRENT_CLIENT_ID, download_dir },
            torrent: TorrentConf::default(),
        }
    }
}

/// Configuration related to the engine itself.
#[derive(Clone, Debug)]
pub struct EngineConf {
    /// The ID of the client to announce to trackers and other peers.
    pub client_id: PeerId,
    /// The directory in which a torrent's files are placed upon download and
    /// from which they are seeded.
    pub download_dir: String,
}

/// Configuration for a torrent.
///
/// The engine will have a default instance of this applied to all torrents by
/// default, but individual torrents may override this configuration.
#[derive(Clone, Copy, Debug)]
pub struct TorrentConf {
    /// The minimum number of peers we want to keep in torrent at all times.
    /// This will be configurable later.
    pub min_requested_peer_count: usize,
    /// The max number of connected peers the torrent should have.
    pub max_connected_peer_count: usize,
    /// If the tracker doesn't provide a minimum announce interval, we default
    /// to announcing every 30 seconds.
    pub announce_interval: Duration,
    /// After this many attempts, the torrent stops announcing to a tracker.
    pub tracker_error_threshold: usize,
    /// Timeout duration after error threshold is reached.
    pub tracker_error_timeout: Duration,
    /// Specifies which optional alerts to send, besides the default periodic
    /// stats update.
    pub alerts: TorrentAlertConf,
}

/// Configuration of a torrent's optional alerts.
///
/// By default, all optional alerts are turned off. This is because some of
/// these alerts may have overhead that shouldn't be paid when the alerts are
/// not used.
#[derive(Clone, Copy, Debug)]
pub struct TorrentAlertConf {
    /// Receive the pieces that were completed each round.
    ///
    /// This has minor overhead and so it may be enabled. For full optimization,
    /// however, it is only enabled when either the pieces or individual file
    /// completions are needed.
    pub completed_pieces: bool,
    /// Receive aggregate statistics about the torrent's peers.
    ///
    /// This may be relatively expensive. It is suggested to only turn it on
    /// when it is specifically needed, e.g. when the UI is showing the peers of
    /// a torrent.
    pub peers: bool,
}

impl Default for TorrentAlertConf {
    fn default() -> (conf: Self)
        ensures
            !conf.completed_pieces,
            !conf.peers,
    {
        TorrentAlertConf { completed_pieces: false, peers: false }
    }
}

impl TorrentConf {
    /// Whether this is the default configuration.
    pub open spec fn is_default(&self) -> bool {
        &&& self.min_requested_peer_count == 10
        &&& self.max_connected_peer_count == 50
        &&& self.announce_interval.nanos == 30_000_000_000
        &&& self.tracker_error_threshold == 15
        &&& self.tracker_error_timeout.nanos == 3_600_000_000_000
        &&& !self.alerts.completed_pieces
        &&& !self.alerts.peers
    }
}

impl Default for TorrentConf {
    fn default() -> (conf: Self)
        ensures
            conf.is_default(),
    {
        TorrentConf {
            // We always request at least 10 peers as anything less is a waste
            // of network round trip and it allows us to buffer up a bit more
            // than needed.
            min_requested_peer_count: 10,
            // This value is mostly picked for performance while keeping in mind
            // not to overwhelm the host.
            max_connected_peer_count: 50,
            announce_interval: Duration::from_secs(30),
            tracker_error_threshold: 15,
            tracker_error_timeout: Duration::from_secs(60 * 60),
            alerts: TorrentAlertConf::default(),
        }
    }
}

/// By default, a torrent has at most 50 peers and asks for at least 10 at once, so a
/// single announce never fills it. It announces twice a minute, pauses for an hour after
/// 15 errors of a tracker, and sends no optional alerts.
pub proof fn law_default_limits(conf: TorrentConf)
    requires
        conf.is_default(),
    ensures
        conf.min_requested_peer_count == 10,
        conf.max_connected_peer_count == 50,
        2 * conf.announce_interval.nanos == 60 * 1_000_000_000int,
        conf.tracker_error_threshold == 15,
        conf.tracker_error_timeout.nanos == 60 * 60 * 1_000_000_000int,
        !conf.alerts.completed_pieces && !conf.alerts.peers,
{
}

} // verus!
