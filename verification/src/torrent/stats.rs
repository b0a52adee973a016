//! Statistics of torrents.

use vstd::prelude::*;
use vstd::std_specs::convert::{FromSpec, FromSpecImpl};

use crate::block::PieceIndex;
use crate::counter::Counter;
use crate::time::{Duration, Instant};

verus! {

/// Aggregated statistics of a torrent.
#[derive(Clone, Debug)]
pub struct TorrentStats {
    /// When the torrent was _first_ started.
    pub start_time: Option<Instant>,
    /// How long the torrent has been running.
    pub run_duration: Duration,
    /// The pieces this torrent has.
    pub pieces: PieceStats,
    pub downloaded_payload_stats: ThroughputStats,
    pub wasted_payload_count: u64,
    pub uploaded_payload_stats: ThroughputStats,
    pub downloaded_protocol_stats: ThroughputStats,
    pub uploaded_protocol_stats: ThroughputStats,
    pub peer_count: usize,
}

impl Default for TorrentStats {
    fn default() -> (stats: Self)
        ensures
            stats.start_time is None,
            stats.run_duration.nanos == 0,
            stats.pieces.is_default(),
            stats.downloaded_payload_stats.is_default(),
            stats.wasted_payload_count == 0,
            stats.uploaded_payload_stats.is_default(),
            stats.downloaded_protocol_stats.is_default(),
            stats.uploaded_protocol_stats.is_default(),
            stats.peer_count == 0,
    {
        TorrentStats {
            start_time: None,
            run_duration: Duration { nanos: 0 },
            pieces: PieceStats::default(),
            downloaded_payload_stats: ThroughputStats::default(),
            wasted_payload_count: 0,
            uploaded_payload_stats: ThroughputStats::default(),
            downloaded_protocol_stats: ThroughputStats::default(),
            uploaded_protocol_stats: ThroughputStats::default(),
            peer_count: 0,
        }
    }
}

/// Statistics of a torrent's pieces.
#[derive(Clone, Debug, PartialEq, Eq, PartialOrd, Ord, Hash)]
pub struct PieceStats {
    /// The total number of pieces in torrent.
    pub total: usize,
    /// The number of pieces that the torrent is currently downloading.
    pub pending: usize,
    /// The number of pieces that the torrent has downloaded.
    pub complete: usize,
    /// The pieces that were completed since the last status update.
    ///
    /// By default this information is not sent, as it has a little overhead. It
    /// needs to be turned on in the torrent's
    /// [configuration](crate::conf::TorrentAlertConf::completed_pieces).
    pub latest_completed: Option<Vec<PieceIndex>>,
}

impl Default for PieceStats {
    fn default() -> (stats: Self)
        ensures
            stats.is_default(),
    {
        PieceStats { total: 0, pending: 0, complete: 0, latest_completed: None }
    }
}

impl PieceStats {
    /// Whether these are the statistics of a torrent without pieces, of which no
    /// completed pieces are sent.
    pub open spec fn is_default(&self) -> bool {
        &&& self.total == 0
        &&& self.pending == 0
        &&& self.complete == 0
        &&& self.latest_completed is None
    }

    /// Returns whether the torrent is a seed.
    pub fn is_seed(&self) -> (r: bool)
        ensures
            r == (self.complete == self.total),
    {
        self.complete == self.total
    }

    /// Returns whether the torrent is in endgame mode (about to finish
    /// download).
    pub fn is_in_endgame(&self) -> (r: bool)
        ensures
            r == (self.pending + self.complete == self.total),
    {
        self.complete <= self.total && self.total - self.complete == self.pending
    }
}

/// Statistics of a torrent's current throughput.
#[derive(Clone, Copy, Debug, PartialEq, Eq, PartialOrd, Ord, Hash, Structural)]
pub struct ThroughputStats {
    pub total: u64,
    pub rate: u64,
    pub peak: u64,
}

impl ThroughputStats {
    /// Whether nothing was transferred.
    pub open spec fn is_default(&self) -> bool {
        self.total == 0 && self.rate == 0 && self.peak == 0
    }
}

impl Default for ThroughputStats {
    fn default() -> (stats: Self)
        ensures
            stats.is_default(),
    {
        ThroughputStats { total: 0, rate: 0, peak: 0 }
    }
}

impl From<&Counter> for ThroughputStats {
    fn from(c: &Counter) -> (stats: Self) {
        ThroughputStats { total: c.total(), rate: c.avg(), peak: c.peak() }
    }
}

impl FromSpecImpl<&Counter> for ThroughputStats {
    open spec fn obeys_from_spec() -> bool {
        true
    }

    open spec fn from_spec(c: &Counter) -> Self {
        ThroughputStats { total: c.total, rate: c.avg, peak: c.peak }
    }
}

/// A torrent that is a seed is in endgame mode just when nothing is pending.
pub proof fn law_seed_has_nothing_pending(stats: PieceStats)
    requires
        stats.complete == stats.total,
    ensures
        stats.pending + stats.complete == stats.total <==> stats.pending == 0,
{
}

/// The throughput of a counter is its total, its average as the rate, and its peak.
pub proof fn law_throughput_is_that_of_the_counter(counter: &Counter)
    ensures
        ({
            let stats = <ThroughputStats as FromSpec<&Counter>>::from_spec(counter);
            &&& stats.total == counter.total
            &&& stats.rate == counter.avg
            &&& stats.peak == counter.peak
        }),
{
}

} // verus!
