use cratetorrent::avg::{SlidingAvg, SlidingDurationAvg};
use cratetorrent::conf::{Conf, TorrentConf, CRATETORRENT_CLIENT_ID};
use cratetorrent::disk::error::{NewTorrentError, ReadError, WriteError};
use cratetorrent::error::Error;
use cratetorrent::metainfo::MetainfoError;
use cratetorrent::peer::error::PeerError;
use cratetorrent::requests::RequestSet;
use cratetorrent::text::{is_absolute, is_empty, is_text, join_components, join_path, push_decimal};
use cratetorrent::time::{Duration, Instant};
use cratetorrent::torrent::error::TorrentError;
use cratetorrent::torrent::stats::{PieceStats, ThroughputStats, TorrentStats};
use cratetorrent::BlockInfo;

#[test]
fn first_samples_have_a_larger_gain() {
    let mut avg = SlidingAvg::new(10);
    assert_eq!(avg.mean(), 0);
    assert_eq!(avg.deviation(), 0);
    avg.update(100);
    assert_eq!(avg.mean(), 100);
    assert_eq!(avg.deviation(), 0);
    // 100 + (50 - 100) / 2, with a deviation of 50
    avg.update(50);
    assert_eq!(avg.mean(), 75);
    assert_eq!(avg.deviation(), 50);
    // 75 + (105 - 75) / 3, and 50 + (30 - 50) / 2
    avg.update(105);
    assert_eq!(avg.mean(), 85);
    assert_eq!(avg.deviation(), 40);
}

#[test]
fn the_gain_is_limited() {
    let mut avg = SlidingAvg::new(2);
    avg.update(0);
    avg.update(100);
    assert_eq!(avg.mean(), 50);
    // from here on each sample moves the mean by half of the distance
    avg.update(100);
    assert_eq!(avg.mean(), 75);
    avg.update(75);
    assert_eq!(avg.mean(), 75);
}

#[test]
fn the_mean_is_rounded() {
    let mut avg = SlidingAvg::default();
    avg.update(1);
    avg.update(2);
    assert_eq!(avg.mean(), 2);
    avg.update(0);
    avg.update(0);
    // 3 / 4
    assert_eq!(avg.mean(), 1);
}

#[test]
fn durations_are_averaged_in_milliseconds() {
    let mut avg = SlidingDurationAvg::new(20);
    avg.update(Duration::from_millis(30));
    avg.update(Duration::from_millis(60));
    assert_eq!(avg.mean(), Duration::from_millis(45));
    assert_eq!(avg.deviation(), Duration::from_millis(30));
    let avg = SlidingDurationAvg::default();
    assert_eq!(avg.mean().nanos, 0);
}

#[test]
fn durations_are_converted() {
    assert_eq!(Duration::from_secs(2).nanos, 2_000_000_000);
    assert_eq!(Duration::from_millis(2).nanos, 2_000_000);
    assert_eq!(Duration { nanos: 2_999_999_999 }.as_secs(), 2);
    assert_eq!(Duration { nanos: 2_999_999 }.as_millis(), 2);
    let earlier = Instant { nanos: 5 };
    let later = Instant { nanos: 12 };
    assert_eq!(later.saturating_duration_since(earlier).nanos, 7);
    assert_eq!(earlier.saturating_duration_since(later).nanos, 0);
}

#[test]
fn numbers_are_written_in_decimal() {
    for (n, decimal) in [(0u64, "0"), (7, "7"), (10, "10"), (4096, "4096")].iter() {
        let mut text = String::from("n=");
        push_decimal(&mut text, *n);
        assert_eq!(text, format!("n={}", decimal));
    }
    let mut text = String::new();
    push_decimal(&mut text, u64::MAX);
    assert_eq!(text, "18446744073709551615");
}

#[test]
fn paths_are_joined() {
    assert_eq!(join_path("/tmp", "a"), "/tmp/a");
    assert_eq!(join_path("/tmp/", "a"), "/tmp/a");
    assert_eq!(join_path("", "a"), "a");
    assert_eq!(join_path("/tmp", "/a"), "/a");
    assert_eq!(join_path("/tmp", ""), "/tmp/");
    let components = vec!["a".to_string(), "b".to_string(), "c.txt".to_string()];
    assert_eq!(join_components(&components), "a/b/c.txt");
    assert_eq!(join_components(&Vec::new()), "");
    assert!(is_absolute("/a"));
    assert!(!is_absolute("a/"));
    assert!(!is_absolute(""));
    assert!(is_empty(""));
    assert!(!is_empty(" "));
    assert!(is_text(&"seed".to_string(), "seed"));
    assert!(!is_text(&"seeds".to_string(), "seed"));
}

#[test]
fn errors_have_messages() {
    assert_eq!(Error::Channel.message(), "channel error");
    assert_eq!(Error::InvalidDownloadPath.message(), "invalid download path");
    assert_eq!(Error::InvalidTorrentId.message(), "invalid torrent id");
    assert_eq!(Error::InvalidPieceIndex.message(), "invalid piece index");
    assert_eq!(Error::Io("broken pipe".to_string()).message(), "broken pipe");

    assert_eq!(NewTorrentError::AlreadyExists.message(), "disk torrent entry already exists");
    assert_eq!(NewTorrentError::Io("io".to_string()).message(), "io");
    assert_eq!(WriteError::InvalidPieceIndex.message(), "invalid piece index");
    assert_eq!(WriteError::Io("io".to_string()).message(), "io");
    assert_eq!(ReadError::InvalidPieceIndex.message(), "invalid piece index");
    assert_eq!(ReadError::InvalidBlockOffset.message(), "invalid block offset");
    assert_eq!(ReadError::DataMissing.message(), "torrent data missing");
    assert_eq!(ReadError::Io("io".to_string()).message(), "io");

    let messages = [
        (PeerError::BitfieldNotAfterHandshake, "received unexpected bitfield"),
        (PeerError::Channel, "channel error"),
        (PeerError::RequestWhileChoked, "choked peer sent request"),
        (PeerError::InactivityTimeout, "inactivity timeout"),
        (PeerError::InvalidBlockInfo, "invalid block info"),
        (PeerError::InvalidPieceIndex, "invalid piece index"),
        (PeerError::InvalidInfoHash, "invalid info hash"),
        (PeerError::PeerNotSeed, "peer is not a seed"),
        (PeerError::Io("io".to_string()), "io"),
    ];
    for (error, message) in messages.iter() {
        assert_eq!(error.message(), *message);
    }

    assert_eq!(TorrentError::Channel.message(), "channel error");
    assert_eq!(TorrentError::Io("io".to_string()).message(), "io");

    assert_eq!(MetainfoError::Bencode("bad".to_string()).message(), "bad");
    assert_eq!(MetainfoError::InvalidMetainfo.message(), "invalid metainfo");
    assert_eq!(MetainfoError::InvalidPieces.message(), "invalid pieces");
    assert_eq!(MetainfoError::InvalidTrackerUrl.message(), "invalid tracker URL");
}

#[test]
fn the_default_configuration() {
    let conf = Conf::new("/tmp".to_string());
    assert_eq!(conf.engine.download_dir, "/tmp");
    assert_eq!(conf.engine.client_id, *b"cbt-0000000000000000");
    assert_eq!(CRATETORRENT_CLIENT_ID, *b"cbt-0000000000000000");
    let torrent = TorrentConf::default();
    assert_eq!(torrent.min_requested_peer_count, 10);
    assert_eq!(torrent.max_connected_peer_count, 50);
    assert_eq!(torrent.announce_interval.as_secs(), 30);
    assert_eq!(torrent.tracker_error_threshold, 15);
    assert_eq!(torrent.tracker_error_timeout.as_secs(), 60 * 60);
    assert!(!torrent.alerts.completed_pieces);
    assert!(!torrent.alerts.peers);
}

#[test]
fn requests_are_a_set() {
    let a = BlockInfo { piece_index: 0, offset: 0, len: 16 };
    let b = BlockInfo { piece_index: 0, offset: 16, len: 16 };
    let mut requests = RequestSet::new();
    assert_eq!(requests.len(), 0);
    assert!(requests.insert(a));
    assert!(requests.insert(b));
    assert!(!requests.insert(a));
    assert_eq!(requests.len(), 2);
    assert!(requests.contains(&a));
    assert!(requests.remove(&a));
    assert!(!requests.remove(&a));
    assert!(!requests.contains(&a));
    assert!(requests.contains(&b));
    assert_eq!(requests.as_slice().len(), 1);
    requests.clear();
    assert_eq!(requests.len(), 0);
}

#[test]
fn statistics_start_at_zero() {
    let stats = TorrentStats::default();
    assert!(stats.start_time.is_none());
    assert_eq!(stats.run_duration.nanos, 0);
    assert_eq!(stats.pieces, PieceStats::default());
    assert_eq!(stats.pieces.total, 0);
    assert_eq!(stats.pieces.latest_completed, None);
    assert_eq!(stats.uploaded_payload_stats, ThroughputStats { total: 0, rate: 0, peak: 0 });
    assert_eq!(stats.downloaded_protocol_stats, ThroughputStats::default());
    assert_eq!(stats.wasted_payload_count, 0);
    assert_eq!(stats.peer_count, 0);
}

#[test]
fn piece_stats_tell_the_phase_of_the_download() {
    let stats = |pending: usize, complete: usize| PieceStats {
        total: 5,
        pending,
        complete,
        latest_completed: None,
    };
    assert!(stats(0, 5).is_seed());
    assert!(!stats(0, 4).is_seed());
    assert!(stats(2, 3).is_in_endgame());
    assert!(!stats(1, 3).is_in_endgame());
    assert!(!stats(0, 0).is_in_endgame());
}
