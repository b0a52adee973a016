use cratetorrent::app::{parse_mode, App, PeerSummary, ThroughputHistory, Torrent};
use cratetorrent::engine::Mode;
use cratetorrent::metainfo::Metainfo;
use cratetorrent::storage_info::{FileInfo, FsStructure, StorageInfo};
use cratetorrent::time::Duration;
use cratetorrent::torrent::stats::{PieceStats, ThroughputStats, TorrentStats};
use cratetorrent::TorrentId;

fn file(path: &str, torrent_offset: u64, len: u64) -> FileInfo {
    FileInfo { path: path.to_string(), len, torrent_offset }
}

/// Three pieces of ten bytes and one of five, in three files.
fn metainfo() -> Metainfo {
    Metainfo {
        name: "name".to_string(),
        info_hash: [0xab; 20],
        pieces: vec![0; 80],
        piece_len: 10,
        structure: FsStructure::Archive {
            files: vec![file("a", 0, 8), file("b", 8, 4), file("c", 12, 23)],
        },
        trackers: Vec::new(),
    }
}

fn torrent(is_seed: bool) -> Torrent {
    let metainfo = metainfo();
    let storage = StorageInfo::new(&metainfo, "/tmp");
    assert!(storage.check_layout());
    Torrent::new(&metainfo, storage, is_seed)
}

fn throughput(rate: u64) -> ThroughputStats {
    ThroughputStats { total: 10 * rate, rate, peak: 2 * rate }
}

fn stats(latest_completed: Option<Vec<usize>>) -> TorrentStats {
    TorrentStats {
        start_time: None,
        run_duration: Duration::from_secs(3),
        pieces: PieceStats { total: 4, pending: 1, complete: 2, latest_completed },
        downloaded_payload_stats: throughput(1),
        wasted_payload_count: 0,
        uploaded_payload_stats: throughput(2),
        downloaded_protocol_stats: throughput(3),
        uploaded_protocol_stats: throughput(4),
        peer_count: 6,
    }
}

fn completion(torrent: &Torrent) -> Vec<u64> {
    torrent.files.iter().map(|file| file.complete).collect()
}

#[test]
fn a_new_torrent_has_nothing_or_everything() {
    let leech = torrent(false);
    assert_eq!(leech.name, "name");
    assert_eq!(leech.info_hash, "abababababababababababababababababababab");
    assert_eq!(leech.piece_len, 10);
    assert_eq!(leech.download_len, 35);
    assert_eq!(leech.pieces.total, 4);
    assert_eq!(leech.pieces.complete, 0);
    assert_eq!(leech.pieces.latest_completed, Some(Vec::new()));
    assert_eq!(completion(&leech), vec![0, 0, 0]);

    let seed = torrent(true);
    assert_eq!(seed.pieces.complete, 4);
    assert_eq!(seed.pieces.latest_completed, None);
    assert_eq!(completion(&seed), vec![8, 4, 23]);
}

#[test]
fn completed_pieces_complete_files() {
    let mut torrent = torrent(false);
    // the first piece is in all of the first file and half of the second
    assert!(torrent.check_pieces(&vec![0]));
    torrent.update(stats(Some(vec![0])));
    assert_eq!(completion(&torrent), vec![8, 2, 0]);
    torrent.update(stats(Some(vec![3, 1])));
    assert_eq!(completion(&torrent), vec![8, 4, 13]);
    assert_eq!(torrent.pieces.latest_completed, Some(vec![0, 3, 1]));
    // neither a piece that is complete nor one that does not exist can be added
    assert!(!torrent.check_pieces(&vec![0]));
    assert!(!torrent.check_pieces(&vec![2, 2]));
    assert!(!torrent.check_pieces(&vec![4]));
    assert!(torrent.check_pieces(&vec![2]));
    torrent.update(stats(Some(vec![2])));
    assert_eq!(completion(&torrent), vec![8, 4, 23]);
    assert_eq!(torrent.run_duration.as_secs(), 3);
    assert_eq!(torrent.peer_count, 6);
    assert_eq!(torrent.pieces.pending, 1);
    assert_eq!(torrent.uploaded_payload_stats.rate_history, vec![2, 2, 2]);
    assert_eq!(torrent.downloaded_protocol_stats.peak, 6);
    assert_eq!(torrent.uploaded_protocol_stats.total, 40);
}

#[test]
fn without_piece_updates_the_list_is_dropped() {
    let mut torrent = torrent(false);
    torrent.update(stats(None));
    assert_eq!(torrent.pieces.latest_completed, None);
    assert_eq!(completion(&torrent), vec![0, 0, 0]);
}

#[test]
fn the_history_is_limited() {
    let mut history = ThroughputHistory::default();
    for rate in 0..5 {
        history.update(&throughput(rate), 3);
    }
    assert_eq!(history.rate_history, vec![2, 3, 4]);
    assert_eq!(history.peak, 8);
    assert_eq!(history.total, 40);
}

#[test]
fn only_known_torrents_are_updated() {
    let mut app = App::new("/tmp".to_string());
    assert_eq!(app.download_dir, "/tmp");
    let mut counter = 0;
    let id = TorrentId::new(&mut counter);
    let other = TorrentId::new(&mut counter);
    app.create_torrent(id, torrent(false));
    assert!(app.update_torrent_state(id, stats(Some(vec![1]))));
    assert!(!app.update_torrent_state(other, stats(Some(vec![1]))));
    let updated = app.torrents.values().next().unwrap();
    assert_eq!(app.torrents.len(), 1);
    assert_eq!(completion(updated), vec![0, 2, 8]);
}

#[test]
fn the_mode_is_parsed() {
    assert!(matches!(parse_mode(&"seed".to_string()), Mode::Seed));
    for text in ["download", "", "Seed"].iter() {
        match parse_mode(&text.to_string()) {
            Mode::Download { seeds } => assert!(seeds.is_empty()),
            _ => panic!("download expected"),
        }
    }
}

#[test]
fn peers_are_introduced() {
    let mut peer = PeerSummary {
        addr: "127.0.0.1:6881".to_string(),
        id: None,
        is_connecting: true,
        piece_count: 1,
        percent: 25,
        is_choked: true,
        is_interested: true,
        is_peer_choked: true,
        is_peer_interested: true,
    };
    assert_eq!(peer.header(4), "127.0.0.1:6881 :: connecting... :: 25% :: CIci");
    peer.id = Some("cbt".to_string());
    peer.is_choked = false;
    peer.is_peer_interested = false;
    assert_eq!(peer.header(4), "127.0.0.1:6881 :: cbt :: 25% :: Ic");
    peer.id = None;
    peer.is_connecting = false;
    peer.is_interested = false;
    peer.is_peer_choked = false;
    peer.piece_count = 4;
    assert_eq!(peer.header(4), "127.0.0.1:6881 :: seed");
}
