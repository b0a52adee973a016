use cratetorrent::disk::error::{ReadError, WriteError};
use cratetorrent::download::Downloads;
use cratetorrent::peer::status::{Rates, State};
use cratetorrent::piece_picker::PiecePicker;
use cratetorrent::storage_info::{FileInfo, FsStructure, StorageInfo};
use cratetorrent::time::{Duration, Instant};
use cratetorrent::torrent::context::TorrentContext;
use cratetorrent::torrent::{
    Message, PieceCompletion, SessionInfo, Throughput, Torrent, TrackerEntry,
};
use cratetorrent::tracker::{Addr, Event, Response};
use cratetorrent::{Bitfield, BlockInfo};

fn context(own_pieces: Bitfield) -> TorrentContext {
    TorrentContext {
        info_hash: [3; 20],
        client_id: [4; 20],
        piece_picker: PiecePicker::with_pieces(own_pieces),
        downloads: Downloads::new(),
        storage: StorageInfo {
            piece_count: 2,
            piece_len: 100,
            last_piece_len: 50,
            download_len: 150,
            download_path: "/tmp/torrent".to_string(),
            structure: FsStructure::File(FileInfo {
                path: "file".to_string(),
                len: 150,
                torrent_offset: 0,
            }),
        },
    }
}

fn addr(port: u16) -> Addr {
    Addr { is_v6: false, ip: 0x7f00_0001, port, flowinfo: 0, scope_id: 0 }
}

fn at(secs: u128) -> Instant {
    Instant { nanos: secs * 1_000_000_000 }
}

fn rates(rate: u64) -> Rates {
    Rates {
        downloaded_protocol: rate,
        uploaded_protocol: rate,
        downloaded_payload: rate,
        uploaded_payload: rate,
    }
}

fn response(peers: Vec<Addr>) -> Response {
    Response {
        tracker_id: Some("id".to_string()),
        failure_reason: None,
        warning_message: None,
        interval: Some(Duration::from_secs(60)),
        min_interval: Some(Duration::from_secs(10)),
        seeder_count: None,
        leecher_count: None,
        peers,
    }
}

fn peer_state(addr: Addr, state: State) -> Message {
    Message::PeerState {
        addr,
        info: SessionInfo {
            state,
            throughput: Throughput {
                downloaded_payload_count: 40,
                uploaded_payload_count: 3,
                downloaded_protocol_count: 2,
                uploaded_protocol_count: 1,
            },
        },
    }
}

#[test]
fn a_new_tracker_is_announced_to() {
    let entry = TrackerEntry::new();
    assert!(entry.should_announce(at(0)));
    assert!(entry.can_announce(at(0)));
}

#[test]
fn announces_wait_for_the_interval() {
    let mut entry = TrackerEntry::new();
    entry.last_announce_time = Some(at(100));
    entry.interval = Some(Duration::from_secs(60));
    entry.min_interval = Some(Duration::from_secs(10));
    assert!(!entry.can_announce(at(110)));
    assert!(entry.can_announce(at(111)));
    assert!(!entry.should_announce(at(160)));
    assert!(entry.should_announce(at(161)));
}

#[test]
fn an_announce_tells_the_progress() {
    let ctx = context(Bitfield::repeat(false, 2));
    let mut torrent = Torrent::new(1, 6881);
    torrent.start(&vec![addr(1)], at(100));
    assert_eq!(torrent.available_peers.len(), 1);
    torrent.downloaded_payload_counter.add(40);
    torrent.uploaded_payload_counter.add(7);

    let (i, announce) =
        torrent.announce_to_trackers(0, &ctx, at(100), Some(Event::Started)).unwrap();
    assert_eq!(i, 0);
    assert_eq!(announce.tracker_id, None);
    assert_eq!(announce.info_hash, [3; 20]);
    assert_eq!(announce.peer_id, [4; 20]);
    assert_eq!(announce.port, 6881);
    assert_eq!(announce.peer_count, Some(10));
    assert_eq!(announce.downloaded, 40);
    assert_eq!(announce.uploaded, 7);
    assert_eq!(announce.left, 110);
    assert!(announce.event == Some(Event::Started));
    // there is no second tracker
    assert!(torrent.announce_to_trackers(1, &ctx, at(100), Some(Event::Started)).is_none());
}

#[test]
fn a_response_is_remembered() {
    let ctx = context(Bitfield::repeat(false, 2));
    let mut torrent = Torrent::new(1, 6881);
    torrent.start(&Vec::new(), at(100));
    torrent.handle_announce_result(0, at(100), Some(response(vec![addr(5), addr(6)])));
    assert!(torrent.available_peers == vec![addr(5), addr(6)]);
    assert_eq!(torrent.trackers[0].id, Some("id".to_string()));
    assert!(torrent.trackers[0].last_announce_time == Some(at(100)));
    assert_eq!(torrent.trackers[0].error_count, 0);

    // we need peers, but not before the minimum interval has passed
    assert!(torrent.announce_to_trackers(0, &ctx, at(110), None).is_none());
    let (_, announce) = torrent.announce_to_trackers(0, &ctx, at(111), None).unwrap();
    assert_eq!(announce.tracker_id, Some("id".to_string()));
    assert_eq!(announce.peer_count, Some(10));
    // events are announced at any time, and no peers are requested when stopping
    let (_, announce) =
        torrent.announce_to_trackers(0, &ctx, at(101), Some(Event::Stopped)).unwrap();
    assert_eq!(announce.peer_count, None);
}

#[test]
fn with_enough_peers_the_whole_interval_is_kept() {
    let ctx = context(Bitfield::repeat(false, 2));
    let mut torrent = Torrent::new(1, 6881);
    torrent.start(&Vec::new(), at(100));
    let peers = (0..10).map(addr).collect();
    torrent.handle_announce_result(0, at(100), Some(response(peers)));
    assert!(torrent.announce_to_trackers(0, &ctx, at(160), None).is_none());
    let (_, announce) = torrent.announce_to_trackers(0, &ctx, at(161), None).unwrap();
    assert_eq!(announce.peer_count, None);
}

#[test]
fn a_failing_tracker_is_given_up() {
    let ctx = context(Bitfield::repeat(false, 2));
    let mut torrent = Torrent::new(2, 6881);
    torrent.start(&Vec::new(), at(0));
    for i in 0..10 {
        let (tracker, _) =
            torrent.announce_to_trackers(0, &ctx, at(i), Some(Event::Started)).unwrap();
        assert_eq!(tracker, 0);
        torrent.handle_announce_result(0, at(i), None);
    }
    assert_eq!(torrent.trackers[0].error_count, 10);
    let (tracker, _) =
        torrent.announce_to_trackers(0, &ctx, at(20), Some(Event::Started)).unwrap();
    assert_eq!(tracker, 1);
}

#[test]
fn at_most_fifty_peers_are_connected() {
    let mut torrent = Torrent::new(0, 6881);
    let peers: Vec<Addr> = (0..60).map(addr).collect();
    torrent.start(&peers, at(0));
    torrent.accept_peer(addr(1000));
    let connected = torrent.connect_peers();
    assert!(connected == peers[..49].to_vec());
    assert_eq!(torrent.peers.len(), 50);
    assert!(torrent.available_peers == peers[49..].to_vec());
    assert!(torrent.connect_peers().is_empty());
    assert!(torrent.peers[0].state == State::Handshaking);
    assert!(torrent.peers[1].state == State::Connecting);
}

#[test]
fn the_run_duration_is_recorded() {
    let mut torrent = Torrent::new(0, 6881);
    let mut prev_tick_time = None;
    torrent.start(&vec![addr(1)], at(10));
    torrent.downloaded_payload_counter.add(5);
    let connected = torrent.tick(&mut prev_tick_time, at(12), rates(3));
    assert!(connected == vec![addr(1)]);
    assert_eq!(torrent.run_duration.as_secs(), 2);
    assert!(prev_tick_time == Some(at(12)));
    assert_eq!(torrent.downloaded_payload_counter.round(), 0);
    assert_eq!(torrent.downloaded_payload_counter.total(), 5);
    assert_eq!(torrent.downloaded_payload_counter.avg(), 3);
    assert_eq!(torrent.downloaded_payload_counter.peak(), 3);
    torrent.tick(&mut prev_tick_time, at(15), rates(2));
    assert_eq!(torrent.downloaded_payload_counter.avg(), 2);
    assert_eq!(torrent.downloaded_payload_counter.peak(), 3);
    assert_eq!(torrent.run_duration.as_secs(), 5);
    // time that goes back is not counted
    torrent.tick(&mut prev_tick_time, at(14), rates(2));
    assert_eq!(torrent.run_duration.as_secs(), 5);
}

#[test]
fn peers_report_their_state() {
    let ctx = context(Bitfield::repeat(false, 2));
    let mut torrent = Torrent::new(0, 6881);
    torrent.accept_peer(addr(1));
    let reaction = torrent.handle_msg(&ctx, peer_state(addr(1), State::Connected));
    assert!(!reaction.stop && reaction.new_piece.is_none());
    assert!(torrent.peers[0].state == State::Connected);
    assert_eq!(torrent.downloaded_payload_counter.total(), 40);
    assert_eq!(torrent.uploaded_payload_counter.total(), 3);
    assert_eq!(torrent.downloaded_protocol_counter.total(), 2);
    assert_eq!(torrent.uploaded_protocol_counter.total(), 1);

    // an unknown peer is ignored
    torrent.handle_msg(&ctx, peer_state(addr(2), State::Connected));
    assert_eq!(torrent.downloaded_payload_counter.total(), 40);

    // a disconnected peer is removed
    torrent.handle_msg(&ctx, peer_state(addr(1), State::Disconnected));
    assert!(torrent.peers.is_empty());
    assert_eq!(torrent.downloaded_payload_counter.total(), 80);
}

#[test]
fn the_last_piece_stops_the_torrent() {
    let mut own_pieces = Bitfield::repeat(false, 2);
    own_pieces.set(0, true);
    let mut torrent = Torrent::new(0, 6881);
    let completion = |index: usize, is_valid: bool| {
        Message::PieceCompletion(Ok(PieceCompletion { index, is_valid }))
    };

    let ctx = context(own_pieces);
    let reaction = torrent.handle_msg(&ctx, completion(0, true));
    assert_eq!(reaction.new_piece, Some(0));
    assert!(!reaction.stop);

    let ctx = context(Bitfield::repeat(true, 2));
    let reaction = torrent.handle_msg(&ctx, completion(1, false));
    assert_eq!(reaction.new_piece, None);
    assert!(!reaction.stop);
    let reaction = torrent.handle_msg(&ctx, completion(1, true));
    assert_eq!(reaction.new_piece, Some(1));
    assert!(reaction.stop);
}

#[test]
fn disk_errors_do_not_stop_the_torrent() {
    let ctx = context(Bitfield::repeat(false, 2));
    let mut torrent = Torrent::new(0, 6881);
    let failed = Message::PieceCompletion(Err(WriteError::InvalidPieceIndex));
    let reaction = torrent.handle_msg(&ctx, failed);
    assert!(!reaction.stop && reaction.new_piece.is_none());
    let block_info = BlockInfo { piece_index: 0, offset: 0, len: 16 };
    let failed = Message::ReadError { block_info, error: ReadError::DataMissing };
    let reaction = torrent.handle_msg(&ctx, failed);
    assert!(!reaction.stop && reaction.new_piece.is_none());
}
