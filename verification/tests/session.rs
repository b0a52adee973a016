use cratetorrent::download::Downloads;
use cratetorrent::peer::codec::{Handshake, Message};
use cratetorrent::peer::error::PeerError;
use cratetorrent::peer::session::{Action, Command, Event, PeerSession, Step};
use cratetorrent::peer::status::{Rates, State};
use cratetorrent::piece_picker::PiecePicker;
use cratetorrent::storage_info::{FileInfo, FsStructure, StorageInfo};
use cratetorrent::time::Instant;
use cratetorrent::torrent::context::TorrentContext;
use cratetorrent::{Bitfield, Block, BlockData, BlockInfo, BLOCK_LEN};

const INFO_HASH: [u8; 20] = [3; 20];

fn storage(piece_count: usize, piece_len: u32, last_piece_len: u32) -> StorageInfo {
    let download_len = (piece_count as u64 - 1) * piece_len as u64 + last_piece_len as u64;
    StorageInfo {
        piece_count,
        piece_len,
        last_piece_len,
        download_len,
        download_path: "/tmp/torrent".to_string(),
        structure: FsStructure::File(FileInfo {
            path: "file".to_string(),
            len: download_len,
            torrent_offset: 0,
        }),
    }
}

fn torrent(picker: PiecePicker) -> TorrentContext {
    TorrentContext {
        info_hash: INFO_HASH,
        client_id: *b"cbt-0000000000000000",
        piece_picker: picker,
        downloads: Downloads::new(),
        storage: storage(3, 2 * BLOCK_LEN, BLOCK_LEN + 10),
    }
}

fn leech() -> TorrentContext {
    torrent(PiecePicker::new(3))
}

fn seed() -> TorrentContext {
    torrent(PiecePicker::with_pieces(Bitfield::repeat(true, 3)))
}

fn at(secs: u128) -> Instant {
    Instant { nanos: secs * 1_000_000_000 }
}

fn rates(rate: u64) -> Rates {
    Rates {
        downloaded_protocol: rate,
        uploaded_protocol: rate,
        downloaded_payload: rate,
        uploaded_payload: rate,
    }
}

/// A session that has exchanged handshakes with the peer.
fn session(torrent: &TorrentContext) -> PeerSession {
    let mut session = PeerSession::new();
    session.start_outbound();
    session.send_handshake(torrent);
    session.handle_handshake(torrent, &Handshake::new(INFO_HASH, [9; 20])).unwrap();
    session.enter_availability_exchange();
    session
}

fn step(session: &mut PeerSession, torrent: &mut TorrentContext, event: Event) -> Step {
    assert!(session.is_ready_for(torrent, &event));
    session.run(torrent, event).unwrap()
}

fn receive(session: &mut PeerSession, torrent: &mut TorrentContext, msg: Message) -> Vec<Action> {
    step(session, torrent, Event::Message { now: at(10), msg }).actions
}

/// A session that is downloading from a seed: the peer has unchoked us.
fn downloading(torrent: &mut TorrentContext) -> (PeerSession, Vec<BlockInfo>) {
    let mut session = session(torrent);
    let bitfield = Bitfield::from_vec(vec![0b1110_0000]);
    let actions = receive(&mut session, torrent, Message::Bitfield(bitfield));
    assert!(matches!(actions.as_slice(), [Action::Send(Message::Interested)]));
    let requests = requested(&receive(&mut session, torrent, Message::Unchoke));
    (session, requests)
}

fn requested(actions: &[Action]) -> Vec<BlockInfo> {
    let mut blocks = Vec::new();
    for action in actions.iter() {
        match action {
            Action::Send(Message::Request(block)) => blocks.push(*block),
            _ => panic!("not a request"),
        }
    }
    blocks
}

fn block(piece_index: usize, index: u32) -> BlockInfo {
    let len = if piece_index == 2 && index == 1 { 10 } else { BLOCK_LEN };
    BlockInfo { piece_index, offset: index * BLOCK_LEN, len }
}

fn block_msg(block: BlockInfo) -> Message {
    Message::Block {
        piece_index: block.piece_index,
        offset: block.offset,
        data: BlockData::Owned(vec![7; block.len as usize]),
    }
}

#[test]
fn an_outbound_session_sends_the_first_handshake() {
    let torrent = leech();
    let mut session = PeerSession::new();
    assert!(session.status.state == State::Disconnected);
    session.start_outbound();
    assert!(session.status.state == State::Connecting);
    let handshake = session.send_handshake(&torrent);
    assert!(session.status.state == State::Handshaking);
    assert_eq!(handshake.prot, *b"BitTorrent protocol");
    assert_eq!(handshake.reserved, [0; 8]);
    assert_eq!(handshake.info_hash, INFO_HASH);
    assert_eq!(handshake.peer_id, *b"cbt-0000000000000000");
    assert_eq!(session.status.uploaded_protocol_counter.total(), handshake.len());
    let reply = Handshake::new(INFO_HASH, [9; 20]);
    assert!(session.handle_handshake(&torrent, &reply).is_ok());
    assert_eq!(session.status.downloaded_protocol_counter.total(), reply.len());
    assert_eq!(session.status.peer.as_ref().unwrap().id, [9; 20]);
    session.enter_availability_exchange();
    assert!(session.status.state == State::AvailabilityExchange);
}

#[test]
fn an_inbound_session_replies_with_a_handshake() {
    let torrent = leech();
    let mut session = PeerSession::new();
    let reply = session.start_inbound(&torrent, &Handshake::new(INFO_HASH, [9; 20])).unwrap();
    assert_eq!(reply.reserved, [0; 8]);
    assert_eq!(reply.info_hash, INFO_HASH);
    assert_eq!(reply.peer_id, torrent.client_id);
    assert!(session.status.state == State::Handshaking);
    assert_eq!(session.status.peer.as_ref().unwrap().id, [9; 20]);
}

#[test]
fn a_handshake_for_another_torrent_is_rejected() {
    let torrent = leech();
    let mut session = PeerSession::new();
    let handshake = Handshake::new([4; 20], [9; 20]);
    let r = session.handle_handshake(&torrent, &handshake);
    assert!(matches!(r, Err(PeerError::InvalidInfoHash)));
    assert!(session.status.peer.is_none());
    let r = session.start_inbound(&torrent, &handshake);
    assert!(matches!(r, Err(PeerError::InvalidInfoHash)));
}

#[test]
fn our_pieces_are_sent_if_there_are_any() {
    let torrent = leech();
    assert!(session(&torrent).begin(&torrent).is_none());
    let torrent = seed();
    match session(&torrent).begin(&torrent) {
        Some(Message::Bitfield(pieces)) => assert!(pieces.all()),
        _ => panic!("bitfield expected"),
    }
}

#[test]
fn an_unchoked_session_fills_its_pipeline() {
    let mut torrent = leech();
    let (session, requests) = downloading(&mut torrent);
    assert!(session.status.state == State::Connected);
    assert!(session.status.is_interested);
    assert!(!session.status.is_choked);
    assert!(session.status.in_slow_start);
    assert_eq!(session.status.target_request_queue_len, Some(4));
    assert_eq!(requests, vec![block(0, 0), block(0, 1), block(1, 0), block(1, 1)]);
    assert_eq!(session.outgoing_requests.len(), 4);
    assert_eq!(torrent.downloads.len(), 2);
    // handshake, interested and four request messages
    assert_eq!(session.status.uploaded_protocol_counter.total(), 68 + 5 + 4 * 17);
}

#[test]
fn a_received_block_is_written_and_followed_by_requests() {
    let mut torrent = leech();
    let (mut session, _) = downloading(&mut torrent);
    let actions = receive(&mut session, &mut torrent, block_msg(block(0, 1)));
    match &actions[0] {
        Action::WriteBlock { block: info, data } => {
            assert_eq!(*info, block(0, 1));
            assert_eq!(data.len(), BLOCK_LEN as usize);
        }
        _ => panic!("write expected"),
    }
    // slow start grew the queue to five, and three requests are pending
    assert_eq!(session.status.target_request_queue_len, Some(5));
    assert_eq!(requested(&actions[1..]), vec![block(2, 0), block(2, 1)]);
    assert_eq!(
        session.status.downloaded_payload_counter.total(),
        BLOCK_LEN as u64
    );

    // the last block of the piece completes it
    receive(&mut session, &mut torrent, block_msg(block(0, 0)));
    assert_eq!(torrent.piece_picker.count_missing_pieces(), 2);
    assert_eq!(torrent.downloads.len(), 2);
}

#[test]
fn a_block_that_was_not_requested_is_ignored() {
    let mut torrent = leech();
    let (mut session, _) = downloading(&mut torrent);
    let actions = receive(&mut session, &mut torrent, block_msg(block(2, 0)));
    assert!(actions.is_empty());
    assert_eq!(session.outgoing_requests.len(), 4);
    assert_eq!(session.status.downloaded_payload_counter.total(), 0);
}

#[test]
fn no_block_is_requested_by_two_sessions() {
    let mut torrent = leech();
    let (_, first) = downloading(&mut torrent);
    let (_, second) = downloading(&mut torrent);
    assert_eq!(second, vec![block(2, 0), block(2, 1)]);
    for b in first.iter() {
        assert!(!second.contains(b));
    }
}

#[test]
fn a_choke_drops_the_requests() {
    let mut torrent = leech();
    let (mut session, _) = downloading(&mut torrent);
    assert!(receive(&mut session, &mut torrent, Message::Choke).is_empty());
    assert!(session.status.is_choked);
    assert_eq!(session.outgoing_requests.len(), 0);
}

#[test]
fn nothing_is_requested_while_we_are_choked() {
    let mut torrent = leech();
    let (mut session, requests) = downloading(&mut torrent);
    receive(&mut session, &mut torrent, Message::Choke);
    let sent = session.status.uploaded_protocol_counter.total();

    // neither when a block arrives late nor when the requests would have timed out
    assert!(receive(&mut session, &mut torrent, block_msg(requests[0])).is_empty());
    let next = step(&mut session, &mut torrent, Event::Tick { now: at(60), rates: rates(0) });
    assert!(next.actions.is_empty());
    assert!(session.status.is_choked);
    assert_eq!(session.outgoing_requests.len(), 0);
    assert_eq!(session.status.uploaded_protocol_counter.total(), sent);
    assert_eq!(torrent.downloads.len(), 2);

    // but again when we are unchoked
    let again = requested(&receive(&mut session, &mut torrent, Message::Unchoke));
    assert_eq!(again, vec![block(2, 0), block(2, 1)]);
}

#[test]
fn a_late_bitfield_is_rejected() {
    let mut torrent = leech();
    let (mut session, _) = downloading(&mut torrent);
    let msg = Message::Bitfield(Bitfield::from_vec(vec![0xff]));
    let event = Event::Message { now: at(10), msg };
    assert!(session.is_ready_for(&torrent, &event));
    let r = session.run(&mut torrent, event);
    assert!(matches!(r, Err(PeerError::BitfieldNotAfterHandshake)));
}

#[test]
fn any_first_message_ends_the_availability_exchange() {
    let mut torrent = leech();
    let mut session = session(&torrent);
    assert!(receive(&mut session, &mut torrent, Message::KeepAlive).is_empty());
    assert!(session.status.state == State::Connected);
    assert_eq!(session.status.downloaded_protocol_counter.total(), 68 + 4);
}

#[test]
fn a_peer_without_pieces_for_us_is_not_told_that_we_are_interested() {
    // a leech that connects to us while we seed
    let mut torrent = seed();
    let mut session = session(&torrent);
    let msg = Message::Bitfield(Bitfield::from_vec(vec![0b0100_0000]));
    assert!(receive(&mut session, &mut torrent, msg).is_empty());
    assert!(session.status.state == State::Connected);
    assert!(!session.status.is_interested);
    assert_eq!(session.status.uploaded_protocol_counter.total(), 68);
    assert_eq!(torrent.piece_picker.pieces[1].frequency, 1);
    let pieces = session.status.peer.as_ref().unwrap().pieces.as_ref().unwrap();
    assert_eq!(pieces.len(), 3);
    assert_eq!(pieces.get(1), Some(true));

    // the session goes on, and the peer can be served
    let actions = receive(&mut session, &mut torrent, Message::Interested);
    assert!(matches!(actions.as_slice(), [Action::Send(Message::Unchoke)]));
}

#[test]
fn an_empty_bitfield_is_of_no_interest() {
    let mut torrent = leech();
    let mut session = session(&torrent);
    let msg = Message::Bitfield(Bitfield::from_vec(vec![0x00]));
    assert!(receive(&mut session, &mut torrent, msg).is_empty());
    assert!(!session.status.is_interested);
    // unchoked, we don't request anything
    assert!(receive(&mut session, &mut torrent, Message::Unchoke).is_empty());
    assert_eq!(session.outgoing_requests.len(), 0);
}

#[test]
fn an_interested_peer_is_unchoked_and_served() {
    let mut torrent = seed();
    let mut session = session(&torrent);
    let request = block(1, 1);

    // a choked peer may not request
    let event = Event::Message { now: at(10), msg: Message::Request(request) };
    let r = session.run(&mut torrent, event);
    assert!(matches!(r, Err(PeerError::RequestWhileChoked)));

    let actions = receive(&mut session, &mut torrent, Message::Interested);
    assert!(matches!(actions.as_slice(), [Action::Send(Message::Unchoke)]));
    assert!(!session.status.is_peer_choked);
    assert!(session.status.is_peer_interested);
    assert!(receive(&mut session, &mut torrent, Message::Interested).is_empty());

    let actions = receive(&mut session, &mut torrent, Message::Request(request));
    match actions.as_slice() {
        [Action::ReadBlock(info)] => assert_eq!(*info, request),
        _ => panic!("read expected"),
    }
    // a second request for the same block is ignored
    assert!(receive(&mut session, &mut torrent, Message::Request(request)).is_empty());

    let data = BlockData::Owned(vec![1; BLOCK_LEN as usize]);
    let read = Block { piece_index: 1, offset: BLOCK_LEN, data };
    let step = step(&mut session, &mut torrent, Event::Command(Command::Block(read)));
    assert!(!step.stop);
    match step.actions.as_slice() {
        [Action::Send(Message::Block { piece_index: 1, offset, data })] => {
            assert_eq!(*offset, BLOCK_LEN);
            assert_eq!(data.len(), BLOCK_LEN as usize);
        }
        _ => panic!("block expected"),
    }
    assert_eq!(session.status.uploaded_payload_counter.total(), BLOCK_LEN as u64);
    assert_eq!(session.incoming_requests.len(), 0);
    assert!(receive(&mut session, &mut torrent, Message::NotInterested).is_empty());
    assert!(!session.status.is_peer_interested);
}

#[test]
fn a_cancelled_request_is_not_served() {
    let mut torrent = seed();
    let mut session = session(&torrent);
    receive(&mut session, &mut torrent, Message::Interested);
    receive(&mut session, &mut torrent, Message::Request(block(0, 0)));
    receive(&mut session, &mut torrent, Message::Cancel(block(0, 0)));
    let data = BlockData::Owned(vec![1; BLOCK_LEN as usize]);
    let read = Block { piece_index: 0, offset: 0, data };
    let step = step(&mut session, &mut torrent, Event::Command(Command::Block(read)));
    assert!(step.actions.is_empty());
    assert_eq!(session.status.uploaded_payload_counter.total(), 0);
}

#[test]
fn interest_follows_the_pieces_of_the_peer() {
    let mut torrent = leech();
    torrent.piece_picker.received_piece(0);
    let mut session = session(&torrent);
    receive(&mut session, &mut torrent, Message::Have { piece_index: 0 });
    assert!(!session.status.is_interested);
    receive(&mut session, &mut torrent, Message::Have { piece_index: 2 });
    assert!(session.status.is_interested);
    // still interested in the third piece
    receive(&mut session, &mut torrent, Message::Have { piece_index: 0 });
    assert!(session.status.is_interested);
    assert_eq!(torrent.piece_picker.pieces[0].frequency, 2);
    assert_eq!(torrent.piece_picker.pieces[2].frequency, 1);

    let event = Event::Message { now: at(10), msg: Message::Have { piece_index: 3 } };
    let r = session.run(&mut torrent, event);
    assert!(matches!(r, Err(PeerError::InvalidPieceIndex)));
}

#[test]
fn timed_out_requests_are_made_again() {
    let mut torrent = leech();
    let (mut session, requests) = downloading(&mut torrent);
    // within two seconds of the requests nothing happens
    let next = step(&mut session, &mut torrent, Event::Tick { now: at(11), rates: rates(0) });
    assert!(next.actions.is_empty());
    assert_eq!(session.outgoing_requests.len(), 4);

    let next = step(&mut session, &mut torrent, Event::Tick { now: at(13), rates: rates(0) });
    assert_eq!(requested(&next.actions), vec![requests[0]]);
    assert_eq!(session.outgoing_requests.len(), 1);
    assert_eq!(session.status.timed_out_request_count, 1);
    assert_eq!(session.status.target_request_queue_len, Some(1));
    assert!(!session.status.in_slow_start);
}

#[test]
fn commands_are_performed() {
    let mut torrent = leech();
    let mut session = session(&torrent);
    let step_ = step(&mut session, &mut torrent, Event::Command(Command::NewPiece(1)));
    assert!(matches!(
        step_.actions.as_slice(),
        [Action::Send(Message::Have { piece_index: 1 })]
    ));
    assert!(!step_.stop);
    let step_ = step(&mut session, &mut torrent, Event::Command(Command::Shutdown));
    assert!(step_.actions.is_empty());
    assert!(step_.stop);
}

#[test]
fn the_request_queue_follows_the_download_rate() {
    let mut torrent = leech();
    let (mut session, _) = downloading(&mut torrent);
    // the queue only grows in slow start, which is left once the rate does not
    // increase significantly anymore
    session.status.downloaded_payload_counter.add(1);
    session.status.downloaded_payload_counter.reset(100_000);
    session.status.downloaded_payload_counter.add(89_999);
    session.status.tick(rates(3 * BLOCK_LEN as u64 + 1));
    assert!(!session.status.in_slow_start);
    // 100 000 / 16 384, rounded up
    assert_eq!(session.status.target_request_queue_len, Some(7));
    assert_eq!(session.status.downloaded_payload_counter.round(), 0);
    session.status.tick(rates(0));
    assert_eq!(session.status.target_request_queue_len, Some(4));
    session.status.tick(rates(0));
    assert_eq!(session.status.target_request_queue_len, Some(1));
}

#[test]
fn slow_start_is_left_when_the_rate_is_not_increasing_significantly() {
    let in_slow_start = |round: u64| -> bool {
        let mut torrent = leech();
        let (mut session, _) = downloading(&mut torrent);
        session.status.downloaded_payload_counter.reset(100_000);
        session.status.downloaded_payload_counter.add(round);
        session.status.maybe_exit_slow_start();
        session.status.in_slow_start
    };
    // an increase of 10 kB/s or more is significant
    assert!(in_slow_start(200_000));
    assert!(in_slow_start(110_000));
    assert!(!in_slow_start(109_999));
    assert!(!in_slow_start(100_000));
    assert!(!in_slow_start(90_000));
    assert!(!in_slow_start(1));
    // nothing can be told of a round in which nothing arrived
    assert!(in_slow_start(0));
}

#[test]
fn the_request_queue_is_recalculated_with_every_block() {
    let mut torrent = leech();
    let (mut session, requests) = downloading(&mut torrent);
    session.status.in_slow_start = false;
    session.status.downloaded_payload_counter.reset(5 * BLOCK_LEN as u64 + 1);
    assert_eq!(session.status.target_request_queue_len, Some(4));
    let actions = receive(&mut session, &mut torrent, block_msg(requests[0]));
    assert_eq!(session.status.target_request_queue_len, Some(6));
    // the block is written, and the two blocks that are left are requested
    assert_eq!(actions.len(), 3);
    assert_eq!(session.outgoing_requests.len(), 5);

    session.status.downloaded_payload_counter.reset(0);
    receive(&mut session, &mut torrent, block_msg(requests[1]));
    assert_eq!(session.status.target_request_queue_len, Some(1));
}

#[test]
fn the_request_timeout_follows_the_round_trips() {
    let mut torrent = leech();
    let (mut session, requests) = downloading(&mut torrent);
    assert_eq!(session.status.request_timeout().as_millis(), 2_000);
    let event = Event::Message { now: at(15), msg: block_msg(requests[0]) };
    step(&mut session, &mut torrent, event);
    // five seconds from the request to the block
    assert_eq!(session.status.request_timeout().as_millis(), 5_000);
}
