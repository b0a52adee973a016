use cratetorrent::peer::codec::Message;
use cratetorrent::peer::error::PeerError;
use cratetorrent::peer::seed_session::SeedSession;
use cratetorrent::peer::status::State;
use cratetorrent::piece_picker::PiecePicker;
use cratetorrent::Bitfield;

/// A session in which the handshakes were exchanged.
fn session() -> SeedSession {
    let mut session = SeedSession::outbound();
    session.state = State::AvailabilityExchange;
    session
}

#[test]
fn a_session_starts_disconnected_and_choked() {
    let session = SeedSession::outbound();
    assert!(session.state == State::Disconnected);
    assert!(session.status.is_choked);
    assert!(!session.status.is_interested);
    assert!(session.status.is_peer_choked);
    assert!(!session.status.is_peer_interested);
}

#[test]
fn a_seed_is_accepted() {
    let mut picker = PiecePicker::new(3);
    let mut session = session();
    let pieces = Bitfield::from_vec(vec![0b1110_0000]);
    session.run(&mut picker, Message::Bitfield(pieces)).unwrap();
    assert!(session.state == State::Connected);
    assert!(session.status.is_interested);
    assert_eq!(picker.pieces[2].frequency, 1);

    session.run(&mut picker, Message::Unchoke).unwrap();
    assert!(!session.status.is_choked);
    session.run(&mut picker, Message::Choke).unwrap();
    assert!(session.status.is_choked);
    session.run(&mut picker, Message::Interested).unwrap();
    assert!(session.status.is_peer_interested);
    session.run(&mut picker, Message::NotInterested).unwrap();
    assert!(!session.status.is_peer_interested);
    session.run(&mut picker, Message::KeepAlive).unwrap();
    session.run(&mut picker, Message::Have { piece_index: 1 }).unwrap();
    assert_eq!(picker.pieces[1].frequency, 1);

    let late = Message::Bitfield(Bitfield::from_vec(vec![0b1110_0000]));
    let r = session.run(&mut picker, late);
    assert!(matches!(r, Err(PeerError::BitfieldNotAfterHandshake)));
}

#[test]
fn a_leech_is_rejected() {
    let mut picker = PiecePicker::new(3);
    let mut session_ = session();
    let pieces = Bitfield::from_vec(vec![0b1100_0000]);
    let r = session_.run(&mut picker, Message::Bitfield(pieces));
    assert!(matches!(r, Err(PeerError::PeerNotSeed)));
    assert_eq!(picker.pieces[0].frequency, 0);

    let mut session_ = session();
    let r = session_.run(&mut picker, Message::Unchoke);
    assert!(matches!(r, Err(PeerError::PeerNotSeed)));
}
