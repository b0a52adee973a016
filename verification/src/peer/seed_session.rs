//! A session that only downloads from seeds.
//!
//! It is the simplest session there is: it accepts no peer but a seed, and only
//! keeps track of who is interested in whom and who chokes whom.

use vstd::prelude::*;

use crate::bitfield::{max_bits, resized, Bitfield};
use crate::peer::codec::{Message, MessageView};
use crate::peer::error::{PeerError, Result};
use crate::peer::status::State;
use crate::piece_picker::{PickerView, PiecePicker};

verus! {

/// The choke and interest status of a peer session.
///
/// By default, both sides of the connection start off as choked and not
/// interested in the other.
#[derive(Clone, Copy, Debug, PartialEq, Eq, Structural)]
pub struct Interest {
    pub is_choked: bool,
    pub is_interested: bool,
    pub is_peer_choked: bool,
    pub is_peer_interested: bool,
}

impl Default for Interest {
    fn default() -> (interest: Self)
        ensures
            interest == (Interest {
                is_choked: true,
                is_interested: false,
                is_peer_choked: true,
                is_peer_interested: false,
            }),
    {
        Interest {
            is_choked: true,
            is_interested: false,
            is_peer_choked: true,
            is_peer_interested: false,
        }
    }
}

/// A session with a seed.
#[derive(Clone, Copy, Debug, PartialEq, Eq, Structural)]
pub struct SeedSession {
    /// The current state of the session.
    pub state: State,
    /// Session related information.
    pub status: Interest,
}

/// What the session does on a message: its next state, what is left of the piece
/// picker, and whether the session goes on.
#[verifier::ext_equal]
pub struct SeedOutcome {
    pub session: SeedSession,
    pub picker: PickerView,
    pub result: std::result::Result<(), PeerError>,
}

impl SeedSession {
    /// What the session does on a message.
    pub open spec fn on_message(self, picker: PickerView, msg: MessageView) -> SeedOutcome {
        if self.state == State::AvailabilityExchange {
            match msg {
                MessageView::Bitfield(bits) => {
                    let pieces = resized(bits, picker.own.len(), false);
                    if pieces.contains(false) {
                        SeedOutcome { session: self, picker, result: Err(PeerError::PeerNotSeed) }
                    } else {
                        SeedOutcome {
                            session: SeedSession {
                                state: State::Connected,
                                status: Interest {
                                    is_interested: picker.interested(pieces),
                                    ..self.status
                                },
                            },
                            picker: picker.after_register(pieces),
                            result: Ok(()),
                        }
                    }
                },
                _ => SeedOutcome { session: self, picker, result: Err(PeerError::PeerNotSeed) },
            }
        } else if msg is Bitfield {
            SeedOutcome {
                session: self,
                picker,
                result: Err(PeerError::BitfieldNotAfterHandshake),
            }
        } else {
            let status = match msg {
                MessageView::Choke => Interest { is_choked: true, ..self.status },
                MessageView::Unchoke => Interest { is_choked: false, ..self.status },
                MessageView::Interested => Interest { is_peer_interested: true, ..self.status },
                MessageView::NotInterested => Interest {
                    is_peer_interested: false,
                    ..self.status
                },
                _ => self.status,
            };
            SeedOutcome { session: SeedSession { status, ..self }, picker, result: Ok(()) }
        }
    }

    /// Creates a new outbound session.
    ///
    /// The peer needs to be a seed in order for us to download a file through
    /// this peer session, otherwise the session is aborted with an error.
    pub fn outbound() -> (session: Self)
        ensures
            session.state == State::Disconnected,
            session.status == (Interest {
                is_choked: true,
                is_interested: false,
                is_peer_choked: true,
                is_peer_interested: false,
            }),
    {
        SeedSession { state: State::default(), status: Interest::default() }
    }

    /// Reacts to a message from the peer.
    pub fn run(&mut self, piece_picker: &mut PiecePicker, msg: Message) -> (r: Result<()>)
        requires
            old(piece_picker)@.wf(),
            old(piece_picker)@.has_room(),
            old(piece_picker)@.own.len() <= max_bits(),
        ensures
            final(piece_picker)@.wf(),
            (SeedOutcome {
                session: *final(self),
                picker: final(piece_picker)@,
                result: r,
            }) == old(self).on_message(old(piece_picker)@, msg@),
    {
        if self.state == State::AvailabilityExchange {
            // handle bitfield message separately as it may only be received
            // directly after the handshake
            match msg {
                Message::Bitfield(bitfield) => {
                    let mut pieces: Bitfield = bitfield;
                    // the bitfield that is sent may be longer than the pieces that
                    // it represents
                    pieces.resize(piece_picker.own_pieces().len(), false);
                    // if peer is not a seed, we abort the connection as we only
                    // support downloading and for that we must be connected to
                    // a seed
                    if !pieces.all() {
                        return Err(PeerError::PeerNotSeed);
                    }
                    // register peer's pieces with piece picker
                    self.status.is_interested = piece_picker.is_interested(&pieces);
                    piece_picker.register_availability(&pieces);
                    // enter connected state
                    self.state = State::Connected;
                },
                _ => {
                    // since we expect peer to be a seed, we *must* get
                    // a bitfield message, as otherwise we assume the peer to be
                    // a leech with no pieces to share (which is not good for
                    // our purposes of downloading a file)
                    return Err(PeerError::PeerNotSeed);
                },
            }
        } else {
            // handle rest of the protocol messages
            match msg {
                Message::Bitfield(_) => return Err(PeerError::BitfieldNotAfterHandshake),
                Message::Choke => {
                    self.status.is_choked = true;
                },
                Message::Unchoke => {
                    self.status.is_choked = false;
                },
                Message::Interested => {
                    self.status.is_peer_interested = true;
                },
                Message::NotInterested => {
                    self.status.is_peer_interested = false;
                },
                Message::KeepAlive => {},
                Message::Block { .. } => {},
                // these messages are not expected
                Message::Have { .. } => {},
                Message::Request(_) => {},
                Message::Cancel(_) => {},
            }
        }
        Ok(())
    }
}

/// A session is only entered into with a seed: the peer's first message must be
/// a bitfield with all pieces.
pub proof fn law_only_seeds_are_accepted(session: SeedSession, picker: PickerView, msg: MessageView)
    requires
        session.state == State::AvailabilityExchange,
    ensures
        session.on_message(picker, msg).result is Ok <==> (msg matches MessageView::Bitfield(bits)
            && bits.len() >= picker.own.len() && forall|i: int|
            0 <= i < picker.own.len() ==> #[trigger] bits[i]) || (msg is Bitfield
            && picker.own.len() == 0),
        session.on_message(picker, msg).result is Ok ==> session.on_message(
            picker,
            msg,
        ).session.state == State::Connected,
{
    if let MessageView::Bitfield(bits) = msg {
        let pieces = resized(bits, picker.own.len(), false);
        if pieces.contains(false) {
            let i = choose|i: int| 0 <= i < pieces.len() && pieces[i] == false;
            assert(i >= bits.len() || !bits[i]);
        } else {
            assert forall|i: int| 0 <= i < picker.own.len() implies i < bits.len()
                && #[trigger] bits[i] by {
                assert(pieces.contains(pieces[i]));
            }
            if picker.own.len() > 0 {
                assert(pieces.contains(pieces[picker.own.len() - 1]));
            }
        }
    }
}

/// Once a seed was accepted, each message changes its flag and no other: a choke and an
/// unchoke ours, interest and the lack of it the peer's. Nothing else changes anything.
pub proof fn law_messages_change_their_flag(
    session: SeedSession,
    picker: PickerView,
    msg: MessageView,
)
    requires
        session.state == State::Connected,
        !(msg is Bitfield),
    ensures
        ({
            let outcome = session.on_message(picker, msg);
            let before = session.status;
            let after = outcome.session.status;
            &&& outcome.result is Ok
            &&& outcome.picker == picker
            &&& outcome.session.state == State::Connected
            &&& msg is Choke ==> after.is_choked
            &&& msg is Unchoke ==> !after.is_choked
            &&& !(msg is Choke || msg is Unchoke) ==> after.is_choked == before.is_choked
            &&& msg is Interested ==> after.is_peer_interested
            &&& msg is NotInterested ==> !after.is_peer_interested
            &&& !(msg is Interested || msg is NotInterested) ==> after.is_peer_interested
                == before.is_peer_interested
            &&& after.is_interested == before.is_interested
            &&& after.is_peer_choked == before.is_peer_choked
        }),
{
}

/// A peer whose bitfield has all pieces is accepted, and its pieces are registered. We
/// are interested in it exactly if we lack a piece.
pub proof fn law_any_seed_is_accepted(session: SeedSession, picker: PickerView, bits: Seq<bool>)
    requires
        session.state == State::AvailabilityExchange,
        picker.wf(),
        bits.len() >= picker.own.len(),
    ensures
        ({
            let outcome = session.on_message(picker, MessageView::Bitfield(bits));
            let is_seed = forall|i: int| 0 <= i < picker.own.len() ==> #[trigger] bits[i];
            &&& is_seed ==> {
                &&& outcome.result is Ok
                &&& outcome.session.state == State::Connected
                &&& outcome.session.status.is_interested == picker.own.contains(false)
                &&& outcome.session.status.is_choked == session.status.is_choked
                &&& forall|i: int|
                    0 <= i < picker.pieces.len() && picker.pieces[i].frequency < usize::MAX
                        ==> #[trigger] outcome.picker.pieces[i].frequency
                        == picker.pieces[i].frequency + 1
            }
            &&& !is_seed ==> {
                &&& outcome.result == Err::<(), PeerError>(PeerError::PeerNotSeed)
                &&& outcome.session == session
                &&& outcome.picker == picker
            }
        }),
{
    let pieces = resized(bits, picker.own.len(), false);
    assert forall|i: int| 0 <= i < picker.own.len() implies #[trigger] pieces[i] == bits[i] by {}
    if forall|i: int| 0 <= i < picker.own.len() ==> #[trigger] bits[i] {
        assert(!pieces.contains(false)) by {
            if pieces.contains(false) {
                let i = choose|i: int| 0 <= i < pieces.len() && pieces[i] == false;
                assert(bits[i]);
            }
        }
        if picker.own.contains(false) {
            let i = choose|i: int| 0 <= i < picker.own.len() && picker.own[i] == false;
            assert(bits[i]);
            assert(!picker.own[i] && pieces[i]);
        }
    } else {
        let i = choose|i: int| 0 <= i < picker.own.len() && !#[trigger] bits[i];
        assert(pieces[i] == false);
    }
}

} // verus!
