//! Decides which piece is downloaded next.

use vstd::prelude::*;

use crate::bitfield::{count_unset, max_bits, Bitfield};

verus! {

/// Metadata about a piece relevant for the piece picker.
#[derive(Clone, Copy, Debug, PartialEq, Eq, Structural)]
pub struct Piece {
    /// The frequency of this piece in the torrent swarm.
    pub frequency: usize,
    /// Whether we have already picked this piece and are currently downloading
    /// it. This flag is set to true when the piece is picked.
    ///
    /// This is to prevent picking the same piece we are already downloading in
    /// the scenario in which we want to pick a new piece before the already
    /// downloadng piece finishes. Not having this check would lead us to always
    /// pick this piece until we tell the piece picker that we have it and thus
    /// wouldn't be able to download multiple pieces simultaneously (an important
    /// optimizaiton step).
    pub is_pending: bool,
}

/// Picks the pieces to download.
#[derive(Debug)]
pub struct PiecePicker {
    /// Represents the pieces that we have downloaded.
    ///
    /// The bitfield is pre-allocated to the number of pieces in the torrent and
    /// each field that we have is set to true.
    pub own_pieces: Bitfield,
    /// We collect metadata about pieces in the torrent swarm in this vector.
    ///
    /// The vector is pre-allocated to the number of pieces in the torrent.
    pub pieces: Vec<Piece>,
}

/// The state of a piece picker: which pieces we have, and what is known of each.
#[verifier::ext_equal]
pub struct PickerView {
    pub own: Seq<bool>,
    pub pieces: Seq<Piece>,
}

impl View for PiecePicker {
    type V = PickerView;

    open spec fn view(&self) -> PickerView {
        PickerView { own: self.own_pieces@, pieces: self.pieces@ }
    }
}

/// The number of pieces that can be picked.
pub open spec fn count_pickable(own: Seq<bool>, pieces: Seq<Piece>) -> nat
    decreases pieces.len(),
{
    if pieces.len() == 0 {
        0
    } else {
        count_pickable(own, pieces.drop_last()) + (if !own[pieces.len() - 1] && pieces.last().frequency
            > 0 && !pieces.last().is_pending {
            1nat
        } else {
            0nat
        })
    }
}

impl PickerView {
    /// Whether there is a bit for each piece.
    pub open spec fn wf(self) -> bool {
        self.own.len() == self.pieces.len()
    }

    /// The state at the start of a torrent of which we have these pieces.
    pub open spec fn fresh(own: Seq<bool>) -> PickerView {
        PickerView {
            own,
            pieces: Seq::new(own.len(), |i: int| Piece { frequency: 0, is_pending: false }),
        }
    }

    /// Whether the piece can be picked: we don't have it, some peer has it, and it
    /// is not already being downloaded.
    pub open spec fn pickable(self, i: int) -> bool {
        &&& 0 <= i < self.pieces.len()
        &&& !self.own[i]
        &&& self.pieces[i].frequency > 0
        &&& !self.pieces[i].is_pending
    }

    /// Whether the piece is the first that can be picked.
    pub open spec fn first_pickable(self, i: int) -> bool {
        self.pickable(i) && forall|j: int| 0 <= j < i ==> !self.pickable(j)
    }

    /// The state after the piece was picked.
    pub open spec fn after_pick(self, i: int) -> PickerView {
        PickerView {
            pieces: self.pieces.update(i, Piece { is_pending: true, ..self.pieces[i] }),
            ..self
        }
    }

    /// The number of pieces that can be picked.
    pub open spec fn pickable_count(self) -> nat {
        count_pickable(self.own, self.pieces)
    }

    /// The state after a peer's pieces were registered.
    pub open spec fn after_register(self, peer: Seq<bool>) -> PickerView {
        PickerView {
            pieces: Seq::new(
                self.pieces.len(),
                |i: int|
                    if peer[i] {
                        Piece {
                            frequency: (self.pieces[i].frequency + 1) as usize,
                            ..self.pieces[i]
                        }
                    } else {
                        self.pieces[i]
                    },
            ),
            ..self
        }
    }

    /// The state after a single piece of a peer was registered.
    pub open spec fn after_register_piece(self, i: int) -> PickerView {
        PickerView {
            pieces: self.pieces.update(
                i,
                Piece { frequency: (self.pieces[i].frequency + 1) as usize, ..self.pieces[i] },
            ),
            ..self
        }
    }

    /// The state after a piece was received.
    pub open spec fn after_receive(self, i: int) -> PickerView {
        PickerView {
            own: self.own.update(i, true),
            pieces: self.pieces.update(i, Piece { is_pending: false, ..self.pieces[i] }),
        }
    }

    /// Whether the pieces contain one that we don't have.
    pub open spec fn interested(self, peer: Seq<bool>) -> bool {
        exists|i: int|
            0 <= i < self.own.len() && i < peer.len() && !#[trigger] self.own[i] && peer[i]
    }

    /// Whether the frequencies can be increased.
    pub open spec fn has_room(self) -> bool {
        forall|i: int| 0 <= i < self.pieces.len() ==> (#[trigger] self.pieces[i]).frequency
            < usize::MAX
    }
}

impl PiecePicker {
    /// Creates a piece picker for a torrent of which we have no pieces.
    pub fn new(piece_count: usize) -> (picker: Self)
        requires
            piece_count <= max_bits(),
        ensures
            picker@.wf(),
            picker@ == PickerView::fresh(Seq::new(piece_count as nat, |i: int| false)),
    {
        PiecePicker::with_pieces(Bitfield::repeat(false, piece_count))
    }

    /// Creates a piece picker for a torrent of which we have the given pieces.
    pub fn with_pieces(own_pieces: Bitfield) -> (picker: Self)
        ensures
            picker@.wf(),
            picker@ == PickerView::fresh(own_pieces@),
    {
        let count: usize = own_pieces.len();
        let mut pieces: Vec<Piece> = Vec::new();
        let mut i: usize = 0;
        while i < count
            invariant
                i <= count,
                pieces@ == Seq::new(
                    i as nat,
                    |i: int| Piece { frequency: 0, is_pending: false },
                ),
            decreases count - i,
        {
            pieces.push(Piece { frequency: 0, is_pending: false });
            i = i + 1;
            assert(pieces@ =~= Seq::new(
                i as nat,
                |i: int| Piece { frequency: 0, is_pending: false },
            ));
        }
        PiecePicker { own_pieces, pieces }
    }

    /// Returns an immutable reference to a bitfield of the pieces we own.
    pub fn own_pieces(&self) -> (own: &Bitfield)
        ensures
            own@ == self@.own,
    {
        &self.own_pieces
    }

    /// Returns the number of missing pieces that are needed to complete the
    /// download.
    pub fn count_missing_pieces(&self) -> (count: usize)
        ensures
            count == count_unset(self@.own),
    {
        self.own_pieces.count_zeros()
    }

    /// Returns the first piece that we don't yet have and isn't already being
    /// downloaded, or None, if no piece can be picked at this time.
    pub fn pick_piece(&mut self) -> (pick: Option<usize>)
        requires
            old(self)@.wf(),
        ensures
            final(self)@.wf(),
            match pick {
                Some(index) => {
                    &&& old(self)@.first_pickable(index as int)
                    &&& final(self)@ == old(self)@.after_pick(index as int)
                },
                None => {
                    &&& forall|i: int| !old(self)@.pickable(i)
                    &&& final(self)@ == old(self)@
                },
            },
    {
        let mut index: usize = 0;
        while index < self.pieces.len()
            invariant
                index <= self.pieces@.len(),
                self@ == old(self)@,
                self@.wf(),
                forall|i: int| 0 <= i < index ==> !self@.pickable(i),
            decreases self.pieces@.len() - index,
        {
            let have_piece: bool = match self.own_pieces.get(index) {
                Some(have_piece) => have_piece,
                None => false,
            };
            // only consider this piece if we don't have it and if we are not
            // already downloading it (whether it's not pending)
            let piece: Piece = self.pieces[index];
            if !have_piece && piece.frequency > 0 && !piece.is_pending {
                // set pending flag on piece so that this piece is not picked
                // again (see note on field)
                self.pieces[index] = Piece { frequency: piece.frequency, is_pending: true };
                assert(self@ =~= old(self)@.after_pick(index as int));
                return Some(index);
            }
            index = index + 1;
        }
        // no piece could be picked
        None
    }

    /// Registers the avilability of a peer's pieces.
    pub fn register_availability(&mut self, pieces: &Bitfield)
        requires
            old(self)@.wf(),
            old(self)@.has_room(),
            pieces@.len() == old(self)@.own.len(),
        ensures
            final(self)@.wf(),
            final(self)@ == old(self)@.after_register(pieces@),
    {
        let mut index: usize = 0;
        let ghost before = self@;
        while index < self.pieces.len()
            invariant
                index <= self.pieces@.len(),
                before == old(self)@,
                before.wf(),
                before.has_room(),
                pieces@.len() == before.own.len(),
                self@.own == before.own,
                self@.pieces.len() == before.pieces.len(),
                forall|i: int|
                    0 <= i < index ==> #[trigger] self@.pieces[i] == before.after_register(
                        pieces@,
                    ).pieces[i],
                forall|i: int|
                    index <= i < before.pieces.len() ==> #[trigger] self@.pieces[i]
                        == before.pieces[i],
            decreases self.pieces@.len() - index,
        {
            // increase frequency count for this piece if peer has it
            let peer_has_piece: bool = match pieces.get(index) {
                Some(peer_has_piece) => peer_has_piece,
                None => false,
            };
            if peer_has_piece {
                let piece: Piece = self.pieces[index];
                assert(before.pieces[index as int] == piece);
                self.pieces[index] = Piece {
                    frequency: piece.frequency + 1,
                    is_pending: piece.is_pending,
                };
            }
            index = index + 1;
        }
        assert(self@ =~= before.after_register(pieces@));
    }

    /// Determines if we are interested in the given pieces. This happens if the
    /// pieces contain at least one piece that we don't have.
    pub fn is_interested(&self, pieces: &Bitfield) -> (interested: bool)
        ensures
            interested == self@.interested(pieces@),
    {
        let len: usize = self.own_pieces.len();
        let mut index: usize = 0;
        while index < len
            invariant
                index <= len,
                len == self@.own.len(),
                forall|i: int|
                    0 <= i < index && i < pieces@.len() ==> !(!#[trigger] self@.own[i]
                        && pieces@[i]),
            decreases len - index,
        {
            // if we don't have a piece that peer has, we are interested
            match (self.own_pieces.get(index), pieces.get(index)) {
                (Some(has_piece), Some(peer_has_piece)) => {
                    if !has_piece && peer_has_piece {
                        assert(!self@.own[index as int]);
                        return true;
                    }
                },
                _ => {},
            }
            index = index + 1;
        }
        false
    }

    /// Registers the avilability of a single new piece of a peer.
    pub fn register_piece_availability(&mut self, index: usize)
        requires
            old(self)@.wf(),
            index < old(self)@.pieces.len(),
            old(self)@.pieces[index as int].frequency < usize::MAX,
        ensures
            final(self)@.wf(),
            final(self)@ == old(self)@.after_register_piece(index as int),
    {
        // increase frequency count for this piece
        let piece: Piece = self.pieces[index];
        self.pieces[index] = Piece {
            frequency: piece.frequency + 1,
            is_pending: piece.is_pending,
        };
        assert(self@ =~= old(self)@.after_register_piece(index as int));
    }

    /// Tells the piece picker that we have downloaded the piece at the given
    /// index.
    pub fn received_piece(&mut self, index: usize)
        requires
            old(self)@.wf(),
            index < old(self)@.pieces.len(),
        ensures
            final(self)@.wf(),
            final(self)@ == old(self)@.after_receive(index as int),
    {
        // register owned piece
        self.own_pieces.set(index, true);
        // also set that this piece is no longer pending (even though we won't
        // be downloading it anymore, later we may re-download a piece in which
        // case not resetting the flag would cause us to never pick that piece
        // again)
        let piece: Piece = self.pieces[index];
        self.pieces[index] = Piece { frequency: piece.frequency, is_pending: false };
        assert(self@ =~= old(self)@.after_receive(index as int));
    }

    /// Tells whether the frequencies of all pieces can be increased.
    pub fn can_register(&self) -> (r: bool)
        ensures
            r == self@.has_room(),
    {
        let mut i: usize = 0;
        while i < self.pieces.len()
            invariant
                i <= self.pieces@.len(),
                forall|k: int|
                    0 <= k < i ==> (#[trigger] self@.pieces[k]).frequency < usize::MAX,
            decreases self.pieces@.len() - i,
        {
            if self.pieces[i].frequency == usize::MAX {
                assert(!(self@.pieces[i as int].frequency < usize::MAX));
                return false;
            }
            i = i + 1;
        }
        true
    }
}

proof fn lemma_count_update(own: Seq<bool>, pieces: Seq<Piece>, i: int)
    requires
        0 <= i < pieces.len(),
        !own[i],
        pieces[i].frequency > 0,
        !pieces[i].is_pending,
    ensures
        count_pickable(own, pieces.update(i, Piece { is_pending: true, ..pieces[i] })) + 1
            == count_pickable(own, pieces),
    decreases pieces.len(),
{
    let updated = pieces.update(i, Piece { is_pending: true, ..pieces[i] });
    if i == pieces.len() - 1 {
        assert(updated.drop_last() =~= pieces.drop_last());
    } else {
        lemma_count_update(own, pieces.drop_last(), i);
        assert(updated.drop_last() =~= pieces.drop_last().update(
            i,
            Piece { is_pending: true, ..pieces[i] },
        ));
    }
}

/// Each pick leaves one piece less to pick.
pub proof fn law_picks_count_down(picker: PickerView, i: int)
    requires
        picker.pickable(i),
    ensures
        picker.after_pick(i).pickable_count() + 1 == picker.pickable_count(),
{
    lemma_count_update(picker.own, picker.pieces, i);
}

/// A piece that was picked, and a piece that we have, is not picked again, and
/// picking or receiving a piece changes nothing for the other pieces.
pub proof fn law_picked_and_received_pieces_stay_unpickable(picker: PickerView, i: int, j: int)
    requires
        picker.wf(),
        0 <= i < picker.pieces.len(),
    ensures
        !picker.after_pick(i).pickable(i),
        !picker.after_receive(i).pickable(i),
        !picker.after_pick(i).after_receive(i).pickable(i),
        i != j ==> picker.after_pick(i).pickable(j) == picker.pickable(j),
        i != j ==> picker.after_receive(i).pickable(j) == picker.pickable(j),
        picker.own[i] ==> !picker.pickable(i),
{
}

/// If all pieces are available then they are picked in sequential order: after the
/// first `n` pieces were picked, piece `n` is the next.
pub proof fn law_pieces_are_picked_in_order(picker: PickerView, n: int)
    requires
        picker.wf(),
        0 <= n < picker.pieces.len(),
        forall|i: int| 0 <= i < n ==> !picker.pickable(i),
        picker.pickable(n),
    ensures
        picker.first_pickable(n),
        forall|i: int| picker.first_pickable(i) ==> i == n,
        forall|i: int| 0 <= i <= n ==> !picker.after_pick(n).pickable(i),
        forall|i: int|
            n < i < picker.pieces.len() ==> #[trigger] picker.after_pick(n).pickable(i)
                == picker.pickable(i),
{
    assert forall|i: int| 0 <= i <= n implies !picker.after_pick(n).pickable(i) by {
        if i < n {
            assert(!picker.pickable(i));
        }
    }
}

/// We are interested in a peer that has all pieces until we have them all
/// ourselves, and never in one that has none.
pub proof fn law_interest_in_seed(picker: PickerView)
    requires
        picker.wf(),
    ensures
        picker.interested(Seq::new(picker.own.len(), |i: int| true)) == picker.own.contains(false),
        !picker.interested(Seq::new(picker.own.len(), |i: int| false)),
        !picker.interested(picker.own),
{
    let all = Seq::new(picker.own.len(), |i: int| true);
    if picker.own.contains(false) {
        let i = choose|i: int| 0 <= i < picker.own.len() && picker.own[i] == false;
        assert(!picker.own[i] && all[i]);
    }
}

/// A single piece that the peer has and we don't is enough to be interested, whatever
/// the other pieces are, and a peer that has nothing but what we have is of no
/// interest. So interest does not end when the peer gets more pieces, nor when we get
/// a piece that the peer lacks.
pub proof fn law_one_missing_piece_is_of_interest(
    picker: PickerView,
    peer: Seq<bool>,
    later: Seq<bool>,
    i: int,
    j: int,
)
    requires
        peer.len() == picker.own.len(),
        later.len() == picker.own.len(),
        0 <= i < picker.own.len(),
        0 <= j < picker.own.len(),
        forall|k: int| 0 <= k < peer.len() && peer[k] ==> #[trigger] later[k],
    ensures
        !picker.own[i] && peer[i] ==> picker.interested(peer),
        (forall|k: int| 0 <= k < peer.len() && #[trigger] peer[k] ==> picker.own[k])
            ==> !picker.interested(peer),
        picker.interested(peer) ==> picker.interested(later),
        !peer[j] ==> picker.after_receive(j).interested(peer) == picker.interested(peer),
{
    if picker.interested(peer) {
        let k = choose|k: int|
            0 <= k < picker.own.len() && k < peer.len() && !#[trigger] picker.own[k] && peer[k];
        assert(peer[k]);
        assert(later[k]);
        assert(!picker.own[k]);
        if !peer[j] {
            assert(!picker.after_receive(j).own[k]);
        }
    }
    if !peer[j] && picker.after_receive(j).interested(peer) {
        let after = picker.after_receive(j);
        let k = choose|k: int|
            0 <= k < after.own.len() && k < peer.len() && !#[trigger] after.own[k] && peer[k];
        assert(!picker.own[k]);
    }
}

/// Registering the pieces of a peer counts the peer for each piece that it has, and
/// for no other, and changes nothing else.
pub proof fn law_availability_counts_peers(picker: PickerView, peer: Seq<bool>, i: int)
    requires
        picker.wf(),
        peer.len() == picker.pieces.len(),
        0 <= i < picker.pieces.len(),
        picker.pieces[i].frequency < usize::MAX,
    ensures
        ({
            let after = picker.after_register(peer);
            &&& after.own == picker.own
            &&& after.pieces.len() == picker.pieces.len()
            &&& peer[i] ==> after.pieces[i].frequency == picker.pieces[i].frequency + 1
            &&& !peer[i] ==> after.pieces[i].frequency == picker.pieces[i].frequency
            &&& after.pieces[i].is_pending == picker.pieces[i].is_pending
        }),
        ({
            let after = picker.after_register_piece(i);
            &&& after.own == picker.own
            &&& after.pieces.len() == picker.pieces.len()
            &&& after.pieces[i].frequency == picker.pieces[i].frequency + 1
            &&& after.pieces[i].is_pending == picker.pieces[i].is_pending
            &&& forall|k: int|
                0 <= k < picker.pieces.len() && k != i ==> #[trigger] after.pieces[k]
                    == picker.pieces[k]
        }),
{
}

/// A piece can be picked exactly if we don't have it, a peer was registered that has
/// it, and it was not picked before. As long as there is such a piece, a piece is
/// picked, and never one while another that can be picked comes before it.
pub proof fn law_available_pieces_can_be_picked(own: Seq<bool>, peer: Seq<bool>, i: int)
    requires
        peer.len() == own.len(),
        0 <= i < own.len(),
    ensures
        ({
            let start = PickerView::fresh(own);
            let registered = start.after_register(peer);
            &&& start.wf()
            &&& start.own == own
            &&& !start.pickable(i)
            &&& registered.pickable(i) <==> !own[i] && peer[i]
            &&& !registered.after_pick(i).pickable(i)
            &&& start.after_register_piece(i).pickable(i) == !own[i]
        }),
{
}

/// Where a piece can be picked, there is a first one, and it is not behind it.
pub proof fn law_some_piece_is_picked(picker: PickerView, i: int) -> (first: int)
    requires
        0 <= i < picker.pieces.len(),
        i < picker.own.len(),
        !picker.own[i],
        picker.pieces[i].frequency > 0,
        !picker.pieces[i].is_pending,
    ensures
        0 <= first <= i,
        picker.first_pickable(first),
        !picker.own[first],
        picker.pieces[first].frequency > 0,
        !picker.pieces[first].is_pending,
    decreases i,
{
    if exists|j: int| 0 <= j < i && picker.pickable(j) {
        let j = choose|j: int| 0 <= j < i && picker.pickable(j);
        law_some_piece_is_picked(picker, j)
    } else {
        i
    }
}

/// Picking a piece marks it as being downloaded, and receiving it makes it ours and
/// ends that. Neither changes anything of the other pieces.
pub proof fn law_picked_piece_becomes_ours(picker: PickerView, i: int, j: int)
    requires
        picker.wf(),
        0 <= i < picker.pieces.len(),
        0 <= j < picker.pieces.len(),
        i != j,
    ensures
        ({
            let picked = picker.after_pick(i);
            let received = picked.after_receive(i);
            &&& picked.own == picker.own
            &&& picked.pieces.len() == picker.pieces.len()
            &&& picked.pieces[i].is_pending
            &&& picked.pieces[i].frequency == picker.pieces[i].frequency
            &&& picked.pieces[j] == picker.pieces[j]
            &&& received.own.len() == picker.own.len()
            &&& received.pieces.len() == picker.pieces.len()
            &&& received.own[i]
            &&& received.own[j] == picker.own[j]
            &&& !received.pieces[i].is_pending
            &&& received.pieces[i].frequency == picker.pieces[i].frequency
            &&& received.pieces[j] == picker.pieces[j]
        }),
{
}

} // verus!
