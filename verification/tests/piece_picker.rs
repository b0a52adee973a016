use std::collections::HashSet;

use cratetorrent::piece_picker::PiecePicker;
use cratetorrent::Bitfield;

// Tests that repeatedly requesting as many pieces as are in the piece
// picker returns all pieces, none of them previously picked.
#[test]
fn test_pick_all_pieces() {
    let piece_count = 15;
    let mut piece_picker = PiecePicker::new(piece_count);
    let available_pieces = Bitfield::repeat(true, piece_count);
    piece_picker.register_availability(&available_pieces);

    // save picked pieces
    let mut picked = HashSet::with_capacity(piece_count);

    // pick all pieces one by one
    for index in 0..piece_count {
        let pick = piece_picker.pick_piece();
        // for now we assert that we pick pieces in sequential order, but
        // later, when we add different algorithms, this line has to change
        assert_eq!(pick, Some(index));
        let pick = pick.unwrap();
        // assert that this piece hasn't been picked before
        assert!(!picked.contains(&pick));
        // mark piece as picked
        picked.insert(pick);
    }

    // assert that we picked all pieces
    assert_eq!(picked.len(), piece_count);
}

// Tests registering a received piece causes the piece picker to not pick
// that piece again.
#[test]
fn test_received_piece() {
    let piece_count = 15;
    let mut piece_picker = PiecePicker::new(piece_count);
    let available_pieces = Bitfield::repeat(true, piece_count);
    piece_picker.register_availability(&available_pieces);
    assert!(!piece_picker.own_pieces.any());

    // mark pieces as received
    let owned_pieces = [3, 10, 5];
    for index in owned_pieces.iter() {
        piece_picker.received_piece(*index);
        assert_eq!(piece_picker.own_pieces.get(*index), Some(true));
    }
    assert!(piece_picker.own_pieces.len() > 0);

    // request pieces to pick next and make sure the ones we already have
    // are not picked
    for _ in 0..piece_count - owned_pieces.len() {
        let pick = piece_picker.pick_piece().unwrap();
        // assert that it's not a piece we already have
        assert!(owned_pieces.iter().all(|owned| *owned != pick));
    }
}

// Tests that the piece picker correctly determines whether we are
// interested in a variety of piece sets.
#[test]
fn test_is_interested() {
    // empty piece picker
    let piece_count = 15;
    let mut piece_picker = PiecePicker::new(piece_count);

    // we are interested if peer has all pieces
    let available_pieces = Bitfield::repeat(true, piece_count);
    assert!(piece_picker.is_interested(&available_pieces));

    // we are also interested if peer has at least a single piece
    let mut available_pieces = Bitfield::repeat(false, piece_count);
    available_pieces.set(0, true);
    assert!(piece_picker.is_interested(&available_pieces));

    // half full piece picker
    let piece_count = 15;
    let mut piece_picker = PiecePicker::new(piece_count);
    for index in 0..8 {
        piece_picker.received_piece(index);
    }

    // we are not interested in peer that has the same pieces we do
    let mut available_pieces = Bitfield::repeat(false, piece_count);
    for index in 0..8 {
        available_pieces.set(index, true);
    }
    assert!(!piece_picker.is_interested(&available_pieces));

    // we are interested in peer that has at least a single piece we don't
    let mut available_pieces = Bitfield::repeat(false, piece_count);
    for index in 0..9 {
        available_pieces.set(index, true);
    }
    assert!(piece_picker.is_interested(&available_pieces));

    // full piece picker
    let piece_count = 15;
    let mut piece_picker = PiecePicker::new(piece_count);
    for index in 0..piece_count {
        piece_picker.received_piece(index);
    }

    // we are not interested in any pieces since we own all of them
    assert!(!piece_picker.is_interested(&available_pieces));
}
