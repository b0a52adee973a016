use cratetorrent::engine::Mode;
use cratetorrent::tracker::Addr;
use cratetorrent::Bitfield;

#[test]
fn bits_are_stored_from_the_most_significant() {
    let field = Bitfield::from_vec(vec![0b1010_0000, 0b0000_0001]);
    assert_eq!(field.len(), 16);
    assert_eq!(field.get(0), Some(true));
    assert_eq!(field.get(1), Some(false));
    assert_eq!(field.get(2), Some(true));
    assert_eq!(field.get(14), Some(false));
    assert_eq!(field.get(15), Some(true));
    assert_eq!(field.get(16), None);
    assert_eq!(field.as_slice(), &[0b1010_0000, 0b0000_0001]);
}

#[test]
fn bits_are_set_and_counted() {
    let mut field = Bitfield::repeat(false, 10);
    assert_eq!(field.len(), 10);
    assert!(!field.any());
    assert!(!field.all());
    assert_eq!(field.count_zeros(), 10);

    field.set(0, true);
    field.set(9, true);
    assert!(field.any());
    assert!(!field.all());
    assert_eq!(field.count_zeros(), 8);
    assert_eq!(field.as_slice()[0], 0b1000_0000);
    assert_eq!(field.as_slice()[1] & 0b1100_0000, 0b0100_0000);

    field.set(0, false);
    assert_eq!(field.count_zeros(), 9);
}

#[test]
fn an_empty_bitfield_has_all_bits_and_none() {
    let field = Bitfield::repeat(true, 0);
    assert_eq!(field.len(), 0);
    assert!(field.all());
    assert!(!field.any());
    assert_eq!(field.get(0), None);
    assert!(field.as_slice().is_empty());
}

#[test]
fn a_bitfield_is_resized_at_its_end() {
    let mut field = Bitfield::from_vec(vec![0b1111_0000]);
    field.resize(4, false);
    assert_eq!(field.len(), 4);
    assert!(field.all());
    field.resize(6, false);
    assert_eq!(field.len(), 6);
    assert_eq!(field.count_zeros(), 2);
    field.resize(7, true);
    assert_eq!(field.get(6), Some(true));
}

#[test]
fn a_clone_is_independent() {
    let field = Bitfield::repeat(true, 3);
    let mut other = field.clone();
    other.set(1, false);
    assert!(field.all());
    assert_eq!(other.count_zeros(), 1);
}

#[test]
fn own_pieces_depend_on_the_mode() {
    let addr = Addr { is_v6: false, ip: 0x7f00_0001, port: 6881, flowinfo: 0, scope_id: 0 };
    let download = Mode::Download { seeds: vec![addr] };
    let pieces = download.own_pieces(5);
    assert_eq!(pieces.len(), 5);
    assert_eq!(pieces.count_zeros(), 5);
    assert!(download.seeds() == vec![addr]);

    let pieces = Mode::Seed.own_pieces(5);
    assert_eq!(pieces.len(), 5);
    assert!(pieces.all());
    assert!(Mode::Seed.seeds().is_empty());
}
