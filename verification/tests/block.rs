use std::sync::Arc;

use cratetorrent::block::{block_count, block_len, Block, BlockData, BlockInfo, Side, TorrentId};
use cratetorrent::BLOCK_LEN;

// An arbitrary piece length that is an exact multiple of the canonical
// block length (16 KiB).
const BLOCK_LEN_MULTIPLE_PIECE_LEN: u32 = 2 * BLOCK_LEN;

// An arbitrary piece length that is _not_ a multiple of the canonical block
// length and the amount with which it overlaps the nearest exact multiple
// value.
const OVERLAP: u32 = 234;
const UNEVEN_PIECE_LEN: u32 = 2 * BLOCK_LEN + OVERLAP;

#[test]
fn test_block_len() {
    assert_eq!(block_len(BLOCK_LEN_MULTIPLE_PIECE_LEN, 0), BLOCK_LEN);
    assert_eq!(block_len(BLOCK_LEN_MULTIPLE_PIECE_LEN, 1), BLOCK_LEN);

    assert_eq!(block_len(UNEVEN_PIECE_LEN, 0), BLOCK_LEN);
    assert_eq!(block_len(UNEVEN_PIECE_LEN, 1), BLOCK_LEN);
    assert_eq!(block_len(UNEVEN_PIECE_LEN, 2), OVERLAP);
}

#[test]
fn test_block_count() {
    assert_eq!(block_count(BLOCK_LEN_MULTIPLE_PIECE_LEN), 2);

    assert_eq!(block_count(UNEVEN_PIECE_LEN), 3);
}

#[test]
fn block_count_edge_cases() {
    assert_eq!(block_count(0), 0);
    assert_eq!(block_count(1), 1);
    assert_eq!(block_count(u32::MAX), 262144);
}

#[test]
fn blocks_add_up_to_piece() {
    for piece_len in [1, BLOCK_LEN - 1, BLOCK_LEN, UNEVEN_PIECE_LEN] {
        let total: u32 = (0..block_count(piece_len)).map(|i| block_len(piece_len, i)).sum();
        assert_eq!(total, piece_len);
    }
}

#[test]
fn block_info_index_and_text() {
    let info = BlockInfo { piece_index: 1, offset: 2 * BLOCK_LEN, len: 100 };
    assert_eq!(info.index_in_piece(), 2);
    assert_eq!(info.to_text(), "(piece: 1 offset: 32768 len: 100)");
}

#[test]
fn torrent_ids_are_unique() {
    let mut counter = u32::MAX;
    let a = TorrentId::new(&mut counter);
    let b = TorrentId::new(&mut counter);
    let c = TorrentId::new(&mut counter);
    assert!(a != b && b != c && a != c);
    assert_eq!(a.to_text(), "t#4294967295");
    assert_eq!(b.to_text(), "t#0");
    assert_eq!(c.number(), 1);
    assert_eq!(counter, 2);
}

#[test]
fn block_data_is_owned_or_cached() {
    let info = BlockInfo { piece_index: 3, offset: 16384, len: 4 };
    let owned = Block::new(info, vec![1u8, 2, 3, 4]);
    assert_eq!(owned.info(), info);
    assert_eq!(owned.data, BlockData::Owned(vec![1, 2, 3, 4]));
    assert_eq!(owned.data.into_owned(), vec![1, 2, 3, 4]);

    let cached = Block::new(info, Arc::new(vec![5u8, 6]));
    assert_eq!(cached.data.as_slice(), &[5, 6]);
    assert_eq!(cached.info().len, 2);
}

#[test]
fn side_defaults_to_leech() {
    assert_eq!(Side::default(), Side::Leech);
}
