use std::collections::HashSet;

use cratetorrent::download::{Block, PieceDownload};
use cratetorrent::{block_count, BlockInfo, BLOCK_LEN};

// Tests that repeatedly requesting as many blocks as are in the piece
// returns all blocks, none of them previously picked.
#[test]
fn test_pick_all_blocks_one_by_one() {
    let index = 0;
    let piece_len = 6 * BLOCK_LEN;

    let mut download = PieceDownload::new(index, piece_len);

    // save picked blocks
    let block_count = block_count(piece_len);
    let mut picked = HashSet::with_capacity(block_count);

    // pick all blocks one by one
    for _ in 0..block_count {
        let mut blocks = Vec::new();
        download.pick_blocks(1, &mut blocks);
        assert_eq!(blocks.len(), 1);
        let block = *blocks.first().unwrap();
        // assert that this block hasn't been picked before
        assert!(!picked.contains(&block));
        // mark block as picked
        picked.insert(block);
    }

    // assert that we picked all blocks
    assert_eq!(picked.len(), block_count);
    for block in download.blocks.iter() {
        assert!(matches!(block, Block::Requested));
    }
}

// Tests that requesting as many blocks as are in the piece in one go
// returns all blocks.
#[test]
fn test_pick_all_blocks() {
    let piece_index = 0;
    let piece_len = 6 * BLOCK_LEN;

    let mut download = PieceDownload::new(piece_index, piece_len);

    // pick all blocks
    let block_count = block_count(piece_len);
    let mut blocks = Vec::new();
    download.pick_blocks(block_count, &mut blocks);
    assert_eq!(blocks.len(), block_count);

    // assert that we picked all blocks
    for block in download.blocks.iter() {
        assert!(matches!(block, Block::Requested));
    }
}

// Tests that repeatedly requesting as many blocks as are in the piece
// returns all blocks, none of them previously picked.
#[test]
fn test_receive_all_blocks() {
    let piece_index = 0;
    let piece_len = 6 * BLOCK_LEN;

    let mut download = PieceDownload::new(piece_index, piece_len);

    let block_count = block_count(piece_len);
    let mut blocks = Vec::new();
    download.pick_blocks(block_count, &mut blocks);
    assert_eq!(blocks.len(), block_count);

    // mark all blocks as requested
    for block in blocks.iter() {
        download.received_block(block);
    }

    let mut blocks = Vec::new();
    download.pick_blocks(block_count, &mut blocks);
    assert!(blocks.is_empty());
}

// Tests that requesting as many blocks as are in the piece in one go
// returns only blocks not already requested or received.
#[test]
fn test_pick_free_blocks() {
    let piece_index = 0;
    let piece_len = 6 * BLOCK_LEN;

    let mut download = PieceDownload::new(piece_index, piece_len);

    // pick 4 blocks
    let picked_block_indices = [0, 1, 2, 3];
    let mut blocks = Vec::new();
    download.pick_blocks(picked_block_indices.len(), &mut blocks);
    assert_eq!(blocks.len(), picked_block_indices.len());

    // mark 3 of them as received
    let received_block_count = 3;
    for block in blocks.iter().take(received_block_count) {
        download.received_block(block);
    }

    let block_count = block_count(piece_len);

    assert_eq!(
        download.count_missing_blocks(),
        block_count - received_block_count
    );

    // pick all remaining free blocks
    let mut blocks = Vec::new();
    download.pick_blocks(block_count, &mut blocks);
    assert_eq!(blocks.len(), block_count - picked_block_indices.len());
}

/// A cancelled request makes the block free again.
#[test]
fn cancelled_blocks_are_picked_again() {
    let mut download = PieceDownload::new(3, 2 * BLOCK_LEN + 7);
    let mut blocks = Vec::new();
    download.pick_blocks(2, &mut blocks);
    assert_eq!(blocks.len(), 2);
    assert_eq!(download.count_missing_blocks(), 3);
    download.cancel_request(&blocks[0]);
    let first = blocks[0];
    blocks.clear();
    download.pick_blocks(5, &mut blocks);
    // the cancelled block and the last one, which is shorter
    let last = BlockInfo { piece_index: 3, offset: 2 * BLOCK_LEN, len: 7 };
    assert_eq!(blocks, vec![first, last]);
    download.received_block(&first);
    assert_eq!(download.count_missing_blocks(), 2);
    assert!(!download.is_complete());
}
