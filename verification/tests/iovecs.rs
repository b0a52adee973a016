use cratetorrent::iovecs::{split_at_mut_inclusive, IoVec, IoVecs};

#[test]
fn iovecs_test_split_at_mut_inclusive() {
    let mut buf = vec![0, 1, 2, 3, 4];
    let slice = buf.as_mut_slice();

    let (a, b) = split_at_mut_inclusive(slice, 0);
    assert_eq!(a, &[0]);
    assert_eq!(b, &[1, 2, 3, 4]);

    let (a, b) = split_at_mut_inclusive(slice, 1);
    assert_eq!(a, &[0, 1]);
    assert_eq!(b, &[2, 3, 4]);

    let (a, b) = split_at_mut_inclusive(slice, 2);
    assert_eq!(a, &[0, 1, 2]);
    assert_eq!(b, &[3, 4]);

    let (a, b) = split_at_mut_inclusive(slice, 3);
    assert_eq!(a, &[0, 1, 2, 3]);
    assert_eq!(b, &[4]);

    let (a, b) = split_at_mut_inclusive(slice, 4);
    assert_eq!(a, &[0, 1, 2, 3, 4]);
    assert_eq!(b, &[]);
}

// Tests that splitting of the blocks that align with the file boundary at
// the last block is a noop.
//
// -----------------------------------
// | file slice: 32                  |
// -----------------------------------
// | block: 16      | block: 16      |
// -----------------------------------
#[test]
fn iovecs_test_split_bufs_same_size_as_file() {
    let file_len = 32;
    let blocks =
        vec![(0..16).collect::<Vec<u8>>(), (16..32).collect::<Vec<u8>>()];
    let blocks_len: usize = blocks.iter().map(Vec::len).sum();

    let mut bufs: Vec<_> =
        blocks.iter().map(|buf| IoVec::from_slice(&buf)).collect();

    let mut iovecs = IoVecs::bounded(&mut bufs, 32);

    // we should have both buffers
    assert_eq!(iovecs.buffers().len(), 2);
    // there was no split
    assert!(iovecs.split.is_none());

    // compare the contents of the first half of the split: convert it
    // to a flat vector for easier comparison
    let first_half: Vec<_> = iovecs
        .buffers()
        .iter()
        .map(IoVec::as_slice)
        .flatten()
        .collect();
    // the expected first half has the same bytes as the blocks
    let expected_first_half: Vec<_> = blocks.iter().flatten().collect();
    assert_eq!(first_half.len(), file_len as usize);
    assert_eq!(first_half.len(), blocks_len);
    assert_eq!(first_half, expected_first_half);

    // restore the second half of the split buffer, which should be empty
    let second_half = iovecs.into_tail();
    assert!(second_half.is_empty());
}

// Tests that splitting of the blocks whose combined length is smaller than
// that of the file is a noop.
//
// --------------------------------------------
// | file slice: 42                           |
// --------------------------------------------
// | block: 16      | block: 16      |
// -----------------------------------
#[test]
fn iovecs_test_split_bufs_smaller_than_file() {
    let file_len = 42;
    let blocks =
        vec![(0..16).collect::<Vec<u8>>(), (16..32).collect::<Vec<u8>>()];
    let blocks_len: usize = blocks.iter().map(Vec::len).sum();

    let mut bufs: Vec<_> =
        blocks.iter().map(|buf| IoVec::from_slice(&buf)).collect();

    let mut iovecs = IoVecs::bounded(&mut bufs, 42);

    // we should have both buffers
    assert_eq!(iovecs.buffers().len(), 2);
    // there was no split
    assert!(iovecs.split.is_none());

    // compare the contents of the first half of the split: convert it
    // to a flat vector for easier comparison
    let first_half: Vec<_> = iovecs
        .buffers()
        .iter()
        .map(IoVec::as_slice)
        .flatten()
        .collect();
    // the expected first half has the same bytes as the blocks
    let expected_first_half: Vec<_> = blocks.iter().flatten().collect();
    assert_eq!(first_half.len(), blocks_len);
    assert_eq!(first_half, expected_first_half);

    // restore the second half of the split buffer, which should be empty
    let second_half = iovecs.into_tail();
    assert!(second_half.is_empty());
}

// Tests splitting of the blocks that do not align with file boundary at the
// last block.
//
// ------------------------------
// | file slice: 25             |
// -----------------------------------
// | block: 16      | block: 16 ^    |
// -----------------------------^-----
//                              ^
//              split here into 9 and 7 long halves
#[test]
fn iovecs_test_split_bufs_larger_than_file_at_last_block() {
    let file_len = 25;
    let blocks =
        vec![(0..16).collect::<Vec<u8>>(), (16..32).collect::<Vec<u8>>()];

    let mut bufs: Vec<_> =
        blocks.iter().map(|buf| IoVec::from_slice(&buf)).collect();

    let mut iovecs = IoVecs::bounded(&mut bufs, file_len);

    // we should have both buffers
    assert_eq!(iovecs.buffers().len(), 2);

    // compare the contents of the first half of the split: convert it
    // to a flat vector for easier comparison
    let first_half: Vec<_> = iovecs
        .buffers()
        .iter()
        .map(IoVec::as_slice)
        .flatten()
        .collect();
    // the expected first half is just the file slice number of bytes
    let expected_first_half: Vec<_> =
        blocks.iter().flatten().take(file_len as usize).collect();
    assert_eq!(first_half.len(), file_len as usize);
    assert_eq!(first_half, expected_first_half);

    // restore the second half of the split buffer
    let second_half = iovecs.into_tail();
    // compare the contents of the second half of the split: convert it
    // to a flat vector for easier comparison
    let second_half: Vec<_> =
        second_half.iter().map(IoVec::as_slice).flatten().collect();
    assert_eq!(second_half.len(), 7);
    // the expected second half is just the bytes after the file slice number of bytes
    let expected_second_half: Vec<_> =
        blocks.iter().flatten().skip(file_len as usize).collect();
    assert_eq!(second_half, expected_second_half);
}

// Tests splitting of the blocks that do not align with file boundary.
//
// ------------------------------
// | file slice: 25             |
// ----------------------------------------------------
// | block: 16      | block: 16 ^    | block: 16      |
// -----------------------------^----------------------
//                              ^
//              split here into 9 and 7 long halves
#[test]
fn iovecs_test_split_bufs_larger_than_file() {
    let file_len = 25;
    let blocks = vec![
        (0..16).collect::<Vec<u8>>(),
        (16..32).collect::<Vec<u8>>(),
        (32..48).collect::<Vec<u8>>(),
    ];

    let mut bufs: Vec<_> =
        blocks.iter().map(|buf| IoVec::from_slice(&buf)).collect();

    let mut iovecs = IoVecs::bounded(&mut bufs, 25);

    // we should have only the first two buffers
    assert_eq!(iovecs.buffers().len(), 2);
    assert!(iovecs.split.is_some());

    // compare the contents of the first half of the split: convert it
    // to a flat vector for easier comparison
    let first_half: Vec<_> = iovecs
        .buffers()
        .iter()
        .map(IoVec::as_slice)
        .flatten()
        .collect();
    // the expected first half is just the file slice number of bytes
    let expected_first_half: Vec<_> =
        blocks.iter().flatten().take(file_len as usize).collect();
    assert_eq!(first_half.len(), file_len as usize);
    assert_eq!(first_half, expected_first_half);

    // restore the second half of the split buffer
    let second_half = iovecs.into_tail();
    // compare the contents of the second half of the split: convert it to
    // a flat vector for easier comparison
    let second_half: Vec<_> =
        second_half.iter().map(IoVec::as_slice).flatten().collect();
    // the length should be the length of the second half the split buffer
    // as well as the remaining block's length
    assert_eq!(second_half.len(), 7 + 16);
    // the expected second half is just the bytes after the file slice number of bytes
    let expected_second_half: Vec<_> =
        blocks.iter().flatten().skip(file_len as usize).collect();
    assert_eq!(second_half, expected_second_half);
}

#[test]
fn advancing_skips_what_was_transferred() {
    let data: Vec<u8> = (0..40).collect();
    let mut bufs = vec![
        IoVec::from_slice(&data[..10]),
        IoVec::from_slice(&data[10..25]),
        IoVec::from_slice(&data[25..]),
    ];
    let mut iovecs = IoVecs::bounded(&mut bufs, 30);
    let left = |iovecs: &IoVecs| -> Vec<u8> {
        iovecs.as_slice().iter().flat_map(|b| b.as_slice().to_vec()).collect()
    };
    assert_eq!(left(&iovecs), data[..30].to_vec());
    iovecs.advance(4);
    assert_eq!(left(&iovecs), data[4..30].to_vec());
    // past the end of the first buffer
    iovecs.advance(8);
    assert_eq!(left(&iovecs), data[12..30].to_vec());
    // up to the end of the second buffer
    iovecs.advance(13);
    assert_eq!(left(&iovecs), data[25..30].to_vec());
    iovecs.advance(5);
    assert!(iovecs.as_slice().is_empty());
    let tail = iovecs.into_tail();
    assert_eq!(tail.len(), 1);
    assert_eq!(tail[0].as_slice(), &data[30..]);
}

#[test]
fn a_clean_boundary_splits_no_buffer() {
    let data: Vec<u8> = (0..30).collect();
    let mut bufs = vec![IoVec::from_slice(&data[..10]), IoVec::from_slice(&data[10..])];
    let iovecs = IoVecs::bounded(&mut bufs, 10);
    assert_eq!(iovecs.as_slice().len(), 1);
    assert_eq!(iovecs.as_slice()[0].as_slice(), &data[..10]);
    let tail = iovecs.into_tail();
    assert_eq!(tail.len(), 1);
    assert_eq!(tail[0].as_slice(), &data[10..]);

    let iovecs = IoVecs::unbounded(&mut bufs);
    assert_eq!(iovecs.as_slice().len(), 2);
    assert!(iovecs.into_tail().is_empty());
}
