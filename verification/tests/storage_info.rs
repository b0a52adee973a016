use cratetorrent::iovecs::IoVec;
use cratetorrent::storage_info::{
    split_at_mut_inclusive, FileInfo, FileSlice, FsStructure, StorageInfo,
};

#[test]
fn storage_info_test_split_at_mut_inclusive() {
    let mut buf = vec![0, 1, 2, 3, 4];
    let slice = buf.as_mut_slice();

    let (a, b) = split_at_mut_inclusive(slice, 0);
    assert_eq!(a, &[0]);
    assert_eq!(b, &[1, 2, 3, 4]);

    let (a, b) = split_at_mut_inclusive(slice, 1);
    assert_eq!(a, &[0, 1]);
    assert_eq!(b, &[2, 3, 4]);

    let (a, b) = split_at_mut_inclusive(slice, 2);
    assert_eq!(a, &[0, 1, 2]);
    assert_eq!(b, &[3, 4]);

    let (a, b) = split_at_mut_inclusive(slice, 3);
    assert_eq!(a, &[0, 1, 2, 3]);
    assert_eq!(b, &[4]);

    let (a, b) = split_at_mut_inclusive(slice, 4);
    assert_eq!(a, &[0, 1, 2, 3, 4]);
    assert_eq!(b, &[]);
}

// Tests that splitting of the blocks that align with the file boundary at the
// last block is a noop.
//
// -----------------------------------
// | file slice: 32                  |
// -----------------------------------
// | block: 16      | block: 16      |
// -----------------------------------
#[test]
fn storage_info_test_split_bufs_same_size_as_file() {
    let slice = FileSlice { offset: 0, len: 32 };
    let blocks =
        vec![(0..16).collect::<Vec<u8>>(), (16..32).collect::<Vec<u8>>()];
    let blocks_len: usize = blocks.iter().map(Vec::len).sum();

    let mut bufs: Vec<_> =
        blocks.iter().map(|buf| IoVec::from_slice(&buf)).collect();

    let mut split = slice.split_bufs_at_boundary(&mut bufs);

    // we should have both buffers
    assert_eq!(split.first_half().len(), 2);
    // there was no split
    assert!(split.second_half.is_none());

    // compare the contents of the first half of the split: convert it
    // to a flat vector for easier comparison
    let first_half: Vec<_> = split
        .first_half()
        .iter()
        .map(IoVec::as_slice)
        .flatten()
        .collect();
    // the expected first half has the same bytes as the blocks
    let expected_first_half: Vec<_> = blocks.iter().flatten().collect();
    assert_eq!(first_half.len(), slice.len as usize);
    assert_eq!(first_half.len(), blocks_len);
    assert_eq!(first_half, expected_first_half);

    // restore the second half of the split buffer, which should be empty
    let second_half = split.into_second_half();
    assert!(second_half.is_empty());
}

// Tests that splitting of the blocks whose combined length is smaller than
// that of the file is a noop.
//
// --------------------------------------------
// | file slice: 42                           |
// --------------------------------------------
// | block: 16      | block: 16      |
// -----------------------------------
#[test]
fn storage_info_test_split_bufs_smaller_than_file() {
    let slice = FileSlice { offset: 0, len: 42 };
    let blocks =
        vec![(0..16).collect::<Vec<u8>>(), (16..32).collect::<Vec<u8>>()];
    let blocks_len: usize = blocks.iter().map(Vec::len).sum();

    let mut bufs: Vec<_> =
        blocks.iter().map(|buf| IoVec::from_slice(&buf)).collect();

    let mut split = slice.split_bufs_at_boundary(&mut bufs);

    // we should have both buffers
    assert_eq!(split.first_half().len(), 2);
    // there was no split
    assert!(split.second_half.is_none());

    // compare the contents of the first half of the split: convert it
    // to a flat vector for easier comparison
    let first_half: Vec<_> = split
        .first_half()
        .iter()
        .map(IoVec::as_slice)
        .flatten()
        .collect();
    // the expected first half has the same bytes as the blocks
    let expected_first_half: Vec<_> = blocks.iter().flatten().collect();
    assert_eq!(first_half.len(), blocks_len);
    assert_eq!(first_half, expected_first_half);

    // restore the second half of the split buffer, which should be empty
    let second_half = split.into_second_half();
    assert!(second_half.is_empty());
}

// Tests splitting of the blocks that do not align with file boundary at the
// last block.
//
// ------------------------------
// | file slice: 25             |
// -----------------------------------
// | block: 16      | block: 16 ^    |
// -----------------------------^-----
//                              ^
//              split here into 9 and 7 long halves
#[test]
fn storage_info_test_split_bufs_larger_than_file_at_last_block() {
    let slice = FileSlice { offset: 0, len: 25 };
    let blocks =
        vec![(0..16).collect::<Vec<u8>>(), (16..32).collect::<Vec<u8>>()];

    let mut bufs: Vec<_> =
        blocks.iter().map(|buf| IoVec::from_slice(&buf)).collect();

    let mut split = slice.split_bufs_at_boundary(&mut bufs);

    // we should have both buffers
    assert_eq!(split.first_half().len(), 2);

    // compare the contents of the first half of the split: convert it
    // to a flat vector for easier comparison
    let first_half: Vec<_> = split
        .first_half()
        .iter()
        .map(IoVec::as_slice)
        .flatten()
        .collect();
    // the expected first half is just the file slice number of bytes
    let expected_first_half: Vec<_> =
        blocks.iter().flatten().take(slice.len as usize).collect();
    assert_eq!(first_half.len(), slice.len as usize);
    assert_eq!(first_half, expected_first_half);

    // restore the second half of the split buffer
    let second_half = split.into_second_half();
    // compare the contents of the second half of the split: convert it
    // to a flat vector for easier comparison
    let second_half: Vec<_> =
        second_half.iter().map(IoVec::as_slice).flatten().collect();
    assert_eq!(second_half.len(), 7);
    // the expected second half is just the bytes after the file slice number of bytes
    let expected_second_half: Vec<_> =
        blocks.iter().flatten().skip(slice.len as usize).collect();
    assert_eq!(second_half, expected_second_half);
}

// Tests splitting of the blocks that do not align with file boundary.
//
// ------------------------------
// | file slice: 25             |
// ----------------------------------------------------
// | block: 16      | block: 16 ^    | block: 16      |
// -----------------------------^----------------------
//                              ^
//              split here into 9 and 7 long halves
#[test]
fn storage_info_test_split_bufs_larger_than_file() {
    let slice = FileSlice { offset: 0, len: 25 };
    let blocks = vec![
        (0..16).collect::<Vec<u8>>(),
        (16..32).collect::<Vec<u8>>(),
        (32..48).collect::<Vec<u8>>(),
    ];

    let mut bufs: Vec<_> =
        blocks.iter().map(|buf| IoVec::from_slice(&buf)).collect();

    let mut split = slice.split_bufs_at_boundary(&mut bufs);

    // we should have only the first two buffers
    assert_eq!(split.first_half().len(), 2);
    assert!(split.second_half.is_some());

    // compare the contents of the first half of the split: convert it
    // to a flat vector for easier comparison
    let first_half: Vec<_> = split
        .first_half()
        .iter()
        .map(IoVec::as_slice)
        .flatten()
        .collect();
    // the expected first half is just the file slice number of bytes
    let expected_first_half: Vec<_> =
        blocks.iter().flatten().take(slice.len as usize).collect();
    assert_eq!(first_half.len(), slice.len as usize);
    assert_eq!(first_half, expected_first_half);

    // restore the second half of the split buffer
    let second_half = split.into_second_half();
    // compare the contents of the second half of the split: convert it to
    // a flat vector for easier comparison
    let second_half: Vec<_> =
        second_half.iter().map(IoVec::as_slice).flatten().collect();
    // the length should be the length of the second half the split buffer
    // as well as the remaining block's length
    assert_eq!(second_half.len(), 7 + 16);
    // the expected second half is just the bytes after the file slice number of bytes
    let expected_second_half: Vec<_> =
        blocks.iter().flatten().skip(slice.len as usize).collect();
    assert_eq!(second_half, expected_second_half);
}

#[test]
fn test_files_intersecting_pieces() {
    // single file
    let piece_count = 4;
    let piece_len = 4;
    let last_piece_len = 2;
    // 3 full length pieces; 1 smaller piece,
    let download_len = 3 * 4 + 2;
    let structure = FsStructure::File(FileInfo {
        path: "/bogus".to_string(),
        torrent_offset: 0,
        len: download_len,
    });
    let info = StorageInfo {
        piece_count,
        piece_len,
        last_piece_len,
        download_len,
        download_path: "/".to_string(),
        structure,
    };
    // all 4 pieces are in the same file
    assert_eq!(info.files_intersecting_piece(0).unwrap(), 0..1);
    assert_eq!(info.files_intersecting_piece(1).unwrap(), 0..1);
    assert_eq!(info.files_intersecting_piece(2).unwrap(), 0..1);
    assert_eq!(info.files_intersecting_piece(3).unwrap(), 0..1);

    // multi-file
    //
    // pieces: (index:first byte offset)
    // --------------------------------------------------------------------
    // |0:0         |1:16          |2:32          |3:48          |4:64    |
    // --------------------------------------------------------------------
    // files: (index:first byte offset,last byte offset)
    // --------------------------------------------------------------------
    // |0:0,8 |1:9,19  |2:20,26|3:27,35 |4:36,47  |5:48,63       |6:64,71 |
    // --------------------------------------------------------------------
    let files = vec![
        FileInfo {
            path: "/0".to_string(),
            torrent_offset: 0,
            len: 9,
        },
        FileInfo {
            path: "/1".to_string(),
            torrent_offset: 9,
            len: 11,
        },
        FileInfo {
            path: "/2".to_string(),
            torrent_offset: 20,
            len: 7,
        },
        FileInfo {
            path: "/3".to_string(),
            torrent_offset: 27,
            len: 9,
        },
        FileInfo {
            path: "/4".to_string(),
            torrent_offset: 36,
            len: 12,
        },
        FileInfo {
            path: "/5".to_string(),
            torrent_offset: 48,
            len: 16,
        },
        FileInfo {
            path: "/6".to_string(),
            torrent_offset: 64,
            len: 8,
        },
    ];
    let download_len: u64 = files.iter().map(|f| f.len).sum();
    // sanity check that the offsets in the files above correctly follow
    // each other and that they add up to the total download length
    assert_eq!(
        files.iter().fold(0, |offset, file| {
            assert_eq!(offset, file.torrent_offset);
            offset + file.len
        }),
        download_len,
    );
    let piece_count: usize = 5;
    let piece_len: u32 = 16;
    let last_piece_len: u32 = 8;
    // sanity check that full piece lengths and last piece length equals the
    // total download length
    assert_eq!(
        (piece_count as u64 - 1) * piece_len as u64 + last_piece_len as u64,
        download_len
    );
    let info = StorageInfo {
        piece_count,
        piece_len,
        last_piece_len,
        download_len,
        download_path: "/".to_string(),
        structure: FsStructure::Archive { files },
    };
    // piece 0 intersects with files 0 and 1
    assert_eq!(info.files_intersecting_piece(0).unwrap(), 0..2);
    // piece 1 intersects with files 1, 2, 3
    assert_eq!(info.files_intersecting_piece(1).unwrap(), 1..4);
    // piece 2 intersects with files 3 and 4
    assert_eq!(info.files_intersecting_piece(2).unwrap(), 3..5);
    // piece 3 intersects with only file 5
    assert_eq!(info.files_intersecting_piece(3).unwrap(), 5..6);
    // last piece 4 intersects with only file 6
    assert_eq!(info.files_intersecting_piece(4).unwrap(), 6..7);
    // piece 5 is invalid
    assert!(info.files_intersecting_piece(5).is_err());
}

#[test]
fn test_files_intersecting_bytes() {
    // single file
    let structure = FsStructure::File(FileInfo {
        path: "/bogus".to_string(),
        torrent_offset: 0,
        len: 12341234,
    });
    assert_eq!(structure.files_intersecting_bytes(0..0), 0..1);
    assert_eq!(structure.files_intersecting_bytes(0..1), 0..1);
    assert_eq!(structure.files_intersecting_bytes(0..12341234), 0..1);

    // multi-file
    let structure = FsStructure::Archive {
        files: vec![
            FileInfo {
                path: "/bogus0".to_string(),
                torrent_offset: 0,
                len: 4,
            },
            FileInfo {
                path: "/bogus1".to_string(),
                torrent_offset: 4,
                len: 9,
            },
            FileInfo {
                path: "/bogus2".to_string(),
                torrent_offset: 13,
                len: 3,
            },
            FileInfo {
                path: "/bogus3".to_string(),
                torrent_offset: 16,
                len: 10,
            },
        ],
    };
    // bytes only in the first file
    assert_eq!(structure.files_intersecting_bytes(0..4), 0..1);
    // bytes intersecting two files
    assert_eq!(structure.files_intersecting_bytes(0..5), 0..2);
    // bytes overlapping with two files
    assert_eq!(structure.files_intersecting_bytes(0..13), 0..2);
    // bytes intersecting three files
    assert_eq!(structure.files_intersecting_bytes(0..15), 0..3);
    // bytes intersecting all files
    assert_eq!(structure.files_intersecting_bytes(0..18), 0..4);
    // bytes intersecting the last byte of the last file
    assert_eq!(structure.files_intersecting_bytes(25..26), 3..4);
    // bytes overlapping with two files in the middle
    assert_eq!(structure.files_intersecting_bytes(4..16), 1..3);
    // bytes intersecting only one byte of two files each, among the middle
    // of all files
    assert_eq!(structure.files_intersecting_bytes(8..14), 1..3);
    // bytes intersecting only one byte of one file, among the middle of all
    // files
    assert_eq!(structure.files_intersecting_bytes(13..14), 2..3);
    // bytes not intersecting any files
    assert_eq!(structure.files_intersecting_bytes(30..38), 0..0);
}
