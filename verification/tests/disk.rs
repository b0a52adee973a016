use sha1::{Digest, Sha1};

use cratetorrent::disk::error::{NewTorrentError, ReadError, WriteError};
use cratetorrent::disk::file::{
    check_read, check_write, ReadOutcome, VectoredRead, VectoredWrite, WriteOutcome,
};
use cratetorrent::disk::piece::Piece;
use cratetorrent::disk::torrent::{BlockRead, CompletePiece, Verdict};
use cratetorrent::disk::{Action, Command, Disk};
use cratetorrent::error::Error;
use cratetorrent::iovecs::IoVec;
use cratetorrent::storage_info::{FileInfo, FileSlice, FsStructure, StorageInfo};
use cratetorrent::{block_count, BlockInfo, TorrentId, BLOCK_LEN};

/// Writes the piece to the files, in calls that write at most the given number of
/// bytes.
fn write_piece(
    files: &mut [Vec<u8>],
    first_file: usize,
    piece: &Piece,
    slices: &[FileSlice],
    max_len: usize,
) {
    let mut blocks: Vec<IoVec> = piece.blocks.values().map(|b| IoVec::from_slice(b)).collect();
    let mut bufs = blocks.as_mut_slice();
    for (k, slice) in slices.iter().enumerate() {
        let file = &mut files[first_file + k];
        let mut write = VectoredWrite::new(*slice, bufs);
        while let Some(offset) = write.next_offset() {
            let mut bytes: Vec<u8> =
                write.iovecs.as_slice().iter().flat_map(|b| b.as_slice().to_vec()).collect();
            bytes.truncate(max_len);
            let start = offset as usize;
            if file.len() < start + bytes.len() {
                file.resize(start + bytes.len(), 0);
            }
            file[start..start + bytes.len()].copy_from_slice(&bytes);
            assert!(write.handle_outcome(WriteOutcome::Interrupted).is_ok());
            assert!(write.handle_outcome(WriteOutcome::Written(bytes.len())).is_ok());
        }
        bufs = write.into_tail();
    }
    assert!(bufs.is_empty(), "not all blocks were written to disk");
}

/// Reads the slices of the files, in calls that read at most the given number of
/// bytes.
fn read_slices(
    files: &[Vec<u8>],
    first_file: usize,
    slices: &[FileSlice],
    max_len: usize,
) -> Result<Vec<u8>, ReadError> {
    let mut bytes = Vec::new();
    for (k, slice) in slices.iter().enumerate() {
        let file = &files[first_file + k];
        let mut read = VectoredRead::new(*slice, slice.len);
        while let Some(next) = read.next_slice() {
            let start = (next.offset as usize).min(file.len());
            let end = (start + max_len.min(next.len as usize)).min(file.len());
            bytes.extend_from_slice(&file[start..end]);
            read.handle_outcome(ReadOutcome::Interrupted)?;
            read.handle_outcome(ReadOutcome::Read(end - start))?;
        }
    }
    Ok(bytes)
}

/// Calls the provided function for each block in piece, passing it the
/// block's `BlockInfo`.
fn for_each_block(piece_index: usize, piece_len: u32, mut block_visitor: impl FnMut(BlockInfo)) {
    let block_count = block_count(piece_len) as u32;
    // all pieces have four blocks in this test
    assert_eq!(block_count, 4);

    let mut block_offset = 0;
    for _ in 0..block_count {
        // when calculating the block length we need to consider that the
        // last block may be smaller than the rest
        let block_len = (piece_len - block_offset).min(BLOCK_LEN);
        block_visitor(BlockInfo { piece_index, offset: block_offset, len: block_len });
        // increment offset for next piece
        block_offset += block_len;
    }
}

/// The disk IO test environment containing information of a valid torrent.
struct Env {
    id: TorrentId,
    pieces: Vec<Vec<u8>>,
    piece_hashes: Vec<u8>,
    info: StorageInfo,
}

impl Env {
    fn new(test_name: &str) -> Self {
        let id = TorrentId::new(&mut 0);
        let piece_len: u32 = 4 * 0x4000;
        // last piece is slightly shorter, to test that it is handled
        // correctly
        let last_piece_len: u32 = piece_len - 935;
        let pieces: Vec<Vec<u8>> = vec![
            (0..piece_len).map(|b| (b % 256) as u8).collect(),
            (0..piece_len).map(|b| b + 1).map(|b| (b % 256) as u8).collect(),
            (0..piece_len).map(|b| b + 2).map(|b| (b % 256) as u8).collect(),
            (0..last_piece_len).map(|b| b + 3).map(|b| (b % 256) as u8).collect(),
        ];
        // build up expected piece hashes
        let mut piece_hashes = Vec::with_capacity(pieces.len() * 20);
        for piece in pieces.iter() {
            let hash = Sha1::digest(&piece);
            piece_hashes.extend(hash.as_slice());
        }
        assert_eq!(piece_hashes.len(), pieces.len() * 20);

        let download_len = pieces.iter().map(|piece| piece.len() as u64).sum();
        let info = StorageInfo {
            piece_count: pieces.len(),
            piece_len,
            last_piece_len,
            download_len,
            download_path: "/tmp".to_string(),
            structure: FsStructure::File(FileInfo {
                path: format!("torrent_disk_test_{}", test_name),
                torrent_offset: 0,
                len: download_len,
            }),
        };
        Self { id, pieces, piece_hashes, info }
    }

    /// The disk with the torrent allocated.
    fn disk(&self) -> Disk {
        let mut disk = Disk::new();
        assert!(self.info.check_layout());
        match disk.start(self.new_torrent()) {
            Ok(Action::Allocate { id, torrent }) => disk.insert(id, torrent),
            _ => assert!(false, "torrent could not be allocated"),
        }
        disk
    }

    fn new_torrent(&self) -> Command {
        Command::NewTorrent {
            id: self.id,
            storage_info: self.info.clone(),
            piece_hashes: self.piece_hashes.clone(),
        }
    }

    /// Writes all blocks of the piece with the data, which completes it.
    fn write_blocks(&self, disk: &mut Disk, index: usize, data: &[u8]) -> CompletePiece {
        let mut actions = Vec::new();
        for_each_block(index, data.len() as u32, |block_info| {
            let block_end = block_info.offset + block_info.len;
            let data = data[block_info.offset as usize..block_end as usize].to_vec();
            let cmd = Command::WriteBlock { id: self.id, block_info, data };
            actions.push(disk.start(cmd).unwrap());
        });
        match actions.pop() {
            Some(Action::WritePiece(piece)) => {
                assert!(actions.iter().all(|a| matches!(a, Action::Buffered)));
                piece
            }
            _ => panic!("Piece could not be written to disk"),
        }
    }
}

/// Tests the allocation of a torrent, and then the allocation of the same
/// torrent returning an error.
#[test]
fn should_allocate_new_torrent() {
    let env = Env::new("allocate_new_torrent");
    let mut disk = Disk::new();

    match disk.start(env.new_torrent()) {
        Ok(Action::Allocate { id, torrent }) => {
            assert_eq!(id.number(), env.id.number());
            assert_eq!(torrent.files.len(), 1);
            disk.insert(id, torrent);
        }
        _ => assert!(false, "torrent could not be allocated"),
    }

    // we should get an already exists error
    assert!(matches!(
        disk.start(env.new_torrent()),
        Ok(Action::AllocationFailed(NewTorrentError::AlreadyExists))
    ));
}

/// Tests writing of a complete valid torrent's pieces.
#[test]
fn should_write_all_pieces() {
    let env = Env::new("write_all_pieces");
    let mut disk = env.disk();
    let mut files = vec![Vec::new()];

    // write all pieces to disk
    for (index, data) in env.pieces.iter().enumerate() {
        let complete = env.write_blocks(&mut disk, index, data);
        assert_eq!(complete.index, index);
        // piece is complete so it should be hashed and be valid
        assert!(complete.piece.matches_hash());
        match complete.verify() {
            Verdict::Write(completion) => {
                assert_eq!(completion.index, index);
                assert!(completion.is_valid);
            }
            Verdict::Reject(_) => panic!("piece is valid"),
        }
        // verify that the piece contains all four blocks
        for_each_block(index, data.len() as u32, |block| {
            assert_eq!(complete.piece.blocks[&block.offset].len(), block.len as usize);
        });
        let first_file = complete.piece.file_range.start;
        write_piece(&mut files, first_file, &complete.piece, &complete.slices, 5000);
    }

    let expected: Vec<u8> = env.pieces.iter().flatten().copied().collect();
    assert!(files[0] == expected);
}

/// Tests writing of an invalid piece.
#[test]
fn should_reject_writing_invalid_piece() {
    let env = Env::new("write_invalid_piece");
    let mut disk = env.disk();

    // write an invalid piece to disk
    let index = 0;
    let invalid_piece: Vec<_> = env.pieces[index].iter().map(|b| b.saturating_add(5)).collect();
    let complete = env.write_blocks(&mut disk, index, &invalid_piece);
    // piece is complete so it should be hashed but be invalid
    assert!(!complete.piece.matches_hash());
    match complete.verify() {
        Verdict::Reject(completion) => {
            assert_eq!(completion.index, index);
            assert!(!completion.is_valid);
        }
        Verdict::Write(_) => panic!("piece is invalid"),
    }
}

/// Tests reading the blocks of a piece that was written before.
#[test]
fn should_read_piece_blocks() {
    let env = Env::new("read_piece_blocks");
    let mut disk = env.disk();
    let mut files = vec![Vec::new()];

    // write second piece to disk
    let index = 1;
    let data = &env.pieces[index];
    let complete = env.write_blocks(&mut disk, index, data);
    let first_file = complete.piece.file_range.start;
    write_piece(&mut files, first_file, &complete.piece, &complete.slices, usize::MAX);

    // read each block in piece
    for_each_block(index, data.len() as u32, |block_info| {
        let cmd = Command::ReadBlock { id: env.id, block_info };
        match disk.start(cmd) {
            Ok(Action::ReadBlock(BlockRead { first_file, slices })) => {
                let read = read_slices(&files, first_file, &slices, 4000).unwrap();
                let block_end = block_info.offset + block_info.len;
                assert!(read == data[block_info.offset as usize..block_end as usize].to_vec());
            }
            _ => assert!(false, "block could not be read from disk"),
        }
    });
}

#[test]
fn invalid_blocks_are_rejected() {
    let env = Env::new("invalid_blocks");
    let mut disk = env.disk();
    let block = |piece_index: usize, offset: u32, len: u32| BlockInfo { piece_index, offset, len };
    let read = |disk: &mut Disk, block_info: BlockInfo| {
        disk.start(Command::ReadBlock { id: env.id, block_info }).unwrap()
    };
    assert!(matches!(
        read(&mut disk, block(4, 0, BLOCK_LEN)),
        Action::ReadFailed(ReadError::InvalidPieceIndex)
    ));
    assert!(matches!(
        read(&mut disk, block(3, 3 * BLOCK_LEN, BLOCK_LEN)),
        Action::ReadFailed(ReadError::InvalidBlockOffset)
    ));
    let cmd = Command::WriteBlock {
        id: env.id,
        block_info: block(4, 0, BLOCK_LEN),
        data: vec![0; BLOCK_LEN as usize],
    };
    assert!(matches!(
        disk.start(cmd),
        Ok(Action::WriteFailed(WriteError::InvalidPieceIndex))
    ));

    // a torrent that was not allocated
    let mut counter = 7;
    let other = TorrentId::new(&mut counter);
    let cmd = Command::ReadBlock { id: other, block_info: block(0, 0, BLOCK_LEN) };
    assert!(matches!(disk.start(cmd), Err(Error::InvalidTorrentId)));
    let cmd = Command::WriteBlock {
        id: other,
        block_info: block(0, 0, BLOCK_LEN),
        data: Vec::new(),
    };
    assert!(matches!(disk.start(cmd), Err(Error::InvalidTorrentId)));
    assert!(matches!(disk.start(Command::Shutdown), Ok(Action::Stop)));
}

#[test]
fn a_block_is_not_replaced() {
    let env = Env::new("duplicate_block");
    let mut piece = make_piece(0..1);
    piece.blocks.clear();
    piece.enqueue_block(0, vec![1, 2]);
    piece.enqueue_block(0, vec![3, 4]);
    piece.enqueue_block(BLOCK_LEN, vec![5]);
    assert_eq!(piece.bytes(), vec![1, 2, 5]);
    assert!(!piece.is_complete());
    assert_eq!(env.pieces.len(), 4);
}

/// Tests that writing blocks to a single file works.
#[test]
fn should_write_blocks_to_torrent_file() {
    let piece = make_piece(0..1);
    let info = FileInfo {
        path: "TorrentFile_write_block.test".to_string(),
        torrent_offset: 0,
        len: 2 * piece.len as u64,
    };

    // write buffers
    let file_slice = info.get_slice(0, piece.len as u64);
    let mut files = vec![Vec::new()];
    write_piece(&mut files, 0, &piece, &[file_slice], 100);

    // read and compare
    assert!(
        files[0] == piece.blocks.values().cloned().flatten().collect::<Vec<_>>(),
        "file content does not equal piece"
    );
}

/// Tests that writing piece to a single file works.
#[test]
fn should_write_piece_to_single_file() {
    let piece = make_piece(0..1);
    let infos = vec![FileInfo {
        path: "Piece_write_single_file.test".to_string(),
        torrent_offset: 0,
        len: 2 * piece.len as u64,
    }];

    // piece starts at the beginning of files
    let slices = piece.write(0, &infos);
    let mut files = vec![Vec::new()];
    write_piece(&mut files, 0, &piece, &slices, usize::MAX);

    // compare file content to piece
    assert!(files[0] == piece.blocks.values().cloned().flatten().collect::<Vec<_>>());
}

#[test]
fn should_not_read_piece_from_empty_file() {
    let piece = make_piece(0..1);
    let info = FileInfo {
        path: "Piece_read_empty_single_file_error.test".to_string(),
        torrent_offset: 0,
        len: 2 * piece.len as u64,
    };

    // reading piece from empty file should result in error
    let slice = info.get_slice(0, piece.len as u64);
    let result = read_slices(&[Vec::new()], 0, &[slice], usize::MAX);
    assert!(matches!(result, Err(ReadError::DataMissing)));
}

#[test]
fn should_read_piece_from_single_file() {
    let piece = make_piece(0..1);
    let infos = vec![FileInfo {
        path: "Piece_read_single_file.test".to_string(),
        torrent_offset: 0,
        len: 2 * piece.len as u64,
    }];
    let slices = piece.write(0, &infos);
    let mut files = vec![Vec::new()];
    write_piece(&mut files, 0, &piece, &slices, usize::MAX);

    let actual = read_slices(&files, 0, &slices, usize::MAX).expect("cannot read piece from file");
    let expected: Vec<_> = piece.blocks.values().flatten().copied().collect();
    assert!(actual == expected);
}

/// Three files that together are as long as the piece.
fn three_files(piece: &Piece) -> Vec<FileInfo> {
    let file1 = FileInfo {
        path: "Piece_write_files1.test".to_string(),
        torrent_offset: 0,
        len: BLOCK_LEN as u64 + 3,
    };
    let file2 = FileInfo {
        path: "Piece_write_files2.test".to_string(),
        torrent_offset: file1.len,
        len: BLOCK_LEN as u64 - 1500,
    };
    let file3 = FileInfo {
        path: "Piece_write_files3.test".to_string(),
        torrent_offset: file2.torrent_offset + file2.len,
        len: piece.len as u64 - (file1.len + file2.len),
    };
    vec![file1, file2, file3]
}

/// Tests that writing piece to multiple files works.
#[test]
fn should_write_piece_to_multiple_files() {
    // piece spans 3 files
    let piece = make_piece(0..3);
    let infos = three_files(&piece);

    // piece starts at the beginning of files
    let slices = piece.write(0, &infos);
    let mut files = vec![Vec::new(); 3];
    write_piece(&mut files, 0, &piece, &slices, 10_000);

    // compare contents of files to piece
    for (file, info) in files.iter().zip(infos.iter()) {
        let expected: Vec<u8> = piece
            .blocks
            .values()
            .cloned()
            .flatten()
            .skip(info.torrent_offset as usize)
            .take(info.len as usize)
            .collect();
        assert!(*file == expected, "file {:?} content does not equal piece", info);
    }
}

#[test]
fn should_read_piece_from_multiple_files() {
    let piece = make_piece(0..3);
    let infos = three_files(&piece);

    // piece starts at the beginning of files
    let slices = piece.write(0, &infos);
    let mut files = vec![Vec::new(); 3];
    write_piece(&mut files, 0, &piece, &slices, usize::MAX);

    let actual = read_slices(&files, 0, &slices, 7000).expect("cannot read piece from files");
    let expected: Vec<_> = piece.blocks.values().flatten().copied().collect();
    assert!(actual == expected);
}

#[test]
fn outcomes_of_system_calls_are_checked() {
    assert!(matches!(check_write(WriteOutcome::Interrupted), Ok(None)));
    assert!(matches!(check_write(WriteOutcome::Written(3)), Ok(Some(3))));
    match check_write(WriteOutcome::Written(0)) {
        Err(WriteError::Io(e)) => assert_eq!(e, "failed to write whole buffer"),
        _ => panic!("error expected"),
    }
    match check_write(WriteOutcome::Failed("disk full".to_string())) {
        Err(WriteError::Io(e)) => assert_eq!(e, "disk full"),
        _ => panic!("error expected"),
    }
    assert!(matches!(check_read(ReadOutcome::Interrupted), Ok(None)));
    assert!(matches!(check_read(ReadOutcome::Read(3)), Ok(Some(3))));
    assert!(matches!(check_read(ReadOutcome::Read(0)), Err(ReadError::DataMissing)));
    assert!(matches!(check_read(ReadOutcome::UnexpectedEof), Err(ReadError::DataMissing)));
    match check_read(ReadOutcome::Failed("bad disk".to_string())) {
        Err(ReadError::Io(e)) => assert_eq!(e, "bad disk"),
        _ => panic!("error expected"),
    }
}

#[test]
fn a_read_ends_with_the_buffer() {
    let mut read = VectoredRead::new(FileSlice { offset: 10, len: 8 }, 5);
    assert!(read.next_slice() == Some(FileSlice { offset: 10, len: 5 }));
    assert!(read.handle_outcome(ReadOutcome::Read(3)).is_ok());
    assert!(read.next_slice() == Some(FileSlice { offset: 13, len: 2 }));
    assert!(read.handle_outcome(ReadOutcome::Read(2)).is_ok());
    assert!(read.next_slice().is_none());
}

/// Creates a piece for testing that has 4 blocks of length `BLOCK_LEN`.
fn make_piece(files: std::ops::Range<usize>) -> Piece {
    let blocks: Vec<Vec<u8>> = (0..4)
        .map(|i| {
            (i * BLOCK_LEN..(i + 1) * BLOCK_LEN)
                .map(|b| b % u8::MAX as u32)
                .map(|b| b as u8)
                .collect()
        })
        .collect();
    let expected_hash = {
        let mut hasher = Sha1::new();
        for block in blocks.iter() {
            hasher.input(&block);
        }
        hasher.result().into()
    };
    let mut piece = Piece::new(expected_hash, blocks.len() as u32 * BLOCK_LEN, files);
    for (i, block) in blocks.into_iter().enumerate() {
        piece.enqueue_block(i as u32 * BLOCK_LEN, block);
    }
    assert!(piece.is_complete());
    assert!(piece.matches_hash());
    piece
}
