//! The pieces of a torrent that are being downloaded.

use std::collections::BTreeMap;
use std::ops::Range;

use vstd::prelude::*;

use crate::block::{blocks_in, BlockInfo, FileIndex, PieceIndex, Sha1Hash};
use crate::disk::error::{ReadError, WriteError};
use crate::disk::piece::{bytes_of, covers, file_slices, Piece};
use crate::hash::sha1;
use crate::storage_info::{
    is_intersection, lemma_piece_end, lemma_single_file_intersects, FileInfo, FileSlice,
    StorageInfo,
};
use crate::torrent::PieceCompletion;

verus! {

broadcast use vstd::std_specs::btree::group_btree_axioms;

/// Torrent information related to disk IO.
///
/// Contains the in-progress pieces (i.e. the write buffer), and where they are
/// stored.
#[derive(Debug)]
pub struct Torrent {
    /// General storage and piece information.
    pub info: StorageInfo,
    /// The files of the torrent.
    pub files: Vec<FileInfo>,
    /// The concatenation of all expected piece hashes.
    pub piece_hashes: Vec<u8>,
    /// The in-progress piece downloads and disk writes. This is the torrent's
    /// disk write buffer. Each piece is mapped to its index for faster lookups.
    pub pieces: BTreeMap<usize, Piece>,
}

/// A complete piece that is to be verified and written to disk.
#[derive(Debug)]
pub struct CompletePiece {
    /// The index of the piece.
    pub index: PieceIndex,
    /// The piece with all its blocks.
    pub piece: Piece,
    /// Where the piece is written: for each file that it overlaps with, the part of
    /// the file that does.
    pub slices: Vec<FileSlice>,
}

/// What is done with a piece that has all its blocks.
#[derive(Clone, Copy, Debug, PartialEq, Eq, Structural)]
pub enum Verdict {
    /// The piece is invalid: it is not written to disk, and the torrent is told.
    Reject(PieceCompletion),
    /// The piece is valid: it is written to disk, and then the torrent is told.
    Write(PieceCompletion),
}

impl CompletePiece {
    /// Verifies the piece: only if the hash of its blocks is the expected one, it is
    /// written.
    ///
    /// # Important
    ///
    /// This is potentially a computationally expensive function and should be
    /// executed on a thread pool and not the executor.
    pub fn verify(&self) -> (verdict: Verdict)
        requires
            self.piece.complete(),
        ensures
            verdict == if sha1(bytes_of(self.piece.blocks@)) == self.piece.expected_hash@ {
                Verdict::Write(PieceCompletion { index: self.index, is_valid: true })
            } else {
                Verdict::Reject(PieceCompletion { index: self.index, is_valid: false })
            },
    {
        let is_valid: bool = self.piece.matches_hash();
        let completion: PieceCompletion = PieceCompletion { index: self.index, is_valid };
        if is_valid {
            Verdict::Write(completion)
        } else {
            Verdict::Reject(completion)
        }
    }
}

/// Where a block is to be read from.
#[derive(Debug)]
pub struct BlockRead {
    /// The first file that the block overlaps with.
    pub first_file: FileIndex,
    /// For each file that the block overlaps with, the part of the file that does.
    pub slices: Vec<FileSlice>,
}

/// Whether the pieces of the torrent make up its files, and there is a hash for
/// each of them.
pub open spec fn is_consistent(info: StorageInfo, piece_hashes: Seq<u8>) -> bool {
    &&& info.pieces_cover_files()
    &&& piece_hashes.len() == 20 * info.piece_count
}

/// The expected hash of the piece.
pub open spec fn hash_of_piece(piece_hashes: Seq<u8>, index: int) -> Seq<u8> {
    piece_hashes.subrange(20 * index, 20 * index + 20)
}

/// Whether the range is that of the files that overlap with the piece.
pub open spec fn is_file_range(info: StorageInfo, index: int, range: Range<usize>) -> bool {
    is_intersection(
        info.structure.files(),
        info.piece_offset(index),
        info.piece_offset(index) + info.len_of_piece(index),
        range,
    )
}

/// Whether the piece is the one at the index, with these blocks.
pub open spec fn is_piece(
    torrent: Torrent,
    index: int,
    piece: Piece,
    blocks: Map<u32, Vec<u8>>,
) -> bool {
    &&& piece.expected_hash@ == hash_of_piece(torrent.piece_hashes@, index)
    &&& piece.len == torrent.info.len_of_piece(index)
    &&& piece.blocks@ == blocks
    &&& is_file_range(torrent.info, index, piece.file_range)
}

impl Torrent {
    /// Whether the torrent is consistent, and so are its pieces.
    pub open spec fn wf(&self) -> bool {
        &&& is_consistent(self.info, self.piece_hashes@)
        &&& self.files@ == self.info.structure.files()
        &&& forall|index: usize| #[trigger]
            self.pieces@.dom().contains(index) ==> {
                &&& index < self.info.piece_count
                &&& is_piece(
                    *self,
                    index as int,
                    self.pieces@[index],
                    self.pieces@[index].blocks@,
                )
            }
    }

    /// The blocks of the piece that were received so far.
    pub open spec fn blocks_of(&self, index: usize) -> Map<u32, Vec<u8>> {
        if self.pieces@.dom().contains(index) {
            self.pieces@[index].blocks@
        } else {
            Map::empty()
        }
    }

    /// The blocks of the piece after another one was received. A block that was
    /// received before is not replaced.
    pub open spec fn blocks_with(&self, block: BlockInfo, data: Vec<u8>) -> Map<u32, Vec<u8>> {
        let blocks = self.blocks_of(block.piece_index);
        if blocks.dom().contains(block.offset) {
            blocks
        } else {
            blocks.insert(block.offset, data)
        }
    }

    /// Creates a torrent of which nothing was downloaded yet.
    pub fn new(info: StorageInfo, piece_hashes: Vec<u8>) -> (torrent: Self)
        requires
            is_consistent(info, piece_hashes@),
        ensures
            torrent.wf(),
            torrent.info == info,
            torrent.piece_hashes == piece_hashes,
            torrent.pieces@ == Map::<usize, Piece>::empty(),
    {
        let files: Vec<FileInfo> = info.structure.to_files();
        Torrent { info, files, piece_hashes, pieces: BTreeMap::new() }
    }

    /// Returns the files that overlap with the piece.
    fn file_range(&self, index: PieceIndex) -> (range: Range<FileIndex>)
        requires
            self.wf(),
            index < self.info.piece_count,
        ensures
            is_file_range(self.info, index as int, range),
    {
        proof {
            lemma_piece_end(self.info, index as int);
        }
        match self.info.files_intersecting_piece(index) {
            Ok(range) => {
                proof {
                    lemma_single_file_intersects(
                        self.info.structure,
                        self.info.piece_offset(index as int),
                        self.info.piece_offset(index as int) + self.info.len_of_piece(index as int),
                    );
                }
                range
            },
            Err(_) => 0..0,
        }
    }

    /// Returns the expected hash of the piece.
    fn piece_hash(&self, index: PieceIndex) -> (hash: Sha1Hash)
        requires
            self.wf(),
            index < self.info.piece_count,
        ensures
            hash@ == hash_of_piece(self.piece_hashes@, index as int),
    {
        let mut hash: Sha1Hash = [0u8; 20];
        let mut i: usize = 0;
        assert(20 * index + 20 <= self.piece_hashes@.len());
        assert(self.piece_hashes@.len() <= usize::MAX) by {
            assert(self.piece_hashes.len() <= usize::MAX);
        }
        while i < 20
            invariant
                i <= 20,
                20 * index + 20 <= self.piece_hashes@.len() <= usize::MAX,
                forall|k: int|
                    0 <= k < i ==> hash@[k] == hash_of_piece(self.piece_hashes@, index as int)[k],
            decreases 20 - i,
        {
            hash[i] = self.piece_hashes[20 * index + i];
            i = i + 1;
        }
        assert(hash@ =~= hash_of_piece(self.piece_hashes@, index as int));
        hash
    }

    /// Buffers a block of a piece.
    ///
    /// If this completes the piece, it is removed from the buffer and returned, so
    /// that it can be verified and written to disk.
    pub fn write_block(&mut self, block: BlockInfo, data: Vec<u8>) -> (r: Result<
        Option<CompletePiece>,
        WriteError,
    >)
        requires
            old(self).wf(),
        ensures
            final(self).wf(),
            final(self).info == old(self).info,
            final(self).files == old(self).files,
            final(self).piece_hashes == old(self).piece_hashes,
            forall|other: usize|
                other != block.piece_index ==> (#[trigger] final(self).pieces@.dom().contains(other)
                    == old(self).pieces@.dom().contains(other)) && final(self).pieces@[other]
                    == old(self).pieces@[other],
            if block.piece_index >= old(self).info.piece_count {
                &&& r == Err::<Option<CompletePiece>, WriteError>(WriteError::InvalidPieceIndex)
                &&& final(self).pieces@ == old(self).pieces@
            } else {
                let index = block.piece_index;
                let blocks = old(self).blocks_with(block, data);
                if blocks.dom().len() == blocks_in(old(self).info.len_of_piece(index as int)) {
                    &&& r matches Ok(Some(complete))
                    &&& complete.index == index
                    &&& complete.piece.complete()
                    &&& is_piece(*old(self), index as int, complete.piece, blocks)
                    &&& covers(
                        old(self).files@,
                        complete.piece.file_range.start as int,
                        old(self).info.piece_offset(index as int),
                        old(self).info.piece_offset(index as int) + complete.piece.len,
                        complete.slices@,
                    )
                    &&& !final(self).pieces@.dom().contains(index)
                } else {
                    &&& r == Ok::<Option<CompletePiece>, WriteError>(None)
                    &&& final(self).pieces@.dom().contains(index)
                    &&& is_piece(*old(self), index as int, final(self).pieces@[index], blocks)
                }
            },
    {
        let index: PieceIndex = block.piece_index;
        let piece_len: u32 = match self.info.piece_len(index) {
            Ok(piece_len) => piece_len,
            Err(_) => return Err(WriteError::InvalidPieceIndex),
        };
        proof {
            lemma_piece_end(self.info, index as int);
        }
        let mut piece: Piece = match self.pieces.remove(&index) {
            Some(piece) => piece,
            None => Piece::new(self.piece_hash(index), piece_len, self.file_range(index)),
        };
        assert(is_piece(*old(self), index as int, piece, old(self).blocks_of(index)));
        piece.enqueue_block(block.offset, data);
        // if the piece has all blocks, it's done
        if piece.is_complete() {
            let piece_offset: u64 = index as u64 * self.info.piece_len as u64;
            let slices: Vec<FileSlice> = piece.write(piece_offset, &self.files);
            Ok(Some(CompletePiece { index, piece, slices }))
        } else {
            self.pieces.insert(index, piece);
            Ok(None)
        }
    }

    /// Returns where a block is to be read from.
    pub fn read_block(&self, block: BlockInfo) -> (r: Result<BlockRead, ReadError>)
        requires
            self.wf(),
        ensures
            if block.piece_index >= self.info.piece_count {
                r == Err::<BlockRead, ReadError>(ReadError::InvalidPieceIndex)
            } else if block.len == 0 || block.offset + block.len > self.info.len_of_piece(
                block.piece_index as int,
            ) {
                r == Err::<BlockRead, ReadError>(ReadError::InvalidBlockOffset)
            } else {
                &&& r matches Ok(read)
                &&& covers(
                    self.files@,
                    read.first_file as int,
                    self.info.piece_offset(block.piece_index as int) + block.offset,
                    self.info.piece_offset(block.piece_index as int) + block.offset + block.len,
                    read.slices@,
                )
            },
    {
        let index: PieceIndex = block.piece_index;
        let piece_len: u32 = match self.info.piece_len(index) {
            Ok(piece_len) => piece_len,
            Err(_) => return Err(ReadError::InvalidPieceIndex),
        };
        if block.len == 0 || block.offset > piece_len || block.len > piece_len - block.offset {
            return Err(ReadError::InvalidBlockOffset);
        }
        proof {
            lemma_piece_end(self.info, index as int);
        }
        let offset: u64 = index as u64 * self.info.piece_len as u64 + block.offset as u64;
        let range: Range<FileIndex> = self.info.structure.files_intersecting_bytes(
            offset..offset + block.len as u64,
        );
        proof {
            lemma_single_file_intersects(self.info.structure, offset as int, offset + block.len);
        }
        let slices: Vec<FileSlice> = file_slices(&self.files, &range, offset, block.len as u64);
        Ok(BlockRead { first_file: range.start, slices })
    }
}

/// The hashes of the pieces follow each other, twenty bytes each.
pub proof fn law_piece_hashes_follow_each_other(piece_hashes: Seq<u8>, index: int, i: int)
    requires
        0 <= index,
        20 * index + 20 <= piece_hashes.len(),
        0 <= i < 20,
    ensures
        hash_of_piece(piece_hashes, index).len() == 20,
        hash_of_piece(piece_hashes, index)[i] == piece_hashes[20 * index + i],
{
}

/// A block is added to those of its piece, unless there is one at its offset already.
pub proof fn law_blocks_are_added_once(torrent: Torrent, block: BlockInfo, data: Vec<u8>)
    ensures
        ({
            let index = block.piece_index;
            let after = torrent.blocks_with(block, data);
            &&& !torrent.pieces@.dom().contains(index) ==> after == Map::<u32, Vec<u8>>::empty().insert(
                block.offset,
                data,
            )
            &&& torrent.pieces@.dom().contains(index)
                && !torrent.pieces@[index].blocks@.dom().contains(block.offset) ==> after
                == torrent.pieces@[index].blocks@.insert(block.offset, data)
            &&& torrent.pieces@.dom().contains(index)
                && torrent.pieces@[index].blocks@.dom().contains(block.offset) ==> after
                == torrent.pieces@[index].blocks@
        }),
{
}

} // verus!
