//! Saving downloaded blocks to disk and reading them back.
//!
//! The disk buffers the blocks of a piece until the piece is complete, so that it can
//! be verified and written in one go. Files are opened, written and read by the
//! program around it.

use std::collections::BTreeMap;

use vstd::prelude::*;

use crate::block::{BlockInfo, TorrentId};
use crate::disk::error::{NewTorrentError, ReadError, WriteError};
use crate::disk::torrent::{is_consistent, BlockRead, CompletePiece, Torrent};
use crate::error::{Error, Result};
use crate::storage_info::StorageInfo;

pub mod contents;
pub mod error;
pub mod file;
pub mod piece;
pub mod torrent;

verus! {

broadcast use vstd::std_specs::btree::group_btree_axioms;

/// The entity responsible for saving downloaded file blocks to disk and
/// verifying whether downloaded pieces are valid.
#[derive(Debug)]
pub struct Disk {
    /// Each torrent in engine has a corresponding entry in this map, by the number
    /// of its id.
    pub torrents: BTreeMap<u32, Torrent>,
}

/// The type of commands that the disk can execute.
#[derive(Debug)]
pub enum Command {
    /// Allocate a new torrent in `Disk`.
    NewTorrent { id: TorrentId, storage_info: StorageInfo, piece_hashes: Vec<u8> },
    /// Request to eventually write a block to disk.
    WriteBlock { id: TorrentId, block_info: BlockInfo, data: Vec<u8> },
    /// Request to eventually read a block from disk.
    ReadBlock { id: TorrentId, block_info: BlockInfo },
    /// Eventually shut down the disk task.
    Shutdown,
}

/// What the disk asks to be done.
#[derive(Debug)]
pub enum Action {
    /// Tell the engine that the torrent could not be allocated.
    AllocationFailed(NewTorrentError),
    /// Create the files of the torrent. If this is successful, the torrent is to be
    /// added with [`Disk::insert`].
    Allocate { id: TorrentId, torrent: Torrent },
    /// Nothing is to be done, the block was buffered.
    Buffered,
    /// Verify the piece and, if it is valid, write it to disk.
    WritePiece(CompletePiece),
    /// Tell the torrent that the block could not be written.
    WriteFailed(WriteError),
    /// Read the block from disk.
    ReadBlock(BlockRead),
    /// Tell the torrent that the block could not be read.
    ReadFailed(ReadError),
    /// Stop the disk task.
    Stop,
}

impl Disk {
    /// Whether all torrents are consistent.
    pub open spec fn wf(&self) -> bool {
        forall|n: u32| #[trigger] self.torrents@.dom().contains(n) ==> self.torrents@[n].wf()
    }

    /// Creates a disk without torrents.
    pub fn new() -> (disk: Self)
        ensures
            disk.wf(),
            disk.torrents@ == Map::<u32, Torrent>::empty(),
    {
        Disk { torrents: BTreeMap::new() }
    }

    /// Adds a torrent whose files were created.
    pub fn insert(&mut self, id: TorrentId, torrent: Torrent)
        requires
            old(self).wf(),
            torrent.wf(),
        ensures
            final(self).wf(),
            final(self).torrents@ == old(self).torrents@.insert(id@, torrent),
    {
        self.torrents.insert(id.number(), torrent);
    }

    /// Executes a command of the disk event loop, which is run until shutdown or an
    /// unrecoverable error occurs.
    pub fn start(&mut self, cmd: Command) -> (r: Result<Action>)
        requires
            old(self).wf(),
            cmd matches Command::NewTorrent { storage_info, piece_hashes, .. } ==> is_consistent(
                storage_info,
                piece_hashes@,
            ),
        ensures
            final(self).wf(),
            match cmd {
                // a torrent is only allocated once
                Command::NewTorrent { id, storage_info, piece_hashes } => {
                    &&& final(self).torrents@ == old(self).torrents@
                    &&& if old(self).torrents@.dom().contains(id@) {
                        r == Ok::<Action, Error>(
                            Action::AllocationFailed(NewTorrentError::AlreadyExists),
                        )
                    } else {
                        &&& r matches Ok(Action::Allocate { id: new_id, torrent })
                        &&& new_id == id
                        &&& torrent.wf()
                        &&& torrent.info == storage_info
                        &&& torrent.piece_hashes == piece_hashes
                        &&& torrent.pieces@.dom() =~= Set::<usize>::empty()
                    }
                },
                Command::WriteBlock { id, block_info, data } => {
                    if old(self).torrents@.dom().contains(id@) {
                        &&& final(self).torrents@.dom() == old(self).torrents@.dom()
                        &&& forall|n: u32|
                            n != id@ ==> #[trigger] final(self).torrents@[n]
                                == old(self).torrents@[n]
                        &&& written(
                            old(self).torrents@[id@],
                            final(self).torrents@[id@],
                            block_info,
                            data,
                            r,
                        )
                    } else {
                        &&& final(self).torrents@ == old(self).torrents@
                        &&& r == Err::<Action, Error>(Error::InvalidTorrentId)
                    }
                },
                Command::ReadBlock { id, block_info } => {
                    &&& final(self).torrents@ == old(self).torrents@
                    &&& if old(self).torrents@.dom().contains(id@) {
                        read(old(self).torrents@[id@], block_info, r)
                    } else {
                        r == Err::<Action, Error>(Error::InvalidTorrentId)
                    }
                },
                Command::Shutdown => {
                    &&& final(self).torrents@ == old(self).torrents@
                    &&& r == Ok::<Action, Error>(Action::Stop)
                },
            },
    {
        match cmd {
            Command::NewTorrent { id, storage_info, piece_hashes } => {
                if self.torrents.contains_key(&id.number()) {
                    return Ok(Action::AllocationFailed(NewTorrentError::AlreadyExists));
                }
                let torrent: Torrent = Torrent::new(storage_info, piece_hashes);
                Ok(Action::Allocate { id, torrent })
            },
            Command::WriteBlock { id, block_info, data } => self.write_block(id, block_info, data),
            Command::ReadBlock { id, block_info } => self.read_block(id, block_info),
            Command::Shutdown => Ok(Action::Stop),
        }
    }

    /// Queues a block for writing.
    ///
    /// Returns an error if the torrent id is invalid.
    pub fn write_block(&mut self, id: TorrentId, block_info: BlockInfo, data: Vec<u8>) -> (r:
        Result<Action>)
        requires
            old(self).wf(),
        ensures
            final(self).wf(),
            if old(self).torrents@.dom().contains(id@) {
                &&& final(self).torrents@.dom() == old(self).torrents@.dom()
                &&& forall|n: u32|
                    n != id@ ==> #[trigger] final(self).torrents@[n] == old(self).torrents@[n]
                &&& written(
                    old(self).torrents@[id@],
                    final(self).torrents@[id@],
                    block_info,
                    data,
                    r,
                )
            } else {
                &&& final(self).torrents@ == old(self).torrents@
                &&& r == Err::<Action, Error>(Error::InvalidTorrentId)
            },
    {
        // check torrent id
        let mut torrent: Torrent = match self.torrents.remove(&id.number()) {
            Some(torrent) => torrent,
            None => {
                assert(self.torrents@ =~= old(self).torrents@);
                return Err(Error::InvalidTorrentId);
            },
        };
        let action: Action = match torrent.write_block(block_info, data) {
            Ok(Some(piece)) => Action::WritePiece(piece),
            Ok(None) => Action::Buffered,
            Err(e) => Action::WriteFailed(e),
        };
        self.torrents.insert(id.number(), torrent);
        assert(self.torrents@.dom() =~= old(self).torrents@.dom());
        Ok(action)
    }

    /// Finds where a block is to be read from.
    ///
    /// Returns an error if the torrent id is invalid.
    pub fn read_block(&self, id: TorrentId, block_info: BlockInfo) -> (r: Result<Action>)
        requires
            self.wf(),
        ensures
            if self.torrents@.dom().contains(id@) {
                read(self.torrents@[id@], block_info, r)
            } else {
                r == Err::<Action, Error>(Error::InvalidTorrentId)
            },
    {
        // check torrent id
        match self.torrents.get(&id.number()) {
            Some(torrent) => match torrent.read_block(block_info) {
                Ok(read) => Ok(Action::ReadBlock(read)),
                Err(e) => Ok(Action::ReadFailed(e)),
            },
            None => Err(Error::InvalidTorrentId),
        }
    }
}

/// What writing a block does to its torrent, and what is to be done then.
pub open spec fn written(
    before: Torrent,
    after: Torrent,
    block: BlockInfo,
    data: Vec<u8>,
    r: Result<Action>,
) -> bool {
    let index = block.piece_index;
    let blocks = before.blocks_with(block, data);
    &&& after.info == before.info
    &&& after.files == before.files
    &&& after.piece_hashes == before.piece_hashes
    &&& forall|other: usize|
        other != index ==> (#[trigger] after.pieces@.dom().contains(other)
            == before.pieces@.dom().contains(other)) && after.pieces@[other]
            == before.pieces@[other]
    &&& if index >= before.info.piece_count {
        &&& r == Ok::<Action, Error>(Action::WriteFailed(WriteError::InvalidPieceIndex))
        &&& after.pieces@ == before.pieces@
    } else if blocks.dom().len() == crate::block::blocks_in(
        before.info.len_of_piece(index as int),
    ) {
        &&& r matches Ok(Action::WritePiece(complete))
        &&& complete.index == index
        &&& complete.piece.complete()
        &&& torrent::is_piece(before, index as int, complete.piece, blocks)
        &&& piece::covers(
            before.files@,
            complete.piece.file_range.start as int,
            before.info.piece_offset(index as int),
            before.info.piece_offset(index as int) + complete.piece.len,
            complete.slices@,
        )
        &&& !after.pieces@.dom().contains(index)
    } else {
        &&& r == Ok::<Action, Error>(Action::Buffered)
        &&& after.pieces@.dom().contains(index)
        &&& torrent::is_piece(before, index as int, after.pieces@[index], blocks)
    }
}

/// What is to be done to read a block of the torrent.
pub open spec fn read(torrent: Torrent, block: BlockInfo, r: Result<Action>) -> bool {
    if block.piece_index >= torrent.info.piece_count {
        r == Ok::<Action, Error>(Action::ReadFailed(ReadError::InvalidPieceIndex))
    } else if block.len == 0 || block.offset + block.len > torrent.info.len_of_piece(
        block.piece_index as int,
    ) {
        r == Ok::<Action, Error>(Action::ReadFailed(ReadError::InvalidBlockOffset))
    } else {
        &&& r matches Ok(Action::ReadBlock(read))
        &&& piece::covers(
            torrent.files@,
            read.first_file as int,
            torrent.info.piece_offset(block.piece_index as int) + block.offset,
            torrent.info.piece_offset(block.piece_index as int) + block.offset + block.len,
            read.slices@,
        )
    }
}

/// A block of an existing piece is never lost: either the piece is buffered with the
/// block, or it is handed out to be written with it. A block that was there already is
/// not replaced.
pub proof fn law_written_block_is_kept(
    before: Torrent,
    after: Torrent,
    block: BlockInfo,
    data: Vec<u8>,
    r: Result<Action>,
)
    requires
        written(before, after, block, data, r),
        block.piece_index < before.info.piece_count,
    ensures
        ({
            let index = block.piece_index;
            let known = before.pieces@.dom().contains(index)
                && before.pieces@[index].blocks@.dom().contains(block.offset);
            match r {
                Ok(Action::WritePiece(complete)) => {
                    &&& complete.index == index
                    &&& complete.piece.blocks@.dom().contains(block.offset)
                    &&& !known ==> complete.piece.blocks@[block.offset] == data
                    &&& known ==> complete.piece.blocks@ == before.pieces@[index].blocks@
                    &&& before.pieces@.dom().contains(index) ==> forall|offset: u32|
                        #[trigger] before.pieces@[index].blocks@.dom().contains(offset) ==> {
                            &&& complete.piece.blocks@.dom().contains(offset)
                            &&& complete.piece.blocks@[offset]
                                == before.pieces@[index].blocks@[offset]
                        }
                    &&& !after.pieces@.dom().contains(index)
                },
                Ok(Action::Buffered) => {
                    &&& after.pieces@.dom().contains(index)
                    &&& after.pieces@[index].blocks@.dom().contains(block.offset)
                    &&& !known ==> after.pieces@[index].blocks@[block.offset] == data
                    &&& known ==> after.pieces@[index].blocks@ == before.pieces@[index].blocks@
                    &&& before.pieces@.dom().contains(index) ==> forall|offset: u32|
                        #[trigger] before.pieces@[index].blocks@.dom().contains(offset) ==> {
                            &&& after.pieces@[index].blocks@.dom().contains(offset)
                            &&& after.pieces@[index].blocks@[offset]
                                == before.pieces@[index].blocks@[offset]
                        }
                },
                _ => false,
            }
        }),
{
}

/// A piece is written as soon as all of its blocks are there, and not before: with the
/// last block it is complete, and has the hash, length and place that the torrent gives.
pub proof fn law_piece_is_written_with_its_last_block(
    before: Torrent,
    after: Torrent,
    block: BlockInfo,
    data: Vec<u8>,
    r: Result<Action>,
    piece_len: int,
)
    requires
        written(before, after, block, data, r),
        block.piece_index < before.info.piece_count,
        piece_len == if block.piece_index + 1 == before.info.piece_count {
            before.info.last_piece_len
        } else {
            before.info.piece_len
        },
        before.piece_hashes@.len() == 20 * before.info.piece_count,
        before.pieces@.dom().contains(block.piece_index),
        before.pieces@[block.piece_index].blocks@.dom().finite(),
        !before.pieces@[block.piece_index].blocks@.dom().contains(block.offset),
    ensures
        ({
            let there = before.pieces@[block.piece_index].blocks@.dom().len() + 1;
            let needed = (piece_len + 0x3fff) / 0x4000;
            &&& there == needed ==> {
                &&& r matches Ok(Action::WritePiece(complete))
                &&& complete.piece.len == piece_len
                &&& forall|i: int|
                    0 <= i < 20 ==> #[trigger] complete.piece.expected_hash@[i]
                        == before.piece_hashes@[20 * block.piece_index + i]
            }
            &&& there != needed ==> r == Ok::<Action, Error>(Action::Buffered)
        }),
{
    let index = block.piece_index;
    let there = before.pieces@[index].blocks@;
    let blocks = before.blocks_with(block, data);
    assert(blocks == there.insert(block.offset, data));
    assert(blocks.dom() =~= there.dom().insert(block.offset));
    if let Ok(Action::WritePiece(complete)) = r {
        assert forall|i: int| 0 <= i < 20 implies #[trigger] complete.piece.expected_hash@[i]
            == before.piece_hashes@[20 * index + i] by {
            torrent::law_piece_hashes_follow_each_other(before.piece_hashes@, index as int, i);
        }
    }
}

/// Blocks of pieces that the torrent does not have are refused, and change nothing.
pub proof fn law_unknown_pieces_are_refused(
    before: Torrent,
    after: Torrent,
    block: BlockInfo,
    data: Vec<u8>,
    w: Result<Action>,
    r: Result<Action>,
)
    requires
        written(before, after, block, data, w),
        read(before, block, r),
        block.piece_index >= before.info.piece_count,
    ensures
        w == Ok::<Action, Error>(Action::WriteFailed(WriteError::InvalidPieceIndex)),
        after.pieces@ == before.pieces@,
        r == Ok::<Action, Error>(Action::ReadFailed(ReadError::InvalidPieceIndex)),
{
}

/// Each block within a piece can be read: what is read are the bytes of the torrent from
/// the block's place on, as many as it is long. A block that is empty or goes beyond the
/// piece cannot.
pub proof fn law_blocks_within_a_piece_are_read(
    torrent: Torrent,
    block: BlockInfo,
    r: Result<Action>,
    piece_len: int,
)
    requires
        read(torrent, block, r),
        block.piece_index < torrent.info.piece_count,
        piece_len == if block.piece_index + 1 == torrent.info.piece_count {
            torrent.info.last_piece_len
        } else {
            torrent.info.piece_len
        },
    ensures
        ({
            let start = block.piece_index * torrent.info.piece_len + block.offset;
            &&& block.len > 0 && block.offset + block.len <= piece_len ==> {
                &&& r matches Ok(Action::ReadBlock(read))
                &&& piece::covers(
                    torrent.files@,
                    read.first_file as int,
                    start,
                    start + block.len,
                    read.slices@,
                )
            }
            &&& block.len == 0 || block.offset + block.len > piece_len ==> r == Ok::<Action, Error>(
                Action::ReadFailed(ReadError::InvalidBlockOffset),
            )
        }),
{
}

/// A piece of which nothing was written before is written at once if it has a single
/// block, and is otherwise buffered with that block. Writing a block leaves the other
/// pieces alone.
pub proof fn law_first_block_of_a_piece(
    before: Torrent,
    after: Torrent,
    block: BlockInfo,
    data: Vec<u8>,
    r: Result<Action>,
    piece_len: int,
    other: usize,
)
    requires
        written(before, after, block, data, r),
        block.piece_index < before.info.piece_count,
        piece_len == if block.piece_index + 1 == before.info.piece_count {
            before.info.last_piece_len
        } else {
            before.info.piece_len
        },
        !before.pieces@.dom().contains(block.piece_index),
        other != block.piece_index,
    ensures
        0 < piece_len <= 0x4000 ==> r is Ok && r->Ok_0 is WritePiece,
        piece_len > 0x4000 ==> r == Ok::<Action, Error>(Action::Buffered),
        piece_len > 0x4000 ==> after.pieces@[block.piece_index].blocks@ == Map::<
            u32,
            Vec<u8>,
        >::empty().insert(block.offset, data),
        after.pieces@.dom().contains(other) == before.pieces@.dom().contains(other),
        after.pieces@[other] == before.pieces@[other],
        after.info == before.info,
        after.files == before.files,
        after.piece_hashes == before.piece_hashes,
{
    let blocks = before.blocks_with(block, data);
    assert(blocks == Map::<u32, Vec<u8>>::empty().insert(block.offset, data));
    assert(blocks.dom() =~= Set::<u32>::empty().insert(block.offset));
    assert(blocks.dom().len() == 1);
    assert(after.pieces@.dom().contains(other) == before.pieces@.dom().contains(other));
}

} // verus!
