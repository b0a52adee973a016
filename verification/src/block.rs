//! Identifiers, blocks and the arithmetic that divides a piece into blocks.

use std::sync::Arc;
use vstd::prelude::*;
use vstd::std_specs::convert::{FromSpec, FromSpecImpl};
use vstd::string::StringExecFns;

use crate::text::{decimal, push_decimal};

verus! {

/// Each torrent gets an ID that is unique within the engine. This id is used in
/// engine APIs to interact with torrents.
#[derive(Clone, Copy, Debug, PartialEq, Eq, PartialOrd, Ord, Hash, Structural)]
pub struct TorrentId(u32);

impl View for TorrentId {
    type V = u32;

    closed spec fn view(&self) -> u32 {
        self.0
    }
}

impl TorrentId {
    /// Produces the next torrent id from the process's counter and advances the
    /// counter, which starts over after its greatest value.
    pub fn new(counter: &mut u32) -> (id: TorrentId)
        ensures
            id@ == *old(counter),
            *final(counter) == torrent_counter(*old(counter) as nat, 1),
    {
        let id: u32 = *counter;
        *counter = id.wrapping_add(1);
        TorrentId(id)
    }

    /// Returns the number of the torrent id.
    pub fn number(&self) -> (n: u32)
        ensures
            n == self@,
    {
        self.0
    }

    /// Returns the text of the torrent id, such as `t#7`.
    pub fn to_text(&self) -> (text: String)
        ensures
            text@ == "t#"@ + decimal(self@ as nat),
    {
        let mut text: String = "t#".to_owned();
        push_decimal(&mut text, self.0 as u64);
        text
    }
}

/// The torrent counter's value after that many ids were drawn.
pub open spec fn torrent_counter(start: nat, drawn: nat) -> nat {
    (start + drawn) % 0x1_0000_0000
}

/// No two of the first 2^32 ids that are drawn from a counter are equal.
pub proof fn law_torrent_ids_unique(start: u32, i: nat, j: nat)
    requires
        i < j,
        j - i < 0x1_0000_0000,
    ensures
        torrent_counter(start as nat, i) != torrent_counter(start as nat, j),
        torrent_counter(torrent_counter(start as nat, i), 1) == torrent_counter(
            start as nat,
            i + 1,
        ),
{
}

/// The type of a file's index.
pub type FileIndex = usize;

/// The type of a piece's index.
///
/// On the wire all integers are sent as 4-byte big endian integers, but in the
/// source code we use `usize` to be consistent with other index types in Rust.
pub type PieceIndex = usize;

/// The peer ID is an arbitrary 20 byte string.
pub type PeerId = [u8; 20];

/// A SHA-1 hash digest, 20 bytes long.
pub type Sha1Hash = [u8; 20];

/// Whether a torrent or peer connection is a seed or a leech.
#[derive(Clone, Copy, Debug, PartialEq, Eq, PartialOrd, Ord, Structural)]
pub enum Side {
    Leech,
    Seed,
}

impl Default for Side {
    fn default() -> (side: Self)
        ensures
            side == Side::Leech,
    {
        Side::Leech
    }
}

/// This is the only block length we're dealing with (except for possibly the
/// last block).  It is the widely used and accepted 16 KiB.
pub const BLOCK_LEN: u32 = 0x4000;

/// A block is a fixed size chunk of a piece, which in turn is a fixed size
/// chunk of a torrent. Downloading torrents happen at this block level
/// granularity.
#[derive(Clone, Copy, Debug, PartialEq, Eq, PartialOrd, Ord, Hash, Structural)]
pub struct BlockInfo {
    /// The index of the piece of which this is a block.
    pub piece_index: PieceIndex,
    /// The zero-based byte offset into the piece.
    pub offset: u32,
    /// The block's length in bytes. Always 16 KiB (0x4000 bytes) or less, for
    /// now.
    pub len: u32,
}

impl BlockInfo {
    /// Returns the index of the block within its piece, assuming the default
    /// block length of 16 KiB.
    pub fn index_in_piece(&self) -> (index: usize)
        requires
            0 < self.len <= BLOCK_LEN,
        ensures
            index == self.offset as int / BLOCK_LEN as int,
    {
        (self.offset / BLOCK_LEN) as usize
    }

    /// Returns the text of the block info, such as
    /// `(piece: 1 offset: 16384 len: 16384)`.
    pub fn to_text(&self) -> (text: String)
        ensures
            text@ == "(piece: "@ + decimal(self.piece_index as nat) + " offset: "@ + decimal(
                self.offset as nat,
            ) + " len: "@ + decimal(self.len as nat) + ")"@,
    {
        let mut text: String = "(piece: ".to_owned();
        push_decimal(&mut text, self.piece_index as u64);
        text.append(" offset: ");
        push_decimal(&mut text, self.offset as u64);
        text.append(" len: ");
        push_decimal(&mut text, self.len as u64);
        text.append(")");
        text
    }
}

/// The length of the block at the index in a piece of that length.
pub open spec fn block_len_at(piece_len: int, block_index: int) -> int {
    if piece_len - block_index * BLOCK_LEN < BLOCK_LEN {
        piece_len - block_index * BLOCK_LEN
    } else {
        BLOCK_LEN as int
    }
}

/// The number of blocks that a piece of that length is divided into: the least
/// number of blocks that covers the piece.
pub open spec fn blocks_in(piece_len: int) -> int {
    (piece_len + BLOCK_LEN - 1) / BLOCK_LEN as int
}

/// Returns the length of the block at the index in piece.
///
/// If the piece is not a multiple of the default block length, the length of its
/// last block is smaller.
pub fn block_len(piece_len: u32, block_index: usize) -> (len: u32)
    requires
        block_index * BLOCK_LEN < piece_len,
    ensures
        len == block_len_at(piece_len as int, block_index as int),
        0 < len <= BLOCK_LEN,
{
    let block_offset: u32 = block_index as u32 * BLOCK_LEN;
    let rest: u32 = piece_len - block_offset;
    if rest < BLOCK_LEN {
        rest
    } else {
        BLOCK_LEN
    }
}

/// Returns the number of blocks in a piece of the given length.
pub fn block_count(piece_len: u32) -> (count: usize)
    ensures
        count == blocks_in(piece_len as int),
{
    // all but the last piece are a multiple of the block length, but the
    // last piece may be shorter so we need to account for this by rounding
    // up before dividing to get the number of blocks in piece
    let count: u64 = (piece_len as u64 + (BLOCK_LEN as u64 - 1)) / BLOCK_LEN as u64;
    count as usize
}

/// The sum of the lengths of the first `count` blocks.
pub open spec fn blocks_total(piece_len: int, count: nat) -> int
    decreases count,
{
    if count == 0 {
        0
    } else {
        blocks_total(piece_len, (count - 1) as nat) + block_len_at(piece_len, count - 1)
    }
}

proof fn lemma_blocks_total(piece_len: int, count: nat)
    requires
        count <= blocks_in(piece_len),
        0 <= piece_len,
    ensures
        count * BLOCK_LEN <= piece_len ==> blocks_total(piece_len, count) == count * BLOCK_LEN,
        count * BLOCK_LEN > piece_len ==> blocks_total(piece_len, count) == piece_len,
    decreases count,
{
    if count > 0 {
        lemma_blocks_total(piece_len, (count - 1) as nat);
    }
}

/// The blocks of a piece partition it: each index below the block count is the
/// index of a block of positive length that starts inside the piece, and the
/// lengths add up to that of the piece.
pub proof fn law_blocks_partition_piece(piece_len: u32)
    ensures
        forall|i: int|
            0 <= i < blocks_in(piece_len as int) ==> {
                &&& #[trigger] (i * BLOCK_LEN) < piece_len
                &&& 0 < block_len_at(piece_len as int, i) <= BLOCK_LEN
            },
        blocks_total(piece_len as int, blocks_in(piece_len as int) as nat) == piece_len,
{
    lemma_blocks_total(piece_len as int, blocks_in(piece_len as int) as nat);
}

/// Blocks are cached in memory and are shared between the disk task and peer
/// session tasks. Therefore we use atomic reference counting to make sure that
/// even if a block is evicted from cache, the peer still using it still has
/// a valid reference to it.
pub type CachedBlock = Arc<Vec<u8>>;

/// Abstracts over the block data type.
///
/// A block may be just a normal byte buffer, or it may be a reference into
/// a cache.
#[derive(Clone, Debug, PartialEq)]
pub enum BlockData {
    Owned(Vec<u8>),
    Cached(CachedBlock),
}

impl View for BlockData {
    type V = Seq<u8>;

    open spec fn view(&self) -> Seq<u8> {
        match self {
            BlockData::Owned(b) => b@,
            BlockData::Cached(b) => b@,
        }
    }
}

impl BlockData {
    /// Returns the raw block if it's owned.
    pub fn into_owned(self) -> (b: Vec<u8>)
        requires
            self is Owned,
        ensures
            self == BlockData::Owned(b),
            b@ == self@,
    {
        match self {
            BlockData::Owned(b) => b,
            BlockData::Cached(_) => Vec::new(),
        }
    }

    /// Returns the bytes of the block.
    pub fn as_slice(&self) -> (b: &[u8])
        ensures
            b@ == self@,
    {
        match self {
            BlockData::Owned(b) => b.as_slice(),
            BlockData::Cached(b) => b.as_slice(),
        }
    }

    /// Returns the number of bytes in the block.
    pub fn len(&self) -> (len: usize)
        ensures
            len == self@.len(),
    {
        match self {
            BlockData::Owned(b) => b.len(),
            BlockData::Cached(b) => b.len(),
        }
    }
}

impl From<Vec<u8>> for BlockData {
    fn from(b: Vec<u8>) -> (data: Self) {
        BlockData::Owned(b)
    }
}

impl FromSpecImpl<Vec<u8>> for BlockData {
    open spec fn obeys_from_spec() -> bool {
        true
    }

    open spec fn from_spec(b: Vec<u8>) -> Self {
        BlockData::Owned(b)
    }
}

impl From<CachedBlock> for BlockData {
    fn from(b: CachedBlock) -> (data: Self) {
        BlockData::Cached(b)
    }
}

impl FromSpecImpl<CachedBlock> for BlockData {
    open spec fn obeys_from_spec() -> bool {
        true
    }

    open spec fn from_spec(b: CachedBlock) -> Self {
        BlockData::Cached(b)
    }
}

/// A piece block that contains the block's metadata and data.
#[derive(Clone, Debug, PartialEq)]
pub struct Block {
    /// The index of the piece of which this is a block.
    pub piece_index: PieceIndex,
    /// The zero-based byte offset into the piece.
    pub offset: u32,
    /// The actual raw data of the block.
    pub data: BlockData,
}

impl Block {
    /// Constructs a new block based on the metadata and data.
    pub fn new<D: Into<BlockData>>(info: BlockInfo, data: D) -> (block: Self)
        ensures
            block.piece_index == info.piece_index,
            block.offset == info.offset,
            call_ensures(D::into, (data,), block.data),
    {
        Block { piece_index: info.piece_index, offset: info.offset, data: data.into() }
    }

    /// Returns a [`BlockInfo`] representing the metadata of this block.
    pub fn info(&self) -> (info: BlockInfo)
        ensures
            info == (BlockInfo {
                piece_index: self.piece_index,
                offset: self.offset,
                len: self.data@.len() as u32,
            }),
    {
        BlockInfo {
            piece_index: self.piece_index,
            offset: self.offset,
            len: self.data.len() as u32,
        }
    }
}

/// A piece is divided into as many blocks as it needs: one less would not hold it. Each
/// but the last block is 16 KiB long.
pub proof fn law_blocks_are_as_many_as_needed(piece_len: u32, i: int)
    ensures
        piece_len <= 0x4000 * blocks_in(piece_len as int),
        0x4000 * (blocks_in(piece_len as int) - 1) < piece_len || piece_len == 0,
        piece_len == 0 ==> blocks_in(piece_len as int) == 0,
        0 <= i && 0x4000 * (i + 1) <= piece_len ==> block_len_at(piece_len as int, i) == 0x4000,
        0 <= i && 0x4000 * i < piece_len < 0x4000 * (i + 1) ==> block_len_at(piece_len as int, i)
            == piece_len - 0x4000 * i,
{
}

/// The data of a block is that of the bytes from which it was made.
pub proof fn law_block_data_is_kept(owned: Vec<u8>, cached: CachedBlock)
    ensures
        <BlockData as FromSpec<Vec<u8>>>::from_spec(owned)@ == owned@,
        <BlockData as FromSpec<CachedBlock>>::from_spec(cached)@ == cached@,
        <BlockData as FromSpec<Vec<u8>>>::from_spec(owned) is Owned,
        <BlockData as FromSpec<CachedBlock>>::from_spec(cached) is Cached,
{
}

} // verus!
