//! The download of a piece, block by block.

use vstd::prelude::*;

use crate::block::{
    block_count, block_len, block_len_at, blocks_in, BlockInfo, PieceIndex, BLOCK_LEN,
};
use crate::requests::RequestSet;

verus! {

/// The state of a block in a piece download.
#[derive(Clone, Copy, Debug, PartialEq, Eq, Structural)]
pub enum Block {
    Free,
    Requested,
    Received,
}

impl Default for Block {
    fn default() -> (block: Self)
        ensures
            block == Block::Free,
    {
        Block::Free
    }
}

/// Tracks the completion of an ongoing piece download and is used to request
/// missing blocks in piece.
#[derive(Debug)]
pub struct PieceDownload {
    /// The piece's index.
    pub index: PieceIndex,
    /// The piece's length in bytes.
    pub len: u32,
    /// The blocks in this piece, tracking which are downloaded, pending, or
    /// received. The vec is preallocated to the number of blocks in piece.
    pub blocks: Vec<Block>,
}

/// The state of a piece download.
#[verifier::ext_equal]
pub struct PieceDownloadView {
    pub index: PieceIndex,
    pub len: u32,
    pub blocks: Seq<Block>,
}

impl View for PieceDownload {
    type V = PieceDownloadView;

    open spec fn view(&self) -> PieceDownloadView {
        PieceDownloadView { index: self.index, len: self.len, blocks: self.blocks@ }
    }
}

/// The indices of the free blocks, in ascending order.
pub open spec fn free_blocks(blocks: Seq<Block>) -> Seq<int>
    decreases blocks.len(),
{
    if blocks.len() == 0 {
        Seq::empty()
    } else if blocks.last() == Block::Free {
        free_blocks(blocks.drop_last()).push(blocks.len() - 1)
    } else {
        free_blocks(blocks.drop_last())
    }
}

/// The number of blocks that were not received.
pub open spec fn missing_blocks(blocks: Seq<Block>) -> nat
    decreases blocks.len(),
{
    if blocks.len() == 0 {
        0
    } else {
        missing_blocks(blocks.drop_last()) + (if blocks.last() == Block::Received {
            0nat
        } else {
            1nat
        })
    }
}

impl PieceDownloadView {
    /// Whether there is a state for each block of the piece.
    pub open spec fn wf(self) -> bool {
        self.blocks.len() == blocks_in(self.len as int)
    }

    /// The download of which nothing was requested yet.
    pub open spec fn fresh(index: PieceIndex, len: u32) -> PieceDownloadView {
        PieceDownloadView {
            index,
            len,
            blocks: Seq::new(blocks_in(len as int) as nat, |i: int| Block::Free),
        }
    }

    /// The block at the index in the piece.
    pub open spec fn block_info(self, i: int) -> BlockInfo {
        BlockInfo {
            piece_index: self.index,
            offset: (i * BLOCK_LEN) as u32,
            len: block_len_at(self.len as int, i) as u32,
        }
    }

    /// The indices of the blocks that are picked: the first free ones, but not more
    /// than requested.
    pub open spec fn picked(self, count: nat) -> Seq<int> {
        let free = free_blocks(self.blocks);
        if free.len() < count {
            free
        } else {
            free.take(count as int)
        }
    }

    /// The blocks that are picked.
    pub open spec fn picked_blocks(self, count: nat) -> Seq<BlockInfo> {
        self.picked(count).map_values(|i: int| self.block_info(i))
    }

    /// The download after the blocks were picked.
    pub open spec fn after_pick(self, count: nat) -> PieceDownloadView {
        PieceDownloadView {
            blocks: Seq::new(
                self.blocks.len(),
                |i: int|
                    if self.picked(count).contains(i) {
                        Block::Requested
                    } else {
                        self.blocks[i]
                    },
            ),
            ..self
        }
    }

    /// Whether the block can be one of this piece.
    pub open spec fn has_block(self, block: BlockInfo) -> bool {
        &&& block.piece_index == self.index
        &&& block.offset < self.len
        &&& 0 < block.len <= BLOCK_LEN
        &&& block.len <= self.len
    }

    /// Whether the block is one of the blocks that the piece is divided into.
    pub open spec fn is_block(self, block: BlockInfo) -> bool {
        &&& block.offset as int / (BLOCK_LEN as int) < self.blocks.len()
        &&& block == self.block_info(block.offset as int / BLOCK_LEN as int)
    }

    /// The download after the state of the block was changed.
    pub open spec fn with_block(self, block: BlockInfo, state: Block) -> PieceDownloadView {
        PieceDownloadView {
            blocks: self.blocks.update(block.offset as int / BLOCK_LEN as int, state),
            ..self
        }
    }

    /// The state of the block.
    pub open spec fn state_of(self, block: BlockInfo) -> Block {
        self.blocks[block.offset as int / BLOCK_LEN as int]
    }

    /// Whether all blocks were received.
    pub open spec fn complete(self) -> bool {
        forall|i: int| 0 <= i < self.blocks.len() ==> #[trigger] self.blocks[i] == Block::Received
    }
}

impl PieceDownload {
    /// Creates a new piece download instance for the given piece.
    pub fn new(index: PieceIndex, len: u32) -> (download: Self)
        ensures
            download@ == PieceDownloadView::fresh(index, len),
            download@.wf(),
    {
        let block_count: usize = block_count(len);
        let mut blocks: Vec<Block> = Vec::new();
        let mut i: usize = 0;
        while i < block_count
            invariant
                i <= block_count,
                blocks@ == Seq::new(i as nat, |i: int| Block::Free),
            decreases block_count - i,
        {
            blocks.push(Block::default());
            i = i + 1;
            assert(blocks@ =~= Seq::new(i as nat, |i: int| Block::Free));
        }
        PieceDownload { index, len, blocks }
    }

    /// Returns the index of the piece that is downloaded.
    pub fn piece_index(&self) -> (index: PieceIndex)
        ensures
            index == self@.index,
    {
        self.index
    }

    /// Picks the requested number of blocks or fewer, if fewer are remaining.
    pub fn pick_blocks(&mut self, count: usize, blocks: &mut Vec<BlockInfo>)
        requires
            old(self)@.wf(),
        ensures
            final(self)@.wf(),
            final(self)@ == old(self)@.after_pick(count as nat),
            final(blocks)@ == old(blocks)@ + old(self)@.picked_blocks(count as nat),
    {
        let ghost before = self@;
        let ghost old_blocks = blocks@;
        let mut picked: usize = 0;
        let mut i: usize = 0;
        proof {
            assert(before.blocks.take(0) =~= Seq::<Block>::empty());
            assert(blocks@ =~= old_blocks + free_blocks(before.blocks.take(0)).map_values(
                |i: int| before.block_info(i),
            ));
        }
        while i < self.blocks.len() && picked != count
            invariant
                before.wf(),
                before == old(self)@,
                i <= before.blocks.len(),
                picked <= count,
                picked <= i,
                picked == free_blocks(before.blocks.take(i as int)).len(),
                self@.index == before.index,
                self@.len == before.len,
                self@.blocks.len() == before.blocks.len(),
                forall|k: int|
                    0 <= k < before.blocks.len() ==> #[trigger] self@.blocks[k] == (if free_blocks(
                        before.blocks.take(i as int),
                    ).contains(k) {
                        Block::Requested
                    } else {
                        before.blocks[k]
                    }),
                blocks@ == old_blocks + free_blocks(before.blocks.take(i as int)).map_values(
                    |i: int| before.block_info(i),
                ),
            decreases before.blocks.len() - i,
        {
            let ghost done = free_blocks(before.blocks.take(i as int));
            let ghost next = before.blocks.take(i + 1);
            proof {
                assert(next.drop_last() =~= before.blocks.take(i as int));
                lemma_free_blocks(before.blocks.take(i as int));
                lemma_block_in_piece(before.len, i as int);
            }
            // only pick block if it's free
            if self.blocks[i] == Block::Free {
                assert(before.blocks[i as int] == Block::Free);
                let ghost infos = blocks@;
                blocks.push(
                    BlockInfo {
                        piece_index: self.index,
                        offset: i as u32 * BLOCK_LEN,
                        len: block_len(self.len, i),
                    },
                );
                self.blocks[i] = Block::Requested;
                picked = picked + 1;
                proof {
                    assert(free_blocks(next) == done.push(i as int));
                    assert(blocks@ =~= old_blocks + free_blocks(next).map_values(
                        |i: int| before.block_info(i),
                    ));
                    assert forall|k: int| 0 <= k < before.blocks.len() implies #[trigger] self@.blocks[k]
                        == (if free_blocks(next).contains(k) {
                        Block::Requested
                    } else {
                        before.blocks[k]
                    }) by {
                        if done.contains(k) {
                            let j = choose|j: int| 0 <= j < done.len() && done[j] == k;
                            assert(free_blocks(next)[j] == k);
                        }
                        if k == i {
                            assert(free_blocks(next)[done.len() as int] == k);
                        }
                    }
                }
            } else {
                assert(free_blocks(next) == done);
            }
            i = i + 1;
        }
        proof {
            lemma_free_blocks_prefix(before.blocks, i as int);
            let done = free_blocks(before.blocks.take(i as int));
            if i == before.blocks.len() {
                assert(before.blocks.take(i as int) =~= before.blocks);
                assert(done.take(done.len() as int) =~= done);
            }
            assert(before.picked(count as nat) =~= done);
            assert(self@ =~= before.after_pick(count as nat));
        }
    }

    /// Marks the given block as received so that it is not picked again.
    pub fn received_block(&mut self, block: &BlockInfo)
        requires
            old(self)@.wf(),
            old(self)@.has_block(*block),
            old(self)@.state_of(*block) == Block::Requested,
        ensures
            final(self)@.wf(),
            final(self)@ == old(self)@.with_block(*block, Block::Received),
    {
        let i: usize = block.index_in_piece();
        self.blocks[i] = Block::Received;
    }

    /// Marks a previously requested block free to request again.
    pub fn cancel_request(&mut self, block: &BlockInfo)
        requires
            old(self)@.wf(),
            old(self)@.has_block(*block),
        ensures
            final(self)@.wf(),
            final(self)@ == old(self)@.with_block(*block, Block::Free),
    {
        let i: usize = block.index_in_piece();
        self.blocks[i] = Block::Free;
    }

    /// Returns the state of the given block.
    pub fn block_state(&self, block: &BlockInfo) -> (state: Block)
        requires
            self@.wf(),
            self@.has_block(*block),
        ensures
            state == self@.state_of(*block),
    {
        self.blocks[block.index_in_piece()]
    }

    /// Returns true if the piece has all blocks downloaded.
    pub fn is_complete(&self) -> (complete: bool)
        ensures
            complete == self@.complete(),
    {
        proof {
            lemma_missing_blocks(self@.blocks);
        }
        self.count_missing_blocks() == 0
    }

    /// Returns the number of blocks that were not received yet.
    pub fn count_missing_blocks(&self) -> (count: usize)
        ensures
            count == missing_blocks(self@.blocks),
    {
        let mut count: usize = 0;
        let mut i: usize = 0;
        while i < self.blocks.len()
            invariant
                i <= self.blocks@.len(),
                count <= i,
                count == missing_blocks(self.blocks@.take(i as int)),
            decreases self.blocks@.len() - i,
        {
            assert(self.blocks@.take(i + 1).drop_last() =~= self.blocks@.take(i as int));
            if self.blocks[i] != Block::Received {
                count = count + 1;
            }
            i = i + 1;
        }
        assert(self.blocks@.take(i as int) =~= self.blocks@);
        count
    }
}

/// A block whose index is below the block count starts inside the piece.
pub proof fn lemma_block_in_piece(len: u32, i: int)
    requires
        0 <= i < blocks_in(len as int),
    ensures
        i * BLOCK_LEN < len,
        0 < block_len_at(len as int, i) <= BLOCK_LEN,
        (i * BLOCK_LEN) / BLOCK_LEN as int == i,
{
}

/// The free blocks are those that are free, each listed once, in ascending order.
pub proof fn lemma_free_blocks(blocks: Seq<Block>)
    ensures
        free_blocks(blocks).len() <= blocks.len(),
        forall|k: int| #[trigger]
            free_blocks(blocks).contains(k) <==> 0 <= k < blocks.len() && blocks[k] == Block::Free,
        forall|a: int, b: int|
            0 <= a < b < free_blocks(blocks).len() ==> free_blocks(blocks)[a] < free_blocks(
                blocks,
            )[b],
    decreases blocks.len(),
{
    if blocks.len() > 0 {
        let front = blocks.drop_last();
        lemma_free_blocks(front);
        let free = free_blocks(blocks);
        let rest = free_blocks(front);
        assert forall|k: int| #[trigger] free.contains(k) <==> 0 <= k < blocks.len() && blocks[k]
            == Block::Free by {
            if free.contains(k) {
                let j = choose|j: int| 0 <= j < free.len() && free[j] == k;
                if j < rest.len() {
                    assert(rest[j] == k);
                    assert(rest.contains(k));
                }
            }
            if 0 <= k < blocks.len() && blocks[k] == Block::Free {
                if k < front.len() {
                    assert(front[k] == blocks[k]);
                    assert(rest.contains(k));
                    let j = choose|j: int| 0 <= j < rest.len() && rest[j] == k;
                    assert(free[j] == k);
                } else {
                    assert(free[rest.len() as int] == k);
                }
            }
        }
        assert forall|a: int, b: int| 0 <= a < b < free.len() implies free[a] < free[b] by {
            assert(rest.contains(rest[a]) || a >= rest.len());
        }
    }
}

/// The free blocks of a prefix are the first of all free blocks.
proof fn lemma_free_blocks_prefix(blocks: Seq<Block>, n: int)
    requires
        0 <= n <= blocks.len(),
    ensures
        free_blocks(blocks.take(n)).len() <= free_blocks(blocks).len(),
        free_blocks(blocks).take(free_blocks(blocks.take(n)).len() as int) == free_blocks(
            blocks.take(n),
        ),
    decreases blocks.len(),
{
    if n < blocks.len() {
        let front = blocks.drop_last();
        lemma_free_blocks_prefix(front, n);
        assert(front.take(n) =~= blocks.take(n));
        let len = free_blocks(blocks.take(n)).len() as int;
        assert(free_blocks(blocks).take(len) =~= free_blocks(front).take(len));
    } else {
        assert(blocks.take(n) =~= blocks);
        assert(free_blocks(blocks).take(free_blocks(blocks).len() as int) =~= free_blocks(blocks));
    }
}

proof fn lemma_missing_blocks(blocks: Seq<Block>)
    ensures
        missing_blocks(blocks) == 0 <==> forall|i: int|
            0 <= i < blocks.len() ==> #[trigger] blocks[i] == Block::Received,
    decreases blocks.len(),
{
    if blocks.len() > 0 {
        let front = blocks.drop_last();
        lemma_missing_blocks(front);
        if missing_blocks(blocks) == 0 {
            assert forall|i: int| 0 <= i < blocks.len() implies #[trigger] blocks[i]
                == Block::Received by {
                if i < front.len() {
                    assert(front[i] == blocks[i]);
                }
            }
        }
        if forall|i: int| 0 <= i < blocks.len() ==> #[trigger] blocks[i] == Block::Received {
            assert forall|i: int| 0 <= i < front.len() implies #[trigger] front[i]
                == Block::Received by {
                assert(front[i] == blocks[i]);
            }
        }
    }
}

/// What is picked are free blocks of the piece, as many as requested if there are
/// enough and otherwise all of them, each once, and the first ones first.
pub proof fn law_picks_are_free_blocks(download: PieceDownloadView, count: nat)
    requires
        download.wf(),
    ensures
        download.picked(count).len() == if free_blocks(download.blocks).len() < count {
            free_blocks(download.blocks).len()
        } else {
            count
        },
        forall|k: int| #[trigger]
            download.picked(count).contains(k) ==> {
                &&& 0 <= k < download.blocks.len()
                &&& download.blocks[k] == Block::Free
                &&& download.has_block(download.block_info(k))
                &&& download.after_pick(count).state_of(download.block_info(k)) == Block::Requested
            },
        forall|a: int, b: int|
            0 <= a < b < download.picked(count).len() ==> download.picked(count)[a]
                < download.picked(count)[b],
        forall|k: int, f: int|
            #![trigger download.picked(count).contains(k), download.blocks[f]]
            download.picked(count).contains(k) && 0 <= f < k && download.blocks[f] == Block::Free
                ==> download.picked(count).contains(f),
{
    let free = free_blocks(download.blocks);
    let picked = download.picked(count);
    lemma_free_blocks(download.blocks);
    assert forall|k: int| #[trigger] picked.contains(k) implies {
        &&& 0 <= k < download.blocks.len()
        &&& download.blocks[k] == Block::Free
        &&& download.has_block(download.block_info(k))
        &&& download.after_pick(count).state_of(download.block_info(k)) == Block::Requested
    } by {
        let j = choose|j: int| 0 <= j < picked.len() && picked[j] == k;
        assert(free[j] == k);
        assert(free.contains(k));
        lemma_block_in_piece(download.len, k);
    }
    assert forall|k: int, f: int|
        #![trigger picked.contains(k), download.blocks[f]]
        picked.contains(k) && 0 <= f < k && download.blocks[f]
            == Block::Free implies picked.contains(f) by {
        let j = choose|j: int| 0 <= j < picked.len() && picked[j] == k;
        assert(free.contains(k)) by {
            assert(free[j] == k);
        }
        assert(free.contains(f));
        let g = choose|g: int| 0 <= g < free.len() && free[g] == f;
        assert(free[j] == k);
        assert(g < j);
        assert(picked[g] == f);
    }
}

/// A block that was picked or received is not picked again, until its request is
/// cancelled.
pub proof fn law_no_block_is_picked_twice(
    download: PieceDownloadView,
    first: nat,
    second: nat,
    k: int,
)
    requires
        download.wf(),
        download.picked(first).contains(k) || (0 <= k < download.blocks.len() && download.blocks[k]
            != Block::Free),
    ensures
        !download.after_pick(first).picked(second).contains(k),
{
    let after = download.after_pick(first);
    law_picks_are_free_blocks(download, first);
    law_picks_are_free_blocks(after, second);
}

/// Picking blocks in two goes picks the same blocks as picking them in one.
pub proof fn law_picks_add_up(download: PieceDownloadView, first: nat, second: nat)
    requires
        download.wf(),
    ensures
        download.picked(first) + download.after_pick(first).picked(second) == download.picked(
            first + second,
        ),
        download.after_pick(first).after_pick(second) == download.after_pick(first + second),
{
    let free = free_blocks(download.blocks);
    let after = download.after_pick(first);
    let n = download.picked(first).len() as int;
    lemma_free_after_pick(download, first);
    assert(free_blocks(after.blocks) == free.skip(n));
    let both = download.picked(first) + after.picked(second);
    assert(both =~= download.picked(first + second));
    let left = after.after_pick(second);
    let right = download.after_pick(first + second);
    assert forall|k: int| 0 <= k < download.blocks.len() implies #[trigger] left.blocks[k]
        == right.blocks[k] by {
        if download.picked(first).contains(k) {
            let j = choose|j: int| 0 <= j < n && download.picked(first)[j] == k;
            assert(both[j] == k);
        }
        if after.picked(second).contains(k) {
            let j = choose|j: int|
                0 <= j < after.picked(second).len() && after.picked(second)[j] == k;
            assert(both[n + j] == k);
        }
        if both.contains(k) {
            let j = choose|j: int| 0 <= j < both.len() && both[j] == k;
            if j < n {
                assert(download.picked(first)[j] == k);
            } else {
                assert(after.picked(second)[j - n] == k);
            }
        }
    }
    assert(left =~= right);
}

/// After a pick, the free blocks are those that were not picked.
proof fn lemma_free_after_pick(download: PieceDownloadView, count: nat)
    requires
        download.wf(),
    ensures
        free_blocks(download.after_pick(count).blocks) == free_blocks(download.blocks).skip(
            download.picked(count).len() as int,
        ),
{
    let free = free_blocks(download.blocks);
    let after = download.after_pick(count).blocks;
    let n = download.picked(count).len() as int;
    lemma_free_blocks(download.blocks);
    lemma_free_blocks(after);
    let rest = free.skip(n);
    assert forall|k: int| #[trigger] free_blocks(after).contains(k) <==> rest.contains(k) by {
        if free_blocks(after).contains(k) {
            assert(download.blocks[k] == Block::Free);
            assert(free.contains(k));
            let j = choose|j: int| 0 <= j < free.len() && free[j] == k;
            if j < n {
                assert(download.picked(count)[j] == k);
                assert(download.picked(count).contains(k));
            }
            assert(rest[j - n] == k);
        }
        if rest.contains(k) {
            let j = choose|j: int| 0 <= j < rest.len() && rest[j] == k;
            assert(free[n + j] == k);
            assert(free.contains(k));
            if download.picked(count).contains(k) {
                let i = choose|i: int| 0 <= i < n && download.picked(count)[i] == k;
                assert(free[i] == k);
            }
            assert(after[k] == Block::Free);
        }
    }
    lemma_same_ascending(free_blocks(after), rest);
}

/// Two ascending sequences with the same elements are equal.
proof fn lemma_same_ascending(a: Seq<int>, b: Seq<int>)
    requires
        forall|i: int, j: int| 0 <= i < j < a.len() ==> a[i] < a[j],
        forall|i: int, j: int| 0 <= i < j < b.len() ==> b[i] < b[j],
        forall|k: int|
            #![trigger a.contains(k)]
            #![trigger b.contains(k)]
            a.contains(k) <==> b.contains(k),
    ensures
        a == b,
    decreases a.len(),
{
    if a.len() == 0 {
        if b.len() > 0 {
            assert(b.contains(b[0]));
        }
        assert(a =~= b);
    } else {
        assert(a.contains(a.last()));
        assert(b.contains(a.last()));
        assert(b.contains(b.last()));
        assert(a.contains(b.last()));
        assert(a.last() == b.last());
        let x = a.drop_last();
        let y = b.drop_last();
        assert forall|k: int| #[trigger] x.contains(k) <==> y.contains(k) by {
            if x.contains(k) {
                let i = choose|i: int| 0 <= i < x.len() && x[i] == k;
                assert(a[i] == k);
                assert(a.contains(k));
                let j = choose|j: int| 0 <= j < b.len() && b[j] == k;
                assert(y[j] == k);
            }
            if y.contains(k) {
                let j = choose|j: int| 0 <= j < y.len() && y[j] == k;
                assert(b[j] == k);
                assert(b.contains(k));
                let i = choose|i: int| 0 <= i < a.len() && a[i] == k;
                assert(x[i] == k);
            }
        }
        lemma_same_ascending(x, y);
        assert(a =~= x.push(a.last()));
        assert(b =~= y.push(b.last()));
    }
}

/// Picking as many blocks as a fresh piece download has picks all of them.
pub proof fn law_pick_all_blocks(index: PieceIndex, len: u32, k: int)
    requires
        0 <= k < blocks_in(len as int),
    ensures
        ({
            let download = PieceDownloadView::fresh(index, len);
            let count = blocks_in(len as int) as nat;
            &&& download.picked(count).len() == count
            &&& download.picked(count)[k] == k
            &&& download.after_pick(count).blocks[k] == Block::Requested
        }),
{
    let download = PieceDownloadView::fresh(index, len);
    let all = Seq::new(blocks_in(len as int) as nat, |i: int| i);
    lemma_free_blocks(download.blocks);
    assert forall|i: int| #[trigger] free_blocks(download.blocks).contains(i) <==> all.contains(
        i,
    ) by {
        if free_blocks(download.blocks).contains(i) {
            assert(all[i] == i);
        }
        if all.contains(i) {
            assert(download.blocks[i] == Block::Free);
        }
    }
    lemma_same_ascending(free_blocks(download.blocks), all);
    let picked = download.picked(all.len());
    assert(picked =~= all);
    assert(picked[k] == k);
}

/// Cancelling the request of a block that was picked makes it free, as it was
/// before, and changes nothing else. Cancelling the requests of all blocks that were
/// picked restores the download.
pub proof fn law_cancel_undoes_pick(download: PieceDownloadView, count: nat, k: int)
    requires
        download.wf(),
        download.picked(count).contains(k),
    ensures
        ({
            let after = download.after_pick(count);
            let cancelled = after.with_block(download.block_info(k), Block::Free);
            &&& cancelled.blocks[k] == download.blocks[k]
            &&& forall|i: int|
                0 <= i < after.blocks.len() && i != k ==> #[trigger] cancelled.blocks[i]
                    == after.blocks[i]
            &&& free_blocks(cancelled.blocks).contains(k)
        }),
        download_cancelled(
            download.after_pick(count),
            download.picked_blocks(count).to_set(),
        ) == download,
{
    law_picks_are_free_blocks(download, count);
    lemma_block_in_piece(download.len, k);
    let after = download.after_pick(count);
    let cancelled = after.with_block(download.block_info(k), Block::Free);
    lemma_free_blocks(cancelled.blocks);
    assert(cancelled.blocks[k] == Block::Free);
    let picked = download.picked(count);
    let requests = download.picked_blocks(count);
    let restored = download_cancelled(after, requests.to_set());
    assert forall|i: int| 0 <= i < download.blocks.len() implies #[trigger] restored.blocks[i]
        == download.blocks[i] by {
        if picked.contains(i) {
            let a = choose|a: int| 0 <= a < picked.len() && picked[a] == i;
            lemma_block_in_piece(download.len, i);
            assert(requests[a] == download.block_info(i));
            assert(requests.to_set().contains(download.block_info(i)));
        }
        if exists|block: BlockInfo| #[trigger]
            requests.to_set().contains(block) && block.piece_index == download.index
                && block.offset as int / BLOCK_LEN as int == i {
            let block = choose|block: BlockInfo| #[trigger]
                requests.to_set().contains(block) && block.piece_index == download.index
                    && block.offset as int / BLOCK_LEN as int == i;
            let b = choose|b: int| 0 <= b < requests.len() && requests[b] == block;
            assert(picked.contains(picked[b]));
            lemma_block_in_piece(download.len, picked[b]);
            assert(requests[b] == download.block_info(picked[b]));
            assert(picked[b] == i);
        }
    }
    assert(restored =~= download);
}

/// Each block that is received is one missing block less, and the piece is
/// complete when none is missing.
pub proof fn law_receiving_counts_down(download: PieceDownloadView, block: BlockInfo)
    requires
        download.wf(),
        download.has_block(block),
        download.state_of(block) != Block::Received,
    ensures
        missing_blocks(download.with_block(block, Block::Received).blocks) + 1 == missing_blocks(
            download.blocks,
        ),
        download.complete() <==> missing_blocks(download.blocks) == 0,
{
    lemma_missing_blocks(download.blocks);
    lemma_missing_update(download.blocks, block.offset as int / BLOCK_LEN as int);
}

proof fn lemma_missing_update(blocks: Seq<Block>, i: int)
    requires
        0 <= i < blocks.len(),
        blocks[i] != Block::Received,
    ensures
        missing_blocks(blocks.update(i, Block::Received)) + 1 == missing_blocks(blocks),
    decreases blocks.len(),
{
    let updated = blocks.update(i, Block::Received);
    if i == blocks.len() - 1 {
        assert(updated.drop_last() =~= blocks.drop_last());
    } else {
        lemma_missing_update(blocks.drop_last(), i);
        assert(updated.drop_last() =~= blocks.drop_last().update(i, Block::Received));
    }
}

/// The piece downloads of a torrent that are in progress, at most one for each
/// piece, in the order in which they were started.
#[derive(Debug)]
pub struct Downloads {
    pub downloads: Vec<PieceDownload>,
}

/// Whether all downloads are well-formed and no two are of the same piece.
pub open spec fn downloads_wf(downloads: Seq<PieceDownloadView>) -> bool {
    &&& forall|i: int| 0 <= i < downloads.len() ==> (#[trigger] downloads[i]).wf()
    &&& forall|i: int, j: int|
        0 <= i < downloads.len() && 0 <= j < downloads.len() && i != j ==> (
        #[trigger] downloads[i]).index != (#[trigger] downloads[j]).index
}

/// Whether the piece is being downloaded.
pub open spec fn has_download(downloads: Seq<PieceDownloadView>, index: PieceIndex) -> bool {
    exists|i: int| 0 <= i < downloads.len() && (#[trigger] downloads[i]).index == index
}

/// Whether the block is requested in the download of its piece.
pub open spec fn is_requested(downloads: Seq<PieceDownloadView>, block: BlockInfo) -> bool {
    exists|i: int|
        0 <= i < downloads.len() && (#[trigger] downloads[i]).is_block(block)
            && downloads[i].state_of(block) == Block::Requested
}

/// Whether all requests have a corresponding piece download in which they are
/// requested.
pub open spec fn requests_tracked(
    downloads: Seq<PieceDownloadView>,
    requests: Set<BlockInfo>,
) -> bool {
    forall|block: BlockInfo| #[trigger]
        requests.contains(block) ==> is_requested(downloads, block)
}

/// The downloads after the requests were cancelled: the requested blocks are free
/// again.
pub open spec fn cancelled(
    downloads: Seq<PieceDownloadView>,
    requests: Set<BlockInfo>,
) -> Seq<PieceDownloadView> {
    downloads.map_values(|download: PieceDownloadView| download_cancelled(download, requests))
}

/// The download after those of the requests that are for its blocks were
/// cancelled.
pub open spec fn download_cancelled(
    download: PieceDownloadView,
    requests: Set<BlockInfo>,
) -> PieceDownloadView {
    PieceDownloadView {
        blocks: Seq::new(
            download.blocks.len(),
            |i: int|
                if exists|block: BlockInfo| #[trigger]
                    requests.contains(block) && block.piece_index == download.index
                        && block.offset as int / BLOCK_LEN as int == i {
                    Block::Free
                } else {
                    download.blocks[i]
                },
        ),
        ..download
    }
}

/// The views of the downloads.
pub open spec fn download_views(downloads: Seq<PieceDownload>) -> Seq<PieceDownloadView> {
    downloads.map_values(|download: PieceDownload| download@)
}

impl View for Downloads {
    type V = Seq<PieceDownloadView>;

    open spec fn view(&self) -> Seq<PieceDownloadView> {
        download_views(self.downloads@)
    }
}

impl Downloads {
    /// Creates an empty list of downloads.
    pub fn new() -> (downloads: Self)
        ensures
            downloads@ == Seq::<PieceDownloadView>::empty(),
            downloads_wf(downloads@),
    {
        let downloads = Downloads { downloads: Vec::new() };
        assert(downloads@ =~= Seq::<PieceDownloadView>::empty());
        downloads
    }

    /// Returns the number of downloads.
    pub fn len(&self) -> (len: usize)
        ensures
            len == self@.len(),
    {
        self.downloads.len()
    }

    /// Returns the position of the download of the piece.
    pub fn position(&self, index: PieceIndex) -> (pos: Option<usize>)
        ensures
            match pos {
                Some(pos) => pos < self@.len() && self@[pos as int].index == index,
                None => !has_download(self@, index),
            },
    {
        let mut i: usize = 0;
        while i < self.downloads.len()
            invariant
                i <= self.downloads@.len(),
                forall|k: int| 0 <= k < i ==> (#[trigger] self@[k]).index != index,
            decreases self.downloads@.len() - i,
        {
            if self.downloads[i].piece_index() == index {
                return Some(i);
            }
            i = i + 1;
        }
        None
    }

    /// Picks blocks in the download at the position.
    pub fn pick_blocks(&mut self, pos: usize, count: usize, blocks: &mut Vec<BlockInfo>)
        requires
            downloads_wf(old(self)@),
            pos < old(self)@.len(),
        ensures
            final(self)@ == old(self)@.update(
                pos as int,
                old(self)@[pos as int].after_pick(count as nat),
            ),
            downloads_wf(final(self)@),
            final(blocks)@ == old(blocks)@ + old(self)@[pos as int].picked_blocks(count as nat),
    {
        let ghost before = self@;
        assert(before[pos as int].wf());
        self.downloads[pos].pick_blocks(count, blocks);
        proof {
            assert(self@ =~= before.update(pos as int, before[pos as int].after_pick(count as nat)));
            lemma_update_wf(before, pos as int, before[pos as int].after_pick(count as nat));
        }
    }

    /// Adds a download of a piece that is not being downloaded yet.
    pub fn insert(&mut self, download: PieceDownload)
        requires
            downloads_wf(old(self)@),
            download@.wf(),
            !has_download(old(self)@, download@.index),
        ensures
            final(self)@ == old(self)@.push(download@),
            downloads_wf(final(self)@),
    {
        let ghost before = self@;
        let ghost added = download@;
        self.downloads.push(download);
        assert(self@ =~= before.push(added));
    }

    /// Marks the block as received in the download at the position.
    pub fn received_block(&mut self, pos: usize, block: &BlockInfo)
        requires
            downloads_wf(old(self)@),
            pos < old(self)@.len(),
            old(self)@[pos as int].has_block(*block),
            old(self)@[pos as int].state_of(*block) == Block::Requested,
        ensures
            final(self)@ == old(self)@.update(
                pos as int,
                old(self)@[pos as int].with_block(*block, Block::Received),
            ),
            downloads_wf(final(self)@),
    {
        let ghost before = self@;
        self.downloads[pos].received_block(block);
        proof {
            let after = before[pos as int].with_block(*block, Block::Received);
            assert(self@ =~= before.update(pos as int, after));
            lemma_update_wf(before, pos as int, after);
        }
    }

    /// Returns true if the download at the position has all blocks downloaded.
    pub fn is_complete(&self, pos: usize) -> (complete: bool)
        requires
            pos < self@.len(),
        ensures
            complete == self@[pos as int].complete(),
    {
        self.downloads[pos].is_complete()
    }

    /// Removes the download at the position.
    pub fn remove(&mut self, pos: usize)
        requires
            downloads_wf(old(self)@),
            pos < old(self)@.len(),
        ensures
            final(self)@ == old(self)@.remove(pos as int),
            downloads_wf(final(self)@),
    {
        let ghost before = self@;
        self.downloads.remove(pos);
        proof {
            assert(self@ =~= before.remove(pos as int));
            assert forall|i: int, j: int|
                0 <= i < self@.len() && 0 <= j < self@.len() && i != j implies (
            #[trigger] self@[i]).index != (#[trigger] self@[j]).index by {
                let p = if i < pos {
                    i
                } else {
                    i + 1
                };
                let q = if j < pos {
                    j
                } else {
                    j + 1
                };
                assert(before[p].index != before[q].index);
            }
            assert forall|i: int| 0 <= i < self@.len() implies (#[trigger] self@[i]).wf() by {
                let p = if i < pos {
                    i
                } else {
                    i + 1
                };
                assert(before[p].wf());
            }
        }
    }

    /// Cancels the requests, so that their blocks can be requested again.
    pub fn cancel_requests(&mut self, requests: &RequestSet)
        requires
            downloads_wf(old(self)@),
            requests.wf(),
            requests_tracked(old(self)@, requests@),
        ensures
            downloads_wf(final(self)@),
            final(self)@ == cancelled(old(self)@, requests@),
    {
        let ghost before = self@;
        let blocks: &[BlockInfo] = requests.as_slice();
        let mut i: usize = 0;
        proof {
            assert(blocks@.take(0).to_set() =~= Set::<BlockInfo>::empty());
            lemma_cancel_none(before);
        }
        while i < blocks.len()
            invariant
                i <= blocks@.len(),
                blocks@.to_set() == requests@,
                downloads_wf(before),
                requests_tracked(before, requests@),
                downloads_wf(self@),
                self@ == cancelled(before, blocks@.take(i as int).to_set()),
            decreases blocks@.len() - i,
        {
            let block: BlockInfo = blocks[i];
            let ghost done = blocks@.take(i as int).to_set();
            let ghost mut at: int = 0;
            proof {
                assert(requests@.contains(block)) by {
                    assert(blocks@[i as int] == block);
                }
                at = lemma_tracked_download(before, block);
            }
            match self.position(block.piece_index) {
                Some(pos) => {
                    let ghost here = self@;
                    proof {
                        assert(here[pos as int].index == before[pos as int].index);
                        assert(before[pos as int].index == block.piece_index);
                        assert(pos == at);
                        assert(here[pos as int].has_block(block));
                    }
                    self.downloads[pos].cancel_request(&block);
                    proof {
                        let after = here[pos as int].with_block(block, Block::Free);
                        assert(self@ =~= here.update(pos as int, after));
                        lemma_update_wf(here, pos as int, after);
                        assert(blocks@.take(i + 1).to_set() =~= done.insert(block)) by {
                            lemma_take_set(blocks@, i as int);
                        }
                        lemma_cancel_one(before, done, block, pos as int);
                    }
                },
                None => {
                    proof {
                        assert(self@[at].index == before[at].index);
                        assert(false);
                    }
                },
            }
            i = i + 1;
        }
        assert(blocks@.take(i as int) =~= blocks@);
    }
}

proof fn lemma_update_wf(downloads: Seq<PieceDownloadView>, pos: int, after: PieceDownloadView)
    requires
        downloads_wf(downloads),
        0 <= pos < downloads.len(),
        after.wf(),
        after.index == downloads[pos].index,
    ensures
        downloads_wf(downloads.update(pos, after)),
{
    let updated = downloads.update(pos, after);
    assert forall|i: int, j: int|
        0 <= i < updated.len() && 0 <= j < updated.len() && i != j implies (
    #[trigger] updated[i]).index != (#[trigger] updated[j]).index by {
        assert(downloads[i].index != downloads[j].index);
    }
}

/// The download in which a block is requested.
pub proof fn lemma_tracked_download(downloads: Seq<PieceDownloadView>, block: BlockInfo) -> (pos:
    int)
    requires
        downloads_wf(downloads),
        is_requested(downloads, block),
    ensures
        0 <= pos < downloads.len(),
        downloads[pos].index == block.piece_index,
        downloads[pos].is_block(block),
        downloads[pos].has_block(block),
        downloads[pos].state_of(block) == Block::Requested,
        has_download(downloads, block.piece_index),
{
    let k = choose|k: int|
        0 <= k < downloads.len() && (#[trigger] downloads[k]).is_block(block)
            && downloads[k].state_of(block) == Block::Requested;
    assert(downloads[k].wf());
    lemma_block_in_piece(downloads[k].len, block.offset as int / BLOCK_LEN as int);
    assert(downloads[k].index == block.piece_index);
    k
}

proof fn lemma_cancel_none(downloads: Seq<PieceDownloadView>)
    ensures
        cancelled(downloads, Set::<BlockInfo>::empty()) == downloads,
{
    let none = Set::<BlockInfo>::empty();
    assert forall|k: int| 0 <= k < downloads.len() implies #[trigger] cancelled(downloads, none)[k]
        == downloads[k] by {
        assert(download_cancelled(downloads[k], none) =~= downloads[k]);
    }
    assert(cancelled(downloads, none) =~= downloads);
}

proof fn lemma_take_set(blocks: Seq<BlockInfo>, i: int)
    requires
        0 <= i < blocks.len(),
    ensures
        blocks.take(i + 1).to_set() == blocks.take(i).to_set().insert(blocks[i]),
{
    let a = blocks.take(i + 1);
    let b = blocks.take(i);
    assert forall|x: BlockInfo| #[trigger] a.to_set().contains(x) <==> b.to_set().insert(
        blocks[i],
    ).contains(x) by {
        if a.contains(x) {
            let k = choose|k: int| 0 <= k < a.len() && a[k] == x;
            if k < i {
                assert(b[k] == x);
            }
        }
        if b.contains(x) {
            let k = choose|k: int| 0 <= k < b.len() && b[k] == x;
            assert(a[k] == x);
        }
        assert(a[i] == blocks[i]);
    }
    assert(a.to_set() =~= b.to_set().insert(blocks[i]));
}

/// Cancelling one more request frees its block.
proof fn lemma_cancel_one(
    downloads: Seq<PieceDownloadView>,
    done: Set<BlockInfo>,
    block: BlockInfo,
    pos: int,
)
    requires
        downloads_wf(downloads),
        0 <= pos < downloads.len(),
        downloads[pos].has_block(block),
    ensures
        cancelled(downloads, done.insert(block)) == cancelled(downloads, done).update(
            pos,
            cancelled(downloads, done)[pos].with_block(block, Block::Free),
        ),
{
    let more = done.insert(block);
    let left = cancelled(downloads, more);
    let right = cancelled(downloads, done).update(
        pos,
        cancelled(downloads, done)[pos].with_block(block, Block::Free),
    );
    assert forall|k: int| 0 <= k < downloads.len() implies #[trigger] left[k] == right[k] by {
        let download = downloads[k];
        assert(k != pos ==> download.index != downloads[pos].index);
        let a = download_cancelled(download, more);
        let b = download_cancelled(download, done);
        assert forall|i: int| 0 <= i < download.blocks.len() implies #[trigger] a.blocks[i] == (
        if k == pos && i == block.offset as int / BLOCK_LEN as int {
            Block::Free
        } else {
            b.blocks[i]
        }) by {
            if exists|x: BlockInfo| #[trigger]
                more.contains(x) && x.piece_index == download.index && x.offset as int
                    / BLOCK_LEN as int == i {
                let x = choose|x: BlockInfo| #[trigger]
                    more.contains(x) && x.piece_index == download.index && x.offset as int
                        / BLOCK_LEN as int == i;
                if x != block {
                    assert(done.contains(x));
                }
            }
            if exists|x: BlockInfo| #[trigger]
                done.contains(x) && x.piece_index == download.index && x.offset as int
                    / BLOCK_LEN as int == i {
                let x = choose|x: BlockInfo| #[trigger]
                    done.contains(x) && x.piece_index == download.index && x.offset as int
                        / BLOCK_LEN as int == i;
                assert(more.contains(x));
            }
            assert(more.contains(block));
        }
        if k == pos {
            assert(a =~= b.with_block(block, Block::Free));
        } else {
            assert(a =~= b);
        }
    }
    assert(left =~= right);
}

/// A new download has as many free blocks as the piece has blocks.
pub proof fn law_new_download_is_free(index: PieceIndex, len: u32, i: int)
    ensures
        ({
            let download = PieceDownloadView::fresh(index, len);
            &&& download.index == index
            &&& download.len == len
            &&& download.wf()
            &&& 0x4000 * (download.blocks.len() - 1) < len <= 0x4000 * download.blocks.len() || (len
                == 0 && download.blocks.len() == 0)
            &&& 0 <= i < download.blocks.len() ==> download.blocks[i] == Block::Free
        }),
{
}

/// A block that is requested is at its place in the piece and 16 KiB long, but for the
/// last one, which ends with the piece.
pub proof fn law_requests_are_for_whole_blocks(download: PieceDownloadView, i: int)
    requires
        download.wf(),
        0 <= i < download.blocks.len(),
    ensures
        ({
            let block = download.block_info(i);
            &&& block.piece_index == download.index
            &&& block.offset == 0x4000 * i
            &&& i + 1 < download.blocks.len() ==> block.len == 0x4000
            &&& i + 1 == download.blocks.len() ==> block.offset + block.len == download.len
            &&& download.is_block(block)
            &&& download.has_block(block)
            &&& download.state_of(block) == download.blocks[i]
        }),
{
    lemma_block_in_piece(download.len, i);
}

/// Picking blocks requests exactly the ones that are returned, and leaves the others as
/// they are. If fewer are returned than asked for, there was no other free one.
pub proof fn law_picked_blocks_are_requested(download: PieceDownloadView, count: nat, i: int)
    requires
        download.wf(),
        0 <= i < download.blocks.len(),
    ensures
        ({
            let after = download.after_pick(count);
            let blocks = download.picked_blocks(count);
            &&& after.index == download.index
            &&& after.len == download.len
            &&& after.blocks.len() == download.blocks.len()
            &&& blocks.len() <= count
            &&& blocks.contains(download.block_info(i)) ==> {
                &&& download.blocks[i] == Block::Free
                &&& after.blocks[i] == Block::Requested
            }
            &&& !blocks.contains(download.block_info(i)) ==> after.blocks[i] == download.blocks[i]
            &&& blocks.len() < count ==> after.blocks[i] != Block::Free
            &&& count > 0 && download.blocks[i] == Block::Free ==> blocks.len() > 0
            &&& i == 0 && count > 0 && download.blocks[0] == Block::Free ==> blocks[0]
                == download.block_info(0)
        }),
{
    let after = download.after_pick(count);
    let picked = download.picked(count);
    let blocks = download.picked_blocks(count);
    law_picks_are_free_blocks(download, count);
    lemma_free_blocks(download.blocks);
    lemma_block_in_piece(download.len, i);
    let free = free_blocks(download.blocks);
    if picked.contains(i) {
        let k = choose|k: int| 0 <= k < picked.len() && picked[k] == i;
        assert(blocks[k] == download.block_info(i));
    }
    if blocks.contains(download.block_info(i)) {
        let k = choose|k: int| 0 <= k < blocks.len() && blocks[k] == download.block_info(i);
        assert(picked.contains(picked[k]));
        lemma_block_in_piece(download.len, picked[k]);
        assert(blocks[k] == download.block_info(picked[k]));
        assert(picked[k] == i);
    }
    if download.blocks[i] == Block::Free {
        assert(free.contains(i));
        if i == 0 && count > 0 {
            let k = choose|k: int| 0 <= k < free.len() && free[k] == 0;
            assert(free.contains(free[0]));
            assert(free[0] == 0) by {
                if k > 0 {
                    assert(free[0] < free[k]);
                }
            }
            assert(picked[0] == 0);
        }
    }
}

/// Changing the state of a block changes that block and no other.
pub proof fn law_blocks_change_one_by_one(
    download: PieceDownloadView,
    i: int,
    j: int,
    state: Block,
)
    requires
        download.wf(),
        0 <= i < download.blocks.len(),
        0 <= j < download.blocks.len(),
        i != j,
    ensures
        ({
            let after = download.with_block(download.block_info(i), state);
            &&& after.index == download.index
            &&& after.len == download.len
            &&& after.blocks.len() == download.blocks.len()
            &&& after.blocks[i] == state
            &&& after.blocks[j] == download.blocks[j]
        }),
{
    lemma_block_in_piece(download.len, i);
}

/// Each block that was not received is missing, and the piece is complete when all of
/// its blocks were received.
pub proof fn law_missing_blocks_are_counted(blocks: Seq<Block>, block: Block)
    ensures
        missing_blocks(Seq::empty()) == 0,
        missing_blocks(blocks.push(block)) == missing_blocks(blocks) + if block == Block::Received {
            0nat
        } else {
            1nat
        },
{
    assert(blocks.push(block).drop_last() =~= blocks);
}

/// Cancelling requests frees exactly the blocks that were requested.
pub proof fn law_cancelled_requests_are_free(
    downloads: Seq<PieceDownloadView>,
    requests: Set<BlockInfo>,
    pos: int,
    i: int,
)
    requires
        downloads_wf(downloads),
        0 <= pos < downloads.len(),
        0 <= i < downloads[pos].blocks.len(),
        forall|block: BlockInfo| #[trigger]
            requests.contains(block) && block.piece_index == downloads[pos].index ==> exists|k: int|
                0 <= k < downloads[pos].blocks.len() && block == #[trigger] downloads[pos].block_info(
                    k,
                ),
    ensures
        ({
            let after = cancelled(downloads, requests);
            &&& after.len() == downloads.len()
            &&& after[pos].index == downloads[pos].index
            &&& after[pos].len == downloads[pos].len
            &&& after[pos].blocks.len() == downloads[pos].blocks.len()
            &&& requests.contains(downloads[pos].block_info(i)) ==> after[pos].blocks[i]
                == Block::Free
            &&& !requests.contains(downloads[pos].block_info(i)) ==> after[pos].blocks[i]
                == downloads[pos].blocks[i]
        }),
{
    let download = downloads[pos];
    assert(download.wf());
    lemma_block_in_piece(download.len, i);
    if exists|block: BlockInfo| #[trigger]
        requests.contains(block) && block.piece_index == download.index && block.offset as int
            / BLOCK_LEN as int == i {
        let block = choose|block: BlockInfo| #[trigger]
            requests.contains(block) && block.piece_index == download.index && block.offset as int
                / BLOCK_LEN as int == i;
        let k = choose|k: int|
            0 <= k < download.blocks.len() && block == #[trigger] download.block_info(k);
        lemma_block_in_piece(download.len, k);
        assert(k == i);
    }
    if requests.contains(download.block_info(i)) {
        let block = download.block_info(i);
        assert(requests.contains(block) && block.piece_index == download.index
            && block.offset as int / BLOCK_LEN as int == i);
    }
}

/// A block is requested if one of the downloads is of its piece and has it in that
/// state.
pub proof fn law_requested_blocks_are_found(
    downloads: Seq<PieceDownloadView>,
    pos: int,
    i: int,
)
    requires
        downloads_wf(downloads),
        0 <= pos < downloads.len(),
        0 <= i < downloads[pos].blocks.len(),
    ensures
        is_requested(downloads, downloads[pos].block_info(i)) <==> downloads[pos].blocks[i]
            == Block::Requested,
        has_download(downloads, downloads[pos].index),
{
    let block = downloads[pos].block_info(i);
    assert(downloads[pos].wf());
    law_requests_are_for_whole_blocks(downloads[pos], i);
    if is_requested(downloads, block) {
        let k = choose|k: int|
            0 <= k < downloads.len() && (#[trigger] downloads[k]).is_block(block)
                && downloads[k].state_of(block) == Block::Requested;
        assert(downloads[k].index == downloads[pos].index);
        assert(k == pos);
    }
}

} // verus!
