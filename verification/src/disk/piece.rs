//! Pieces that are buffered in memory until they are complete.

use std::collections::BTreeMap;
use std::ops::Range;

use vstd::prelude::*;
use vstd::std_specs::cmp::OrdSpec;

use crate::block::{block_count, block_len_at, blocks_in, FileIndex, Sha1Hash, BLOCK_LEN};
use crate::hash::{hashes_equal, sha1, sha1_digest};
use crate::iovecs::{bounded_head, bounded_tail, flatten, law_bound_divides_bytes};
use crate::storage_info::{
    files_wf, is_intersection, lemma_adjacent_files, total_len, FileInfo, FileSlice,
};

verus! {

broadcast use vstd::std_specs::btree::group_btree_axioms;

/// An in-progress piece download that keeps in memory the so far downloaded
/// blocks and the expected hash of the piece.
#[derive(Debug)]
pub struct Piece {
    /// The expected hash of the whole piece.
    pub expected_hash: Sha1Hash,
    /// The length of the piece, in bytes.
    pub len: u32,
    /// The so far downloaded blocks. Once the size of this map reaches the
    /// number of blocks in piece, the piece is complete and, if the hash is
    /// correct, saved to disk.
    ///
    /// Each block must be 16 KiB and is mapped to its offset within piece. A
    /// BTreeMap is used to keep blocks sorted by their offsets, which is
    /// important when iterating over the map to hash each block in the right
    /// order.
    pub blocks: BTreeMap<u32, Vec<u8>>,
    /// The files that this piece overlaps with.
    ///
    /// This is a left-inclusive range of all all file indices, that can be used
    /// to index the torrent's files to get the file handles.
    pub file_range: Range<FileIndex>,
}

/// The bytes of the blocks whose offset is below the limit, one block after the
/// other, in the order of their offsets.
pub open spec fn bytes_below(blocks: Map<u32, Vec<u8>>, limit: nat) -> Seq<u8>
    decreases limit,
{
    if limit == 0 {
        Seq::empty()
    } else {
        let offset = (limit - 1) as u32;
        bytes_below(blocks, (limit - 1) as nat) + if blocks.dom().contains(offset) {
            blocks[offset]@
        } else {
            Seq::empty()
        }
    }
}

/// The bytes of all blocks, in the order of their offsets.
pub open spec fn bytes_of(blocks: Map<u32, Vec<u8>>) -> Seq<u8> {
    bytes_below(blocks, 0x1_0000_0000)
}

/// Between two limits there is nothing but the blocks whose offsets lie between
/// them.
proof fn lemma_bytes_between(blocks: Map<u32, Vec<u8>>, low: nat, high: nat)
    requires
        low <= high <= 0x1_0000_0000,
        forall|k: u32| low <= k < high ==> !#[trigger] blocks.dom().contains(k),
    ensures
        bytes_below(blocks, high) == bytes_below(blocks, low),
    decreases high,
{
    if low < high {
        lemma_bytes_between(blocks, low, (high - 1) as nat);
        assert(!blocks.dom().contains((high - 1) as u32));
        assert(bytes_below(blocks, high) =~= bytes_below(blocks, (high - 1) as nat));
    }
}

impl Piece {
    /// Whether there are as many blocks as the piece has.
    pub open spec fn complete(&self) -> bool {
        self.blocks@.dom().len() == blocks_in(self.len as int)
    }

    /// Creates a piece of which no block was downloaded yet.
    pub fn new(expected_hash: Sha1Hash, len: u32, file_range: Range<FileIndex>) -> (piece: Self)
        ensures
            piece.expected_hash == expected_hash,
            piece.len == len,
            piece.file_range == file_range,
            piece.blocks@ == Map::<u32, Vec<u8>>::empty(),
    {
        Piece { expected_hash, len, blocks: BTreeMap::new(), file_range }
    }

    /// Places block into piece's write buffer if it doesn't exist.
    pub fn enqueue_block(&mut self, offset: u32, data: Vec<u8>)
        ensures
            final(self).blocks@ == if old(self).blocks@.dom().contains(offset) {
                old(self).blocks@
            } else {
                old(self).blocks@.insert(offset, data)
            },
            final(self).expected_hash == old(self).expected_hash,
            final(self).len == old(self).len,
            final(self).file_range == old(self).file_range,
    {
        if !self.blocks.contains_key(&offset) {
            self.blocks.insert(offset, data);
        }
    }

    /// Returns true if the piece has all its blocks in its write buffer.
    pub fn is_complete(&self) -> (r: bool)
        ensures
            r == self.complete(),
    {
        self.blocks.len() == block_count(self.len)
    }

    /// Returns the bytes of the piece's blocks.
    pub fn bytes(&self) -> (bytes: Vec<u8>)
        ensures
            bytes@ == bytes_of(self.blocks@),
    {
        let mut bytes: Vec<u8> = Vec::new();
        let ghost blocks = self.blocks@;
        let listing = self.blocks.iter();
        let ghost list = vstd::std_specs::iter::IteratorSpec::remaining(&listing);
        let ghost offsets = listed_offsets(list);
        proof {
            let keys = list.map_values(|entry: (&u32, &Vec<u8>)| *entry.0);
            assert(vstd::std_specs::btree::increasing_seq(keys));
            assert(keys =~= offsets);
            lemma_ascending(keys);
            assert forall|k: u32| #[trigger] blocks.dom().contains(k) implies offsets.contains(
                k,
            ) by {
                assert(blocks.contains_key(k));
                let i = choose|i: int| 0 <= i < list.len() && list[i] == (&k, &blocks[k]);
                assert(offsets[i] == k);
            }
            assert forall|i: int| 0 <= i < offsets.len() implies blocks.dom().contains(
                #[trigger] offsets[i],
            ) by {
                assert(blocks.contains_key(*list[i].0));
            }
            assert(is_listing(blocks, offsets));
        }
        for block in iter: listing
            invariant
                blocks == self.blocks@,
                is_listing(blocks, offsets),
                offsets == listed_offsets(iter.seq()),
                forall|i: int|
                    0 <= i < iter.seq().len() ==> *(#[trigger] iter.seq()[i]).1
                        == blocks[*iter.seq()[i].0],
                bytes@ == bytes_below(blocks, limit_of(offsets, iter.index() as int)),
        {
            proof {
                lemma_next_block(blocks, offsets, iter.index() as int);
            }
            bytes.extend_from_slice(block.1.as_slice());
        }
        proof {
            lemma_all_blocks(blocks, offsets);
        }
        bytes
    }

    /// Calculates the piece's hash using all its blocks and returns if it
    /// matches the expected hash.
    ///
    /// # Important
    ///
    /// This is potentially a computationally expensive function and should be
    /// executed on a thread pool and not the executor.
    pub fn matches_hash(&self) -> (r: bool)
        requires
            self.complete(),
        ensures
            r == (sha1(bytes_of(self.blocks@)) == self.expected_hash@),
    {
        let bytes: Vec<u8> = self.bytes();
        let hash: Sha1Hash = sha1_digest(bytes.as_slice());
        hashes_equal(&hash, &self.expected_hash)
    }

    /// Returns where the piece's bytes are to be written: for each file that the
    /// piece overlaps with, the part of the file that does.
    pub fn write(&self, torrent_piece_offset: u64, files: &Vec<FileInfo>) -> (slices: Vec<FileSlice>)
        requires
            self.len > 0,
            torrent_piece_offset + self.len <= total_len(files@) <= u64::MAX,
            files_wf(files@),
            is_intersection(
                files@,
                torrent_piece_offset as int,
                torrent_piece_offset + self.len,
                self.file_range,
            ),
        ensures
            covers(
                files@,
                self.file_range.start as int,
                torrent_piece_offset as int,
                torrent_piece_offset + self.len,
                slices@,
            ),
            slices@.len() == self.file_range.end - self.file_range.start,
            are_overlaps(
                files@,
                self.file_range.start as int,
                torrent_piece_offset as int,
                torrent_piece_offset + self.len,
                slices@,
            ),
    {
        file_slices(files, &self.file_range, torrent_piece_offset, self.len as u64)
    }
}

/// The sum of the lengths of the slices.
pub open spec fn slices_len(slices: Seq<FileSlice>) -> int
    decreases slices.len(),
{
    if slices.len() == 0 {
        0
    } else {
        slices_len(slices.drop_last()) + slices.last().len
    }
}

/// Whether the slices, one of each file from the first on, are the parts of the
/// files that overlap with the range of bytes in the torrent: none is empty, each
/// begins where the bytes before it end, and together they are as long as the
/// range.
pub open spec fn covers(
    files: Seq<FileInfo>,
    first: int,
    start: int,
    end: int,
    slices: Seq<FileSlice>,
) -> bool {
    &&& 0 <= first
    &&& first + slices.len() <= files.len()
    &&& slices_len(slices) == end - start
    &&& slices_follow(files, first, start, slices)
}

/// Whether each slice is a part of its file and begins where the bytes before it
/// end.
pub open spec fn slices_follow(
    files: Seq<FileInfo>,
    first: int,
    start: int,
    slices: Seq<FileSlice>,
) -> bool {
    forall|k: int|
        0 <= k < slices.len() ==> begins_at(
            files[first + k],
            #[trigger] slices[k],
            start + slices_len(slices.take(k)),
        )
}

/// The part of the file that overlaps with the range of bytes in the torrent.
pub open spec fn overlap(file: FileInfo, start: int, end: int) -> FileSlice {
    let from = if start > file.torrent_offset {
        start
    } else {
        file.torrent_offset as int
    };
    let to = if end < file.end() {
        end
    } else {
        file.end()
    };
    FileSlice { offset: (from - file.torrent_offset) as u64, len: (to - from) as u64 }
}

/// Whether the slices are the parts of the files, from the first on, that overlap
/// with the range of bytes in the torrent.
pub open spec fn are_overlaps(
    files: Seq<FileInfo>,
    first: int,
    start: int,
    end: int,
    slices: Seq<FileSlice>,
) -> bool {
    forall|k: int|
        0 <= k < slices.len() ==> #[trigger] slices[k] == overlap(files[first + k], start, end)
}

/// Whether the slice is a part of the file that is not empty and begins at the
/// position in the torrent.
pub open spec fn begins_at(file: FileInfo, slice: FileSlice, position: int) -> bool {
    &&& slice.len > 0
    &&& slice.offset + slice.len <= file.len
    &&& file.torrent_offset + slice.offset == position
}

/// Returns the parts of the files that overlap with the range of bytes in the
/// torrent.
pub fn file_slices(
    files: &Vec<FileInfo>,
    file_range: &Range<FileIndex>,
    torrent_offset: u64,
    len: u64,
) -> (slices: Vec<FileSlice>)
    requires
        len > 0,
        torrent_offset + len <= total_len(files@) <= u64::MAX,
        files_wf(files@),
        is_intersection(
            files@,
            torrent_offset as int,
            torrent_offset + len,
            *file_range,
        ),
    ensures
        covers(
            files@,
            file_range.start as int,
            torrent_offset as int,
            torrent_offset + len,
            slices@,
        ),
        slices@.len() == file_range.end - file_range.start,
        are_overlaps(
            files@,
            file_range.start as int,
            torrent_offset as int,
            torrent_offset + len,
            slices@,
        ),
{
    let ghost end = torrent_offset + len;
    let mut slices: Vec<FileSlice> = Vec::new();
    // the offset at which we need to write in torrent, which is updated
    // with each file
    let mut torrent_write_offset: u64 = torrent_offset;
    let mut remaining: u64 = len;
    let mut i: usize = file_range.start;
    proof {
        crate::storage_info::lemma_byte_has_file(files@, torrent_offset as int);
    }
    while i < file_range.end
        invariant
            file_range.start <= i <= file_range.end <= files@.len(),
            file_range.start < file_range.end,
            files_wf(files@),
            end == torrent_offset + len,
            end <= total_len(files@) <= u64::MAX,
            len > 0,
            forall|k: int|
                file_range.start < k < file_range.end ==> torrent_offset <= (
                #[trigger] files@[k]).torrent_offset < end,
            files@[file_range.start as int].has_byte(torrent_offset as int),
            slices@.len() == i - file_range.start,
            torrent_write_offset == torrent_offset + slices_len(slices@),
            torrent_write_offset + remaining == end,
            i == file_range.start ==> torrent_write_offset == torrent_offset,
            i > file_range.start ==> torrent_write_offset == (if files@[i - 1].end() < end {
                files@[i - 1].end()
            } else {
                end
            }),
            slices_follow(files@, file_range.start as int, torrent_offset as int, slices@),
            are_overlaps(
                files@,
                file_range.start as int,
                torrent_offset as int,
                end,
                slices@,
            ),
        decreases file_range.end - i,
    {
        let ghost before = slices@;
        let ghost position = torrent_write_offset;
        let ghost file = files@[i as int];
        proof {
            assert(file.wf() && file.len > 0);
            if i > file_range.start {
                lemma_adjacent_files(files@, i - 1);
                assert(torrent_offset <= file.torrent_offset < end);
                assert(position == file.torrent_offset);
            }
            assert(file.has_byte(position as int));
            assert(position < end);
        }
        // determine which part of the file we need to write to
        let slice: FileSlice = files[i].get_slice(torrent_write_offset, remaining);
        slices.push(slice);
        torrent_write_offset = torrent_write_offset + slice.len;
        remaining = remaining - slice.len;
        proof {
            assert(begins_at(file, slice, position as int));
            assert(slice == overlap(file, torrent_offset as int, end));
            lemma_slices_extended(
                files@,
                file_range.start as int,
                torrent_offset as int,
                end,
                before,
                slice,
            );
        }
        i = i + 1;
    }
    proof {
        let last = file_range.end - 1;
        if file_range.end < files@.len() {
            lemma_adjacent_files(files@, last);
            crate::storage_info::lemma_offsets_grow(
                files@,
                file_range.start as int,
                file_range.end as int,
            );
        } else {
            assert(files@.take(last) =~= files@.drop_last());
            assert(files@[last].end() == total_len(files@));
        }
    }
    slices
}

proof fn lemma_slices_extended(
    files: Seq<FileInfo>,
    first: int,
    start: int,
    end: int,
    before: Seq<FileSlice>,
    slice: FileSlice,
)
    requires
        slices_follow(files, first, start, before),
        are_overlaps(files, first, start, end, before),
        begins_at(files[first + before.len()], slice, start + slices_len(before)),
        slice == overlap(files[first + before.len()], start, end),
    ensures
        slices_follow(files, first, start, before.push(slice)),
        are_overlaps(files, first, start, end, before.push(slice)),
        slices_len(before.push(slice)) == slices_len(before) + slice.len,
{
    let after = before.push(slice);
    assert(after.drop_last() =~= before);
    assert forall|k: int| 0 <= k < after.len() implies begins_at(
        files[first + k],
        #[trigger] after[k],
        start + slices_len(after.take(k)),
    ) by {
        if k < before.len() {
            assert(after.take(k) =~= before.take(k));
            assert(after[k] == before[k]);
        } else {
            assert(after.take(k) =~= before);
        }
    }
    assert forall|k: int| 0 <= k < after.len() implies #[trigger] after[k] == overlap(
        files[first + k],
        start,
        end,
    ) by {
        if k < before.len() {
            assert(after[k] == before[k]);
        }
    }
}

/// The buffers that are left after the first `k` slices were written.
pub open spec fn left_after(bufs: Seq<Seq<u8>>, slices: Seq<FileSlice>, k: int) -> Seq<Seq<u8>>
    decreases k,
{
    if k <= 0 {
        bufs
    } else {
        bounded_tail(left_after(bufs, slices, k - 1), slices[k - 1].len as int)
    }
}

/// Writing the buffers slice by slice writes to each slice the bytes of the piece
/// that belong there, and uses up all of them: the bytes that go to a slice are
/// those that follow the ones of the slices before it.
pub proof fn law_writes_distribute_bytes(bufs: Seq<Seq<u8>>, slices: Seq<FileSlice>, k: int)
    requires
        slices_len(slices) == flatten(bufs).len(),
        0 <= k < slices.len(),
    ensures
        0 <= slices_len(slices.take(k)) <= slices_len(slices.take(k)) + slices[k].len
            <= flatten(bufs).len(),
        flatten(bounded_head(left_after(bufs, slices, k), slices[k].len as int)) == flatten(
            bufs,
        ).subrange(
            slices_len(slices.take(k)),
            slices_len(slices.take(k)) + slices[k].len,
        ),
        flatten(left_after(bufs, slices, slices.len() as int)).len() == 0,
{
    lemma_left_after(bufs, slices, k);
    lemma_slices_len(slices, k);
    lemma_slices_len(slices, k + 1);
    assert(slices.take(k + 1).drop_last() =~= slices.take(k));
    let left = left_after(bufs, slices, k);
    law_bound_divides_bytes(left, slices[k].len as int);
    let head = flatten(bounded_head(left, slices[k].len as int));
    let tail = flatten(bounded_tail(left, slices[k].len as int));
    let all = flatten(bufs);
    let done = slices_len(slices.take(k));
    assert(head + tail == all.skip(done));
    assert(head =~= all.subrange(done, done + slices[k].len)) by {
        assert forall|i: int| 0 <= i < head.len() implies head[i] == all[done + i] by {
            assert((head + tail)[i] == head[i]);
        }
    }
    lemma_left_after(bufs, slices, slices.len() as int);
    assert(slices.take(slices.len() as int) =~= slices);
}

/// The first slices are not longer than all of them.
pub proof fn lemma_slices_len(slices: Seq<FileSlice>, k: int)
    requires
        0 <= k <= slices.len(),
    ensures
        0 <= slices_len(slices.take(k)) <= slices_len(slices),
    decreases slices.len(),
{
    if k < slices.len() {
        lemma_slices_len(slices.drop_last(), k);
        assert(slices.drop_last().take(k) =~= slices.take(k));
    } else {
        assert(slices.take(k) =~= slices);
        if k > 0 {
            lemma_slices_len(slices.drop_last(), k - 1);
            assert(slices.drop_last().take(k - 1) =~= slices.drop_last());
        }
    }
}

/// What is left after some slices were written are the bytes that follow them.
proof fn lemma_left_after(bufs: Seq<Seq<u8>>, slices: Seq<FileSlice>, k: int)
    requires
        slices_len(slices) <= flatten(bufs).len(),
        0 <= k <= slices.len(),
    ensures
        flatten(left_after(bufs, slices, k)) == flatten(bufs).skip(slices_len(slices.take(k))),
    decreases k,
{
    lemma_slices_len(slices, k);
    if k > 0 {
        lemma_left_after(bufs, slices, k - 1);
        lemma_slices_len(slices, k - 1);
        assert(slices.take(k).drop_last() =~= slices.take(k - 1));
        let left = left_after(bufs, slices, k - 1);
        let len = slices[k - 1].len as int;
        law_bound_divides_bytes(left, len);
        let head = flatten(bounded_head(left, len));
        let tail = flatten(bounded_tail(left, len));
        assert(tail =~= (head + tail).skip(head.len() as int));
        assert(tail =~= flatten(bufs).skip(slices_len(slices.take(k))));
    } else {
        assert(flatten(bufs).skip(0) =~= flatten(bufs));
    }
}

/// A piece is the same whatever the order in which its blocks arrive: when all
/// blocks of the data are there, the bytes that are hashed and written are the
/// data.
pub proof fn law_blocks_reassemble_piece(data: Seq<u8>, blocks: Map<u32, Vec<u8>>)
    requires
        data.len() <= u32::MAX,
        forall|offset: u32| #[trigger]
            blocks.dom().contains(offset) <==> offset < data.len() && offset % BLOCK_LEN == 0,
        forall|offset: u32| #[trigger]
            blocks.dom().contains(offset) ==> blocks[offset]@ == data.subrange(
                offset as int,
                offset + block_len_at(data.len() as int, offset as int / BLOCK_LEN as int),
            ),
    ensures
        bytes_of(blocks) == data,
{
    lemma_reassemble(data, blocks, 0x1_0000_0000);
    assert(data.take(data.len() as int) =~= data);
}

/// The number of bytes in the blocks whose offset is below the limit.
spec fn reached(len: int, limit: int) -> int {
    let full = ((limit + BLOCK_LEN - 1) / BLOCK_LEN as int) * BLOCK_LEN;
    if full < len {
        full
    } else {
        len
    }
}

proof fn lemma_reassemble(data: Seq<u8>, blocks: Map<u32, Vec<u8>>, limit: nat)
    requires
        data.len() <= u32::MAX,
        limit <= 0x1_0000_0000,
        forall|offset: u32| #[trigger]
            blocks.dom().contains(offset) <==> offset < data.len() && offset % BLOCK_LEN == 0,
        forall|offset: u32| #[trigger]
            blocks.dom().contains(offset) ==> blocks[offset]@ == data.subrange(
                offset as int,
                offset + block_len_at(data.len() as int, offset as int / BLOCK_LEN as int),
            ),
    ensures
        bytes_below(blocks, limit) == data.take(reached(data.len() as int, limit as int)),
    decreases limit,
{
    if limit == 0 {
        assert(bytes_below(blocks, limit) =~= data.take(0));
    } else {
        let before = (limit - 1) as nat;
        lemma_reassemble(data, blocks, before);
        let offset = before as u32;
        let len = data.len() as int;
        if blocks.dom().contains(offset) {
            let n = block_len_at(len, offset as int / BLOCK_LEN as int);
            assert(reached(len, before as int) == offset);
            assert(reached(len, limit as int) == offset + n);
            assert(bytes_below(blocks, limit) =~= data.take(offset + n));
        } else {
            assert(reached(len, before as int) == reached(len, limit as int));
            assert(bytes_below(blocks, limit) =~= bytes_below(blocks, before));
        }
    }
}

/// The offsets in a list of blocks with their offsets.
pub open spec fn listed_offsets(list: Seq<(&u32, &Vec<u8>)>) -> Seq<u32> {
    list.map_values(|entry: (&u32, &Vec<u8>)| *entry.0)
}

/// Whether the offsets are those of the blocks, in ascending order.
pub open spec fn is_listing(blocks: Map<u32, Vec<u8>>, offsets: Seq<u32>) -> bool {
    &&& forall|i: int| 0 <= i < offsets.len() ==> blocks.dom().contains(#[trigger] offsets[i])
    &&& forall|k: u32| #[trigger] blocks.dom().contains(k) ==> offsets.contains(k)
    &&& forall|i: int, j: int| 0 <= i < j < offsets.len() ==> offsets[i] < offsets[j]
}

/// The limit below which the first `n` offsets lie, and no others.
pub open spec fn limit_of(offsets: Seq<u32>, n: int) -> nat {
    if n <= 0 {
        0
    } else {
        (offsets[n - 1] + 1) as nat
    }
}

proof fn lemma_next_block(blocks: Map<u32, Vec<u8>>, offsets: Seq<u32>, n: int)
    requires
        is_listing(blocks, offsets),
        0 <= n < offsets.len(),
    ensures
        bytes_below(blocks, limit_of(offsets, n + 1)) == bytes_below(blocks, limit_of(offsets, n))
            + blocks[offsets[n]]@,
        n + 1 == offsets.len() ==> bytes_of(blocks) == bytes_below(
            blocks,
            limit_of(offsets, n + 1),
        ),
{
    let low = limit_of(offsets, n);
    let high = offsets[n] as nat;
    assert forall|k: u32| low <= k < high implies !#[trigger] blocks.dom().contains(k) by {
        if blocks.dom().contains(k) {
            let i = choose|i: int| 0 <= i < offsets.len() && offsets[i] == k;
            if i < n {
                if i < n - 1 {
                    assert(offsets[i] < offsets[n - 1]);
                }
            } else if i > n {
                assert(offsets[n] < offsets[i]);
            }
        }
    }
    if n > 0 {
        assert(offsets[n - 1] < offsets[n]);
    }
    lemma_bytes_between(blocks, low, high);
    if n + 1 == offsets.len() {
        assert forall|k: u32| high + 1 <= k < 0x1_0000_0000 implies !#[trigger] blocks.dom().contains(
            k,
        ) by {
            if blocks.dom().contains(k) {
                let i = choose|i: int| 0 <= i < offsets.len() && offsets[i] == k;
                if i < n {
                    assert(offsets[i] < offsets[n]);
                }
            }
        }
        lemma_bytes_between(blocks, high + 1, 0x1_0000_0000);
    }
}

/// What an increasing sequence of offsets is.
proof fn lemma_ascending(offsets: Seq<u32>)
    requires
        vstd::std_specs::btree::increasing_seq(offsets),
    ensures
        forall|i: int, j: int| 0 <= i < j < offsets.len() ==> offsets[i] < offsets[j],
{
    assert forall|i: int, j: int| 0 <= i < j < offsets.len() implies offsets[i] < offsets[j] by {
        assert(offsets[i].cmp_spec(&offsets[j]) is Less);
    }
}

/// Past the last offset there are no more blocks.
proof fn lemma_all_blocks(blocks: Map<u32, Vec<u8>>, offsets: Seq<u32>)
    requires
        is_listing(blocks, offsets),
    ensures
        bytes_of(blocks) == bytes_below(blocks, limit_of(offsets, offsets.len() as int)),
{
    if offsets.len() > 0 {
        lemma_next_block(blocks, offsets, offsets.len() - 1);
    } else {
        assert forall|k: u32| !#[trigger] blocks.dom().contains(k) by {
            if blocks.dom().contains(k) {
                assert(offsets.contains(k));
            }
        }
        lemma_bytes_between(blocks, 0, 0x1_0000_0000);
    }
}

/// Slices that cover a range are parts of files that follow each other: the first one
/// begins at the start of the range, each other one where the one before it ends, and
/// the last one ends at the end of the range.
pub proof fn law_slices_cover_their_range(
    files: Seq<FileInfo>,
    first: int,
    start: int,
    end: int,
    slices: Seq<FileSlice>,
    k: int,
)
    requires
        covers(files, first, start, end, slices),
        0 <= k < slices.len(),
    ensures
        0 <= first,
        first + k < files.len(),
        slices[k].len > 0,
        slices[k].offset + slices[k].len <= files[first + k].len,
        k == 0 ==> files[first].torrent_offset + slices[0].offset == start,
        k + 1 < slices.len() ==> files[first + k + 1].torrent_offset + slices[k + 1].offset
            == files[first + k].torrent_offset + slices[k].offset + slices[k].len,
        k + 1 == slices.len() ==> files[first + k].torrent_offset + slices[k].offset
            + slices[k].len == end,
{
    assert(begins_at(files[first + k], slices[k], start + slices_len(slices.take(k))));
    assert(slices.take(0) =~= Seq::empty());
    assert(slices.take(k + 1).drop_last() =~= slices.take(k));
    assert(slices.take(k + 1).last() == slices[k]);
    if k + 1 < slices.len() {
        assert(begins_at(
            files[first + k + 1],
            slices[k + 1],
            start + slices_len(slices.take(k + 1)),
        ));
    } else {
        assert(slices.take(k + 1) =~= slices);
    }
}

/// The part of a file that overlaps with a range is made of the bytes that are in both.
pub proof fn law_overlap_is_what_both_have(file: FileInfo, start: int, end: int, offset: int)
    requires
        file.torrent_offset + file.len <= u64::MAX,
        start < file.torrent_offset + file.len,
        file.torrent_offset < end,
        0 <= start < end,
        file.len > 0,
    ensures
        ({
            let slice = overlap(file, start, end);
            0 <= offset - file.torrent_offset - slice.offset < slice.len <==> {
                &&& start <= offset < end
                &&& file.torrent_offset <= offset < file.torrent_offset + file.len
            }
        }),
{
}

/// A piece is complete when it has as many blocks as its length needs.
pub proof fn law_complete_piece_has_all_blocks(piece: Piece)
    ensures
        piece.complete() <==> 0x4000 * (piece.blocks@.dom().len() - 1) < piece.len <= 0x4000
            * piece.blocks@.dom().len() || (piece.len == 0 && piece.blocks@.dom().len() == 0),
{
}

} // verus!
