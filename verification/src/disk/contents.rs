//! What the files of a torrent contain.

use vstd::prelude::*;

use crate::disk::piece::{begins_at, covers, lemma_slices_len, slices_len};
use crate::storage_info::{files_wf, lemma_offsets_grow, FileInfo, FileSlice};

verus! {

/// Whether these are the contents of the files.
pub open spec fn are_contents(contents: Seq<Seq<u8>>, files: Seq<FileInfo>) -> bool {
    &&& contents.len() == files.len()
    &&& forall|i: int| 0 <= i < files.len() ==> (#[trigger] contents[i]).len() == files[i].len
}

/// The content of a file after the data was written at the offset.
pub open spec fn overwritten(content: Seq<u8>, offset: int, data: Seq<u8>) -> Seq<u8> {
    content.take(offset) + data + content.skip(offset + data.len())
}

/// The contents of the files after data was written to the first `n` slices, which
/// are of the files from the first on: each slice got the bytes that follow those
/// of the slices before it.
pub open spec fn after_writes(
    contents: Seq<Seq<u8>>,
    first: int,
    slices: Seq<FileSlice>,
    data: Seq<u8>,
    n: int,
) -> Seq<Seq<u8>>
    decreases n,
{
    if n <= 0 {
        contents
    } else {
        let before = after_writes(contents, first, slices, data, n - 1);
        let done = slices_len(slices.take(n - 1));
        let slice = slices[n - 1];
        let file = first + n - 1;
        before.update(
            file,
            overwritten(
                before[file],
                slice.offset as int,
                data.subrange(done, done + slice.len),
            ),
        )
    }
}

/// The bytes in the first `n` slices, which are of the files from the first on.
pub open spec fn bytes_read(
    contents: Seq<Seq<u8>>,
    first: int,
    slices: Seq<FileSlice>,
    n: int,
) -> Seq<u8>
    decreases n,
{
    if n <= 0 {
        Seq::empty()
    } else {
        let slice = slices[n - 1];
        bytes_read(contents, first, slices, n - 1) + contents[first + n - 1].subrange(
            slice.offset as int,
            slice.offset + slice.len,
        )
    }
}

/// What was written is read back: if data was written to the slices of a range of
/// bytes of the torrent, reading the slices of a range within it gives the part of
/// the data that was written there.
pub proof fn law_reads_give_back_writes(
    files: Seq<FileInfo>,
    contents: Seq<Seq<u8>>,
    data: Seq<u8>,
    write: (int, Seq<FileSlice>),
    write_range: (int, int),
    read: (int, Seq<FileSlice>),
    read_range: (int, int),
)
    requires
        files_wf(files),
        are_contents(contents, files),
        covers(files, write.0, write_range.0, write_range.1, write.1),
        covers(files, read.0, read_range.0, read_range.1, read.1),
        data.len() == write_range.1 - write_range.0,
        write_range.0 <= read_range.0 <= read_range.1 <= write_range.1,
    ensures
        bytes_read(
            after_writes(contents, write.0, write.1, data, write.1.len() as int),
            read.0,
            read.1,
            read.1.len() as int,
        ) == data.subrange(read_range.0 - write_range.0, read_range.1 - write_range.0),
{
    lemma_ordered(files);
    let write_starts = lemma_starts(files, write.0, write.1, write_range);
    let read_starts = lemma_starts(files, read.0, read.1, read_range);
    lemma_read_of_written(
        files,
        contents,
        data,
        write,
        write_starts,
        write_range,
        read,
        read_starts,
        read_range,
    );
}

/// A write leaves everything else as it was: reading the slices of a range of bytes
/// that does not overlap with the range that was written gives what was there
/// before.
pub proof fn law_writes_keep_the_rest(
    files: Seq<FileInfo>,
    contents: Seq<Seq<u8>>,
    data: Seq<u8>,
    write: (int, Seq<FileSlice>),
    write_range: (int, int),
    read: (int, Seq<FileSlice>),
    read_range: (int, int),
)
    requires
        files_wf(files),
        are_contents(contents, files),
        covers(files, write.0, write_range.0, write_range.1, write.1),
        covers(files, read.0, read_range.0, read_range.1, read.1),
        data.len() == write_range.1 - write_range.0,
        read_range.1 <= write_range.0 || write_range.1 <= read_range.0,
    ensures
        bytes_read(
            after_writes(contents, write.0, write.1, data, write.1.len() as int),
            read.0,
            read.1,
            read.1.len() as int,
        ) == bytes_read(contents, read.0, read.1, read.1.len() as int),
{
    let n = write.1.len() as int;
    let m = read.1.len() as int;
    let after = after_writes(contents, write.0, write.1, data, n);
    lemma_ordered(files);
    let write_starts = lemma_starts(files, write.0, write.1, write_range);
    lemma_after_writes(files, contents, data, write.0, write.1, write_starts, write_range, n);
    lemma_same_bytes_read(files, contents, after, read.0, read.1, read_range, m);
}

/// Whether each file ends before the next one begins.
spec fn ordered(files: Seq<FileInfo>) -> bool {
    forall|i: int, j: int|
        0 <= i < j < files.len() ==> (#[trigger] files[i]).end() <= (
        #[trigger] files[j]).torrent_offset
}

proof fn lemma_ordered(files: Seq<FileInfo>)
    requires
        files_wf(files),
    ensures
        ordered(files),
{
    assert forall|i: int, j: int| 0 <= i < j < files.len() implies (#[trigger] files[i]).end() <= (
    #[trigger] files[j]).torrent_offset by {
        lemma_offsets_grow(files, i, j);
    }
}

/// After the writes, the bytes in the range that was written so far are the data,
/// and all others are what they were.
proof fn lemma_after_writes(
    files: Seq<FileInfo>,
    contents: Seq<Seq<u8>>,
    data: Seq<u8>,
    first: int,
    slices: Seq<FileSlice>,
    starts: Seq<int>,
    range: (int, int),
    n: int,
)
    requires
        ordered(files),
        are_contents(contents, files),
        placed(files, first, slices, starts, range),
        starts_of(slices, starts),
        data.len() == range.1 - range.0,
        0 <= n <= slices.len(),
    ensures
        are_contents(after_writes(contents, first, slices, data, n), files),
        forall|i: int, j: int|
            0 <= i < files.len() && 0 <= j < files[i].len ==> #[trigger] after_writes(
                contents,
                first,
                slices,
                data,
                n,
            )[i][j] == if range.0 <= files[i].torrent_offset + j < range.0 + starts[n] {
                data[files[i].torrent_offset + j - range.0]
            } else {
                contents[i][j]
            },
    decreases n,
{
    let after = after_writes(contents, first, slices, data, n);
    if n > 0 {
        lemma_after_writes(files, contents, data, first, slices, starts, range, n - 1);
        lemma_start_of(slices, starts, n - 1);
        let before = after_writes(contents, first, slices, data, n - 1);
        let slice = slices[n - 1];
        let f = first + n - 1;
        let done = starts[n - 1];
        let part = data.subrange(done, done + slice.len);
        assert(begins_at(files[f], slice, range.0 + done));
        assert(after == before.update(f, overwritten(before[f], slice.offset as int, part)));
        assert(before[f].len() == files[f].len);
        assert(after[f].len() == files[f].len);
        assert forall|i: int, j: int|
            0 <= i < files.len() && 0 <= j < files[i].len implies #[trigger] after[i][j] == if range.0
            <= files[i].torrent_offset + j < range.0 + starts[n] {
            data[files[i].torrent_offset + j - range.0]
        } else {
            contents[i][j]
        } by {
            let x = files[i].torrent_offset + j;
            let p = range.0 + done;
            assert(before[i][j] == if range.0 <= x < p {
                data[x - range.0]
            } else {
                contents[i][j]
            });
            if i == f {
                if slice.offset <= j < slice.offset + slice.len {
                    assert(after[f][j] == part[j - slice.offset]);
                } else {
                    assert(after[f][j] == before[f][j]);
                }
            } else {
                assert(after[i] == before[i]);
                if i < f {
                    assert(x < files[i].end() <= files[f].torrent_offset <= p);
                } else {
                    assert(x >= files[i].torrent_offset >= files[f].end() >= p + slice.len);
                }
            }
        }
    }
}

proof fn lemma_all_slices(slices: Seq<FileSlice>)
    ensures
        slices_len(slices.take(slices.len() as int)) == slices_len(slices),
{
    assert(slices.take(slices.len() as int) =~= slices);
}

/// Whether each slice is a part of its file and begins at the given position in the
/// range, where the one before it ends.
spec fn placed(
    files: Seq<FileInfo>,
    first: int,
    slices: Seq<FileSlice>,
    starts: Seq<int>,
    range: (int, int),
) -> bool {
    &&& 0 <= first
    &&& first + slices.len() <= files.len()
    &&& starts.len() == slices.len() + 1
    &&& starts[0] == 0
    &&& starts[slices.len() as int] == range.1 - range.0
    &&& forall|k: int|
        0 <= k < slices.len() ==> {
            &&& begins_at(files[first + k], #[trigger] slices[k], range.0 + starts[k])
            &&& 0 <= starts[k]
            &&& starts[k + 1] == starts[k] + slices[k].len <= range.1 - range.0
        }
}

/// Whether each slice begins where the ones before it end.
#[verifier::opaque]
spec fn starts_of(slices: Seq<FileSlice>, starts: Seq<int>) -> bool {
    forall|k: int| 0 <= k <= slices.len() ==> #[trigger] starts[k] == slices_len(slices.take(k))
}

proof fn lemma_start_of(slices: Seq<FileSlice>, starts: Seq<int>, k: int)
    requires
        starts_of(slices, starts),
        0 <= k <= slices.len(),
    ensures
        starts[k] == slices_len(slices.take(k)),
{
    reveal(starts_of);
}

/// The slices that cover a range are placed in it one after the other.
proof fn lemma_starts(
    files: Seq<FileInfo>,
    first: int,
    slices: Seq<FileSlice>,
    range: (int, int),
) -> (starts: Seq<int>)
    requires
        covers(files, first, range.0, range.1, slices),
    ensures
        placed(files, first, slices, starts, range),
        starts_of(slices, starts),
{
    reveal(starts_of);
    let starts = Seq::new(slices.len() + 1, |k: int| slices_len(slices.take(k)));
    assert(slices.take(0) =~= Seq::empty());
    lemma_all_slices(slices);
    assert forall|k: int| 0 <= k < slices.len() implies {
        &&& begins_at(files[first + k], #[trigger] slices[k], range.0 + starts[k])
        &&& 0 <= starts[k]
        &&& starts[k + 1] == starts[k] + slices[k].len <= range.1 - range.0
    } by {
        lemma_slices_len(slices, k);
        lemma_slices_len(slices, k + 1);
        assert(slices.take(k + 1).drop_last() =~= slices.take(k));
    }
    starts
}

/// What is read from files that contain the expected bytes in the range are those
/// bytes.
proof fn lemma_bytes_read(
    files: Seq<FileInfo>,
    contents: Seq<Seq<u8>>,
    expected: Seq<u8>,
    first: int,
    slices: Seq<FileSlice>,
    starts: Seq<int>,
    range: (int, int),
    n: int,
)
    requires
        are_contents(contents, files),
        placed(files, first, slices, starts, range),
        expected.len() == range.1 - range.0,
        0 <= n <= slices.len(),
        forall|i: int, j: int|
            0 <= i < files.len() && 0 <= j < files[i].len && range.0 <= files[i].torrent_offset + j
                < range.1 ==> #[trigger] contents[i][j] == expected[files[i].torrent_offset + j
                - range.0],
    ensures
        0 <= starts[n] <= expected.len(),
        bytes_read(contents, first, slices, n) == expected.take(starts[n]),
    decreases n,
{
    if n == 0 {
        assert(bytes_read(contents, first, slices, n) =~= expected.take(0));
    } else {
        lemma_bytes_read(files, contents, expected, first, slices, starts, range, n - 1);
        let slice = slices[n - 1];
        let f = first + n - 1;
        let done = starts[n - 1];
        assert(starts[n] == done + slice.len);
        assert(begins_at(files[f], slice, range.0 + done));
        assert(contents[f].len() == files[f].len);
        let part = contents[f].subrange(slice.offset as int, slice.offset + slice.len);
        assert forall|j: int| 0 <= j < slice.len implies part[j] == expected[done + j] by {
            assert(part[j] == contents[f][slice.offset + j]);
        }
        assert(part =~= expected.subrange(done, done + slice.len));
        assert(expected.take(done) + part =~= expected.take(done + slice.len));
    }
}

proof fn lemma_read_of_written(
    files: Seq<FileInfo>,
    contents: Seq<Seq<u8>>,
    data: Seq<u8>,
    write: (int, Seq<FileSlice>),
    write_starts: Seq<int>,
    write_range: (int, int),
    read: (int, Seq<FileSlice>),
    read_starts: Seq<int>,
    read_range: (int, int),
)
    requires
        ordered(files),
        are_contents(contents, files),
        placed(files, write.0, write.1, write_starts, write_range),
        starts_of(write.1, write_starts),
        placed(files, read.0, read.1, read_starts, read_range),
        data.len() == write_range.1 - write_range.0,
        write_range.0 <= read_range.0 <= read_range.1 <= write_range.1,
    ensures
        bytes_read(
            after_writes(contents, write.0, write.1, data, write.1.len() as int),
            read.0,
            read.1,
            read.1.len() as int,
        ) == data.subrange(read_range.0 - write_range.0, read_range.1 - write_range.0),
{
    let n = write.1.len() as int;
    let m = read.1.len() as int;
    let after = after_writes(contents, write.0, write.1, data, n);
    let expected = data.subrange(read_range.0 - write_range.0, read_range.1 - write_range.0);
    lemma_after_writes(files, contents, data, write.0, write.1, write_starts, write_range, n);
    assert forall|i: int, j: int|
        0 <= i < files.len() && 0 <= j < files[i].len && read_range.0 <= files[i].torrent_offset + j
            < read_range.1 implies #[trigger] after[i][j] == expected[files[i].torrent_offset + j
        - read_range.0] by {
        let x = files[i].torrent_offset + j;
        assert(after[i][j] == data[x - write_range.0]);
        assert(expected[x - read_range.0] == data[x - write_range.0]);
    }
    lemma_bytes_read(files, after, expected, read.0, read.1, read_starts, read_range, m);
    assert(expected.take(read_starts[m]) =~= expected);
}

/// What is read from files whose contents agree in the range is the same.
proof fn lemma_same_bytes_read(
    files: Seq<FileInfo>,
    a: Seq<Seq<u8>>,
    b: Seq<Seq<u8>>,
    first: int,
    slices: Seq<FileSlice>,
    range: (int, int),
    n: int,
)
    requires
        are_contents(a, files),
        are_contents(b, files),
        covers(files, first, range.0, range.1, slices),
        0 <= n <= slices.len(),
        forall|i: int, j: int|
            0 <= i < files.len() && 0 <= j < files[i].len && range.0 <= files[i].torrent_offset + j
                < range.1 ==> #[trigger] b[i][j] == a[i][j],
    ensures
        bytes_read(b, first, slices, n) == bytes_read(a, first, slices, n),
    decreases n,
{
    if n > 0 {
        lemma_same_bytes_read(files, a, b, first, slices, range, n - 1);
        let slice = slices[n - 1];
        let f = first + n - 1;
        let done = slices_len(slices.take(n - 1));
        assert(slices.take(n).drop_last() =~= slices.take(n - 1));
        lemma_slices_len(slices, n - 1);
        lemma_slices_len(slices, n);
        assert(begins_at(files[f], slice, range.0 + done));
        assert(b[f].subrange(slice.offset as int, slice.offset + slice.len) =~= a[f].subrange(
            slice.offset as int,
            slice.offset + slice.len,
        ));
    }
}

} // verus!
