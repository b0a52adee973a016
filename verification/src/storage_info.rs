//! The layout of a torrent's files and pieces.

use std::ops::Range;

use vstd::prelude::*;

use crate::block::{FileIndex, PieceIndex};
use crate::error::{Error, Result};
use crate::metainfo::Metainfo;
use crate::text::{join_path, joined};
use crate::iovecs::{
    bounded_head, bounded_tail, buffers_of, split_bufs, IoVec, IoVecs, Split,
};

pub use crate::iovecs::split_at_mut_inclusive;

verus! {

/// Information about a torrent's file.
#[derive(Debug)]
pub struct FileInfo {
    /// The file's relative path from the download directory.
    pub path: String,
    /// The file's length, in bytes.
    pub len: u64,
    /// The byte offset of the file within the torrent, when all files in
    /// torrent are viewed as a single contiguous byte array. This is always
    /// 0 for a single file torrent.
    pub torrent_offset: u64,
}

impl Clone for FileInfo {
    fn clone(&self) -> (file: Self)
        ensures
            file == *self,
    {
        FileInfo { path: self.path.clone(), len: self.len, torrent_offset: self.torrent_offset }
    }
}

impl FileInfo {
    /// One past the last byte's offset in the torrent.
    pub open spec fn end(&self) -> int {
        self.torrent_offset + self.len
    }

    /// Whether the offsets of the file's bytes are representable.
    pub open spec fn wf(&self) -> bool {
        self.end() <= u64::MAX
    }

    /// Whether the byte at the offset in torrent is in the file.
    pub open spec fn has_byte(&self, offset: int) -> bool {
        self.torrent_offset <= offset < self.end()
    }

    /// Returns a range that represents the file's first and one past the last
    /// bytes' offsets in the torrent.
    pub fn byte_range(&self) -> (range: Range<u64>)
        requires
            self.wf(),
        ensures
            range.start == self.torrent_offset,
            range.end == self.end(),
    {
        self.torrent_offset..self.torrent_end_offset()
    }

    /// Returns the file's one past the last byte's offset in the torrent.
    pub fn torrent_end_offset(&self) -> (offset: u64)
        requires
            self.wf(),
        ensures
            offset == self.end(),
    {
        self.torrent_offset + self.len
    }

    /// Returns the slice in file that overlaps with the range starting at the
    /// given offset.
    ///
    /// # Arguments
    ///
    /// * `torrent_offset` - A byte offset in the entire torrent. The byte must be
    ///         in the file.
    /// * `len` - The length of the byte range, starting from the offset. This
    ///         may be exceed the file length, in which case the returned file
    ///         length will be smaller.
    pub fn get_slice(&self, torrent_offset: u64, len: u64) -> (slice: FileSlice)
        requires
            self.wf(),
            self.has_byte(torrent_offset as int),
        ensures
            slice.offset == torrent_offset - self.torrent_offset,
            slice.len == if len < self.end() - torrent_offset {
                len as int
            } else {
                self.end() - torrent_offset
            },
            slice.offset + slice.len <= self.len,
    {
        let rest: u64 = self.torrent_end_offset() - torrent_offset;
        FileSlice {
            offset: torrent_offset - self.torrent_offset,
            len: if len < rest {
                len
            } else {
                rest
            },
        }
    }
}

/// Represents the location of a range of bytes within a file.
#[derive(Clone, Copy, Debug, PartialEq, Eq, Structural)]
pub struct FileSlice {
    /// The byte offset in file, relative to the file's start.
    pub offset: u64,
    /// The length of the slice, in bytes.
    pub len: u64,
}

impl FileSlice {
    /// Splits the slice of iovecs into two, at the file boundary.
    ///
    /// If the total size of the buffers exceeds the file slice's length, the
    /// buffers are split such that the first half returned is the portion of
    /// the buffers that can be written to the file, while the second half is
    /// the remainder of the buffer, to be reused later. If the size of the
    /// total size of the buffers is smaller than or equal to the slice, this is
    /// essentially a noop.
    pub fn split_bufs_at_boundary<'b, 'a>(&self, bufs: &'b mut [IoVec<'a>]) -> (split: IoVecSplit<
        'b,
        'a,
    >)
        ensures
            split.wf(),
            split.head() == bounded_head(buffers_of(old(bufs)@), self.len as int),
            split.tail() == bounded_tail(buffers_of(old(bufs)@), self.len as int),
            split.second_half is None <==> split.tail().len() == 0,
    {
        let iovecs = split_bufs(bufs, self.len);
        IoVecSplit { bufs: iovecs.bufs, second_half: iovecs.split }
    }
}

/// Represents a split of an `&mut [IoVec]` into two, where the split may
/// not be on the boundary of two buffers.
///
/// Unlike [`IoVecs`], it is not advanced while its first half is used.
pub struct IoVecSplit<'b, 'a> {
    /// The entire view of the buffer.
    pub bufs: &'b mut [IoVec<'a>],
    /// If not set, the buffer doesn't need to be split.
    pub second_half: Option<Split<'a>>,
}

impl<'b, 'a> IoVecSplit<'b, 'a> {
    /// The position past the first half of the split.
    pub open spec fn end(&self) -> int {
        match self.second_half {
            Some(split) => split.pos + 1,
            None => self.bufs@.len() as int,
        }
    }

    /// Whether the position lies within the buffers.
    pub open spec fn wf(&self) -> bool {
        self.end() <= self.bufs@.len()
    }

    /// The contents of the first half of the split.
    pub open spec fn head(&self) -> Seq<Seq<u8>> {
        buffers_of(self.bufs@.subrange(0, self.end()))
    }

    /// The contents of the second half of the split.
    pub open spec fn tail(&self) -> Seq<Seq<u8>> {
        match self.second_half {
            Some(Split { pos, split_buf_second_half: Some(second_half) }) => seq![second_half@]
                + buffers_of(self.bufs@.skip(pos + 1)),
            Some(Split { pos, split_buf_second_half: None }) => buffers_of(
                self.bufs@.skip(pos + 1),
            ),
            None => Seq::empty(),
        }
    }

    /// Returns the first half of the split.
    pub fn first_half(&mut self) -> (bufs: &mut [IoVec<'a>])
        requires
            old(self).wf(),
        ensures
            buffers_of(bufs@) == old(self).head(),
            final(self).second_half == old(self).second_half,
            final(self).bufs@ == final(bufs)@ + old(self).bufs@.skip(old(self).end()),
    {
        assert(self.end() <= self.bufs.len());
        let end: usize = match &self.second_half {
            // we need to include the buffer under the split position too
            Some(split) => split.pos + 1,
            None => self.bufs.len(),
        };
        let (bufs, rest) = self.bufs.split_at_mut(end);
        assert(rest@ =~= old(self).bufs@.skip(old(self).end()));
        bufs
    }

    /// Returns the second half of the split, reconstructing the split buffer in
    /// the middle, if necessary, consuming the split in the process.
    pub fn into_second_half(self) -> (bufs: &'b mut [IoVec<'a>])
        requires
            self.wf(),
        ensures
            buffers_of(bufs@) == self.tail(),
    {
        let iovecs: IoVecs<'b, 'a> = IoVecs { bufs: self.bufs, start: 0, split: self.second_half };
        iovecs.into_tail()
    }
}

/// Information about a torrent's storage details, such as the piece count and
/// length, download length, etc.
#[derive(Debug)]
pub struct StorageInfo {
    /// The number of pieces in the torrent.
    pub piece_count: usize,
    /// The nominal length of a piece.
    pub piece_len: u32,
    /// The length of the last piece in torrent, which may differ from the
    /// normal piece length if the download size is not an exact multiple of the
    /// piece length.
    pub last_piece_len: u32,
    /// The sum of the length of all files in the torrent.
    pub download_len: u64,
    /// The download destination of the torrent.
    ///
    /// In case of a single torrent file, this is the path of the file. In case
    /// of a multi-file torrent, this is the path of the directory containing
    /// those files.
    pub download_path: String,
    /// The paths and lengths of the torrent files.
    pub structure: FsStructure,
}

impl Clone for StorageInfo {
    fn clone(&self) -> (info: Self)
        ensures
            info.piece_count == self.piece_count,
            info.piece_len == self.piece_len,
            info.last_piece_len == self.last_piece_len,
            info.download_len == self.download_len,
            info.download_path == self.download_path,
            info.structure.files() == self.structure.files(),
            info.structure is File == self.structure is File,
    {
        StorageInfo {
            piece_count: self.piece_count,
            piece_len: self.piece_len,
            last_piece_len: self.last_piece_len,
            download_len: self.download_len,
            download_path: self.download_path.clone(),
            structure: self.structure.clone(),
        }
    }
}

impl StorageInfo {
    /// Whether the torrent has pieces and the offsets of its bytes are
    /// representable.
    pub open spec fn wf(&self) -> bool {
        &&& self.piece_count > 0
        &&& self.piece_len * (self.piece_count - 1) + self.last_piece_len <= u64::MAX
        &&& self.structure.wf()
    }

    /// Whether the pieces of the torrent make up its files, and none of the pieces is
    /// empty.
    pub open spec fn pieces_cover_files(&self) -> bool {
        &&& self.wf()
        &&& files_wf(self.structure.files())
        &&& self.piece_len > 0
        &&& self.last_piece_len > 0
        &&& self.piece_len * (self.piece_count - 1) + self.last_piece_len == total_len(
            self.structure.files(),
        )
    }

    /// The length of the piece at the index.
    pub open spec fn len_of_piece(&self, index: int) -> int {
        if index == self.piece_count - 1 {
            self.last_piece_len as int
        } else {
            self.piece_len as int
        }
    }

    /// The offset of the piece at the index in the torrent.
    pub open spec fn piece_offset(&self, index: int) -> int {
        index * self.piece_len
    }

    /// Extracts storage related information from the torrent metainfo.
    pub fn new(metainfo: &Metainfo, download_dir: &str) -> (info: Self)
        requires
            metainfo.structure.wf(),
            metainfo.has_last_piece(),
        ensures
            info.wf(),
            info.piece_count == metainfo.pieces@.len() / 20,
            info.piece_len == metainfo.piece_len,
            info.last_piece_len == (metainfo.download_len() - metainfo.piece_len * (
            info.piece_count - 1)) as u32,
            info.download_len == metainfo.download_len(),
            info.download_path@ == joined(download_dir@, metainfo.name@),
            info.structure.files() == metainfo.structure.files(),
            info.structure is File == metainfo.structure is File,
    {
        let piece_count: usize = metainfo.piece_count();
        let download_len: u64 = metainfo.structure.download_len();
        let piece_len: u32 = metainfo.piece_len;
        let full: u64 = (piece_count - 1) as u64;
        let last_piece_len: u64 = download_len - piece_len as u64 * full;
        proof {
            lemma_u32_not_greater(last_piece_len);
        }
        // the download path for now is the download directory path joined with
        // the torrent's name as defined in the metainfo
        let download_path: String = join_path(download_dir, metainfo.name.as_str());
        StorageInfo {
            piece_count,
            piece_len,
            last_piece_len: last_piece_len as u32,
            download_len,
            download_path,
            structure: metainfo.structure.clone(),
        }
    }

    /// Tells whether the pieces of the torrent make up its files, and none of the
    /// pieces is empty.
    pub fn check_layout(&self) -> (r: bool)
        ensures
            r == self.pieces_cover_files(),
    {
        if self.piece_count == 0 || self.piece_len == 0 || self.last_piece_len == 0 {
            return false;
        }
        let files: Vec<FileInfo> = self.structure.to_files();
        let mut len: u64 = 0;
        let mut i: usize = 0;
        while i < files.len()
            invariant
                i <= files@.len(),
                files@ == self.structure.files(),
                len == total_len(files@.take(i as int)),
                forall|k: int|
                    0 <= k < i ==> {
                        &&& (#[trigger] files@[k]).wf()
                        &&& files@[k].len > 0
                        &&& files@[k].torrent_offset == total_len(files@.take(k))
                    },
            decreases files@.len() - i,
        {
            proof {
                assert(files@.take(i + 1).drop_last() =~= files@.take(i as int));
                lemma_total_len_grows(files@, i + 1);
            }
            if files[i].len == 0 || files[i].torrent_offset != len || files[i].len > u64::MAX - len {
                return false;
            }
            len = len + files[i].len;
            i = i + 1;
        }
        proof {
            assert(files@.take(i as int) =~= files@);
            assert(self.piece_len * (self.piece_count - 1) <= u32::MAX * u64::MAX) by (nonlinear_arith)
                requires
                    self.piece_len <= u32::MAX,
                    0 < self.piece_count <= u64::MAX,
            ;
        }
        let full: u128 = self.piece_len as u128 * (self.piece_count - 1) as u128;
        full + self.last_piece_len as u128 == len as u128
    }

    /// Returns the zero-based indices of the files of torrent that intersect
    /// with the piece.
    pub fn files_intersecting_piece(&self, index: PieceIndex) -> (files: Result<Range<FileIndex>>)
        requires
            self.wf(),
        ensures
            index < self.piece_count ==> match files {
                Ok(range) => match self.structure {
                    FsStructure::File(_) => range == (0usize..1usize),
                    FsStructure::Archive { files } => is_intersection(
                        files@,
                        self.piece_offset(index as int),
                        self.piece_offset(index as int) + self.len_of_piece(index as int),
                        range,
                    ),
                },
                Err(_) => false,
            },
            index >= self.piece_count ==> files == Err::<Range<FileIndex>, Error>(
                Error::InvalidPieceIndex,
            ),
    {
        let piece_len: u32 = match self.piece_len(index) {
            Ok(piece_len) => piece_len,
            Err(e) => return Err(e),
        };
        proof {
            assert(index < self.piece_count - 1 ==> self.piece_offset(index as int)
                + self.piece_len <= self.piece_len * (self.piece_count - 1)) by (nonlinear_arith)
                requires
                    self.piece_offset(index as int) == index * self.piece_len,
            ;
            assert(index == self.piece_count - 1 ==> self.piece_offset(index as int)
                == self.piece_len * (self.piece_count - 1)) by (nonlinear_arith)
                requires
                    self.piece_offset(index as int) == index * self.piece_len,
            ;
        }
        let piece_offset: u64 = index as u64 * self.piece_len as u64;
        let piece_end: u64 = piece_offset + piece_len as u64;
        Ok(self.structure.files_intersecting_bytes(piece_offset..piece_end))
    }

    /// Returns the length of the piece at the given index.
    pub fn piece_len(&self, index: PieceIndex) -> (len: Result<u32>)
        requires
            self.piece_count > 0,
        ensures
            index < self.piece_count ==> (len matches Ok(len) && len == self.len_of_piece(
                index as int,
            )),
            index >= self.piece_count ==> len == Err::<u32, Error>(Error::InvalidPieceIndex),
    {
        if index == self.piece_count - 1 {
            Ok(self.last_piece_len)
        } else if index < self.piece_count - 1 {
            Ok(self.piece_len)
        } else {
            Err(Error::InvalidPieceIndex)
        }
    }
}

proof fn lemma_u32_not_greater(n: u64)
    ensures
        n as u32 <= n,
        n <= u32::MAX ==> n as u32 == n,
{
    assert(n as u32 <= n) by (bit_vector);
}

/// The pieces partition the torrent: each begins where the one before it ends, and
/// the last one ends at the end of the torrent.
pub proof fn law_pieces_partition_torrent(info: StorageInfo, metainfo: Metainfo, index: int)
    requires
        info.piece_count > 0,
        info.piece_count == metainfo.pieces@.len() / 20,
        info.piece_len == metainfo.piece_len,
        metainfo.has_last_piece(),
        metainfo.download_len() - metainfo.piece_len * (info.piece_count - 1) <= u32::MAX,
        info.last_piece_len == (metainfo.download_len() - metainfo.piece_len * (info.piece_count
            - 1)) as u32,
        0 <= index < info.piece_count,
    ensures
        info.piece_offset(0) == 0,
        index + 1 < info.piece_count ==> info.piece_offset(index) + info.len_of_piece(index)
            == info.piece_offset(index + 1),
        index + 1 == info.piece_count ==> info.piece_offset(index) + info.len_of_piece(index)
            == metainfo.download_len(),
{
    assert(info.piece_offset(index) + info.piece_len == info.piece_offset(index + 1))
        by (nonlinear_arith)
        requires
            info.piece_offset(index) == index * info.piece_len,
            info.piece_offset(index + 1) == (index + 1) * info.piece_len,
    ;
    assert(info.piece_offset(info.piece_count - 1) == metainfo.piece_len * (info.piece_count - 1))
        by (nonlinear_arith)
        requires
            info.piece_offset(info.piece_count - 1) == (info.piece_count - 1) * info.piece_len,
            info.piece_len == metainfo.piece_len,
    ;
}

/// Defines the file system structure of the download.
#[derive(Debug)]
pub enum FsStructure {
    /// This is a single file download.
    File(FileInfo),
    /// The download is for multiple files, possibly with nested directories.
    Archive {
        /// The files, in the order in which their bytes make up the torrent when
        /// all files are viewed as a single contiguous byte array.
        files: Vec<FileInfo>,
    },
}

/// The sum of the lengths of the files.
pub open spec fn total_len(files: Seq<FileInfo>) -> int
    decreases files.len(),
{
    if files.len() == 0 {
        0
    } else {
        total_len(files.drop_last()) + files.last().len
    }
}

/// Whether the files lie one after the other in the torrent, beginning at its
/// start.
pub open spec fn contiguous(files: Seq<FileInfo>) -> bool {
    forall|i: int|
        0 <= i < files.len() ==> (#[trigger] files[i]).torrent_offset == total_len(files.take(i))
}

/// Whether the files lie one after the other, none of them is empty, and the
/// offsets of their bytes are representable.
pub open spec fn files_wf(files: Seq<FileInfo>) -> bool {
    &&& contiguous(files)
    &&& forall|i: int| 0 <= i < files.len() ==> (#[trigger] files[i]).wf() && files[i].len > 0
}

/// Whether the range is that of the files that overlap with the bytes: it begins
/// with the first file that contains the first byte, and is continued as long as
/// the next file's first byte is one of the bytes. It is empty if no file
/// contains the first byte.
pub open spec fn is_intersection(
    files: Seq<FileInfo>,
    start: int,
    end: int,
    range: Range<usize>,
) -> bool {
    if exists|i: int| 0 <= i < files.len() && (#[trigger] files[i]).has_byte(start) {
        &&& range.start < range.end <= files.len()
        &&& files[range.start as int].has_byte(start)
        &&& forall|i: int| 0 <= i < range.start ==> !(#[trigger] files[i]).has_byte(start)
        &&& forall|i: int|
            range.start < i < range.end ==> start <= (#[trigger] files[i]).torrent_offset < end
        &&& range.end < files.len() ==> !(start <= files[range.end as int].torrent_offset < end)
    } else {
        range.start == 0 && range.end == 0
    }
}

impl Clone for FsStructure {
    fn clone(&self) -> (structure: Self)
        ensures
            structure.files() == self.files(),
            structure is File == self is File,
    {
        match self {
            FsStructure::File(file) => FsStructure::File(file.clone()),
            FsStructure::Archive { files } => FsStructure::Archive { files: clone_files(files) },
        }
    }
}

/// Returns a copy of the files.
fn clone_files(files: &Vec<FileInfo>) -> (copies: Vec<FileInfo>)
    ensures
        copies@ == files@,
{
    let mut copies: Vec<FileInfo> = Vec::new();
    let mut i: usize = 0;
    while i < files.len()
        invariant
            i <= files@.len(),
            copies@ == files@.take(i as int),
        decreases files@.len() - i,
    {
        copies.push(files[i].clone());
        i = i + 1;
        assert(copies@ =~= files@.take(i as int));
    }
    assert(copies@ =~= files@);
    copies
}

impl FsStructure {
    /// The files of the download.
    pub open spec fn files(&self) -> Seq<FileInfo> {
        match self {
            FsStructure::File(file) => seq![*file],
            FsStructure::Archive { files } => files@,
        }
    }

    /// Whether the offsets of the bytes of all files are representable.
    pub open spec fn wf(&self) -> bool {
        &&& forall|i: int| 0 <= i < self.files().len() ==> (#[trigger] self.files()[i]).wf()
        &&& total_len(self.files()) <= u64::MAX
    }

    /// Returns a list of the files.
    pub fn to_files(&self) -> (files: Vec<FileInfo>)
        ensures
            files@ == self.files(),
    {
        match self {
            FsStructure::File(file) => {
                let mut files: Vec<FileInfo> = Vec::new();
                files.push(file.clone());
                assert(files@ =~= self.files());
                files
            },
            FsStructure::Archive { files } => clone_files(files),
        }
    }

    /// Returns the total download size in bytes.
    ///
    /// Note that this is an O(n) operation for archive downloads, where n is
    /// the number of files, so this value should ideally be cached.
    pub fn download_len(&self) -> (len: u64)
        requires
            total_len(self.files()) <= u64::MAX,
        ensures
            len == total_len(self.files()),
    {
        match self {
            FsStructure::File(file) => {
                proof {
                    reveal_with_fuel(total_len, 2);
                    assert(self.files().drop_last() =~= Seq::<FileInfo>::empty());
                }
                file.len
            },
            FsStructure::Archive { files } => {
                let mut len: u64 = 0;
                let mut i: usize = 0;
                while i < files.len()
                    invariant
                        i <= files@.len(),
                        len == total_len(files@.take(i as int)),
                        total_len(files@) <= u64::MAX,
                    decreases files@.len() - i,
                {
                    proof {
                        assert(files@.take(i + 1).drop_last() =~= files@.take(i as int));
                        lemma_total_len_grows(files@, i + 1);
                    }
                    len = len + files[i].len;
                    i = i + 1;
                }
                assert(files@.take(i as int) =~= files@);
                len
            },
        }
    }

    /// Returns the files that overlap with the given left-inclusive range of
    /// bytes, where `bytes.start` is the offset and `bytes.end` is one past the
    /// last byte offset.
    pub fn files_intersecting_bytes(&self, byte_range: Range<u64>) -> (range: Range<FileIndex>)
        requires
            forall|i: int| 0 <= i < self.files().len() ==> (#[trigger] self.files()[i]).wf(),
        ensures
            match self {
                FsStructure::File(_) => range == (0usize..1usize),
                FsStructure::Archive { files } => is_intersection(
                    files@,
                    byte_range.start as int,
                    byte_range.end as int,
                    range,
                ),
            },
    {
        match self {
            // when torrent only has one file, only that file can be returned
            FsStructure::File(_) => 0..1,
            FsStructure::Archive { files } => {
                assert(self.files() == files@);
                // find the index of the first file that contains the first byte
                // of the given range
                let mut first: usize = 0;
                while first < files.len() && !file_contains(&files[first], byte_range.start)
                    invariant
                        first <= files@.len(),
                        forall|i: int| 0 <= i < files@.len() ==> (#[trigger] files@[i]).wf(),
                        forall|i: int|
                            0 <= i < first ==> !(#[trigger] files@[i]).has_byte(
                                byte_range.start as int,
                            ),
                    decreases files@.len() - first,
                {
                    first = first + 1;
                }
                if first == files.len() {
                    return 0..0;
                }
                assert(files@[first as int].has_byte(byte_range.start as int));
                // Find the the last file that contains the last byte of the
                // given range, starting at the file after the above found one.
                let mut end: usize = first + 1;
                while end < files.len() && byte_range.start <= files[end].torrent_offset
                    && files[end].torrent_offset < byte_range.end
                    invariant
                        first < end <= files@.len(),
                        forall|i: int|
                            first < i < end ==> byte_range.start <= (
                            #[trigger] files@[i]).torrent_offset < byte_range.end,
                    decreases files@.len() - end,
                {
                    end = end + 1;
                }
                first..end
            },
        }
    }
}

/// Tells whether the byte at the offset in torrent is in the file.
fn file_contains(file: &FileInfo, offset: u64) -> (r: bool)
    requires
        file.wf(),
    ensures
        r == file.has_byte(offset as int),
{
    file.torrent_offset <= offset && offset < file.torrent_end_offset()
}

/// A prefix of the files is not longer than all of them.
pub proof fn lemma_total_len_grows(files: Seq<FileInfo>, n: int)
    requires
        0 <= n <= files.len(),
    ensures
        0 <= total_len(files.take(n)) <= total_len(files),
    decreases files.len(),
{
    if n < files.len() {
        lemma_total_len_grows(files.drop_last(), n);
        assert(files.drop_last().take(n) =~= files.take(n));
    } else {
        assert(files.take(n) =~= files);
        if files.len() > 0 {
            lemma_total_len_grows(files.drop_last(), n - 1);
            assert(files.drop_last().take(n - 1) =~= files.drop_last());
        }
    }
}

/// A file ends before the next ones begin.
pub proof fn lemma_offsets_grow(files: Seq<FileInfo>, i: int, j: int)
    requires
        contiguous(files),
        0 <= i < j < files.len(),
    ensures
        files[i].end() <= files[j].torrent_offset,
{
    lemma_total_len_grows(files.take(j), i + 1);
    assert(files.take(j).take(i + 1) =~= files.take(i + 1));
    assert(files.take(i + 1).drop_last() =~= files.take(i));
}

/// The pieces of a valid torrent make up its files, if none of the pieces is empty
/// and the length of the last piece is representable.
pub proof fn law_valid_torrent_has_layout(metainfo: Metainfo, info: StorageInfo)
    requires
        metainfo.wf(),
        metainfo.has_last_piece(),
        metainfo.piece_len > 0,
        0 < metainfo.download_len() - metainfo.piece_len * (metainfo.pieces@.len() / 20 - 1)
            <= u32::MAX,
        info.wf(),
        info.piece_count == metainfo.pieces@.len() / 20,
        info.piece_len == metainfo.piece_len,
        info.last_piece_len == (metainfo.download_len() - metainfo.piece_len * (info.piece_count
            - 1)) as u32,
        info.structure.files() == metainfo.structure.files(),
    ensures
        info.pieces_cover_files(),
{
    assert forall|i: int| 0 <= i < info.structure.files().len() implies (
    #[trigger] info.structure.files()[i]).wf() by {
        assert(metainfo.structure.files()[i].wf());
    }
}

/// Each byte of the torrent is in one of its files.
pub proof fn lemma_byte_has_file(files: Seq<FileInfo>, offset: int)
    requires
        0 <= offset < total_len(files),
        contiguous(files),
    ensures
        exists|i: int| 0 <= i < files.len() && (#[trigger] files[i]).has_byte(offset),
    decreases files.len(),
{
    let last = files.len() - 1;
    let front = files.drop_last();
    assert(files.take(last) =~= front);
    if offset < total_len(front) {
        assert forall|i: int| 0 <= i < front.len() implies (#[trigger] front[i]).torrent_offset
            == total_len(front.take(i)) by {
            assert(front[i] == files[i]);
            assert(front.take(i) =~= files.take(i));
        }
        lemma_byte_has_file(front, offset);
        let i = choose|i: int| 0 <= i < front.len() && (#[trigger] front[i]).has_byte(offset);
        assert(files[i].has_byte(offset));
    } else {
        assert(files[last].has_byte(offset));
    }
}

/// A file begins where the one before it ends.
pub proof fn lemma_adjacent_files(files: Seq<FileInfo>, i: int)
    requires
        contiguous(files),
        0 <= i,
        i + 1 < files.len(),
    ensures
        files[i + 1].torrent_offset == files[i].end(),
{
    assert(files[i].torrent_offset == total_len(files.take(i)));
    assert(files[i + 1].torrent_offset == total_len(files.take(i + 1)));
    assert(files.take(i + 1).drop_last() =~= files.take(i));
}

/// The only file of a torrent overlaps with every range of its bytes.
pub proof fn lemma_single_file_intersects(structure: FsStructure, start: int, end: int)
    requires
        contiguous(structure.files()),
        0 <= start < end <= total_len(structure.files()),
    ensures
        structure is File ==> is_intersection(structure.files(), start, end, 0usize..1usize),
{
    let files = structure.files();
    if structure is File {
        lemma_byte_has_file(files, start);
        let i = choose|i: int| 0 <= i < files.len() && (#[trigger] files[i]).has_byte(start);
        assert(i == 0);
    }
}

/// A piece lies within the torrent.
pub proof fn lemma_piece_end(info: StorageInfo, index: int)
    requires
        info.piece_count > 0,
        0 <= index < info.piece_count,
    ensures
        0 <= info.piece_offset(index),
        info.piece_offset(index) + info.len_of_piece(index) <= info.piece_len * (info.piece_count
            - 1) + info.last_piece_len,
{
    if index < info.piece_count - 1 {
        assert(index * info.piece_len + info.piece_len <= info.piece_len * (info.piece_count - 1))
            by (nonlinear_arith)
            requires
                index < info.piece_count - 1,
                info.piece_len >= 0,
        ;
    } else {
        assert(index * info.piece_len == info.piece_len * (info.piece_count - 1))
            by (nonlinear_arith)
            requires
                index == info.piece_count - 1,
        ;
    }
    assert(0 <= index * info.piece_len) by (nonlinear_arith)
        requires
            0 <= index,
            0 <= info.piece_len,
    ;
}

/// In a torrent whose files lie one after the other and are not empty, the files
/// that are found for a range of bytes are exactly those that have a byte of it.
pub proof fn law_intersecting_files_are_exact(
    files: Seq<FileInfo>,
    start: int,
    end: int,
    range: Range<usize>,
    i: int,
)
    requires
        contiguous(files),
        forall|k: int| 0 <= k < files.len() ==> (#[trigger] files[k]).len > 0,
        0 <= start < end,
        start < total_len(files),
        is_intersection(files, start, end, range),
        0 <= i < files.len(),
    ensures
        range.start <= i < range.end <==> exists|offset: int|
            start <= offset < end && #[trigger] files[i].has_byte(offset),
{
    lemma_byte_has_file(files, start);
    let first = range.start as int;
    if range.start <= i < range.end {
        if i == first {
            assert(files[i].has_byte(start));
        } else {
            assert(files[i].has_byte(files[i].torrent_offset as int));
        }
    } else if exists|offset: int| start <= offset < end && #[trigger] files[i].has_byte(offset) {
        let offset = choose|offset: int|
            start <= offset < end && #[trigger] files[i].has_byte(offset);
        if i < first {
            lemma_offsets_grow(files, i, first);
            assert(files[i].has_byte(start) || files[i].end() <= files[first].torrent_offset);
        } else {
            if range.end < i {
                lemma_offsets_grow(files, range.end as int, i);
            }
            lemma_offsets_grow(files, first, range.end as int);
        }
    }
}

/// All pieces but the last have the nominal length, and each begins that much after the
/// one before it.
pub proof fn law_pieces_have_the_nominal_length(info: StorageInfo, index: int)
    requires
        0 <= index < info.piece_count,
    ensures
        index + 1 < info.piece_count ==> info.len_of_piece(index) == info.piece_len,
        index + 1 == info.piece_count ==> info.len_of_piece(index) == info.last_piece_len,
        info.piece_offset(0) == 0,
        info.piece_offset(index + 1) == info.piece_offset(index) + info.piece_len,
{
    assert((index + 1) * info.piece_len == index * info.piece_len + info.piece_len)
        by (nonlinear_arith);
}

/// The files are as long as their lengths together, and lie one after the other if each
/// begins where the one before it ends, the first at the start.
pub proof fn law_files_lie_one_after_the_other(files: Seq<FileInfo>, file: FileInfo)
    ensures
        total_len(Seq::empty()) == 0,
        total_len(files.push(file)) == total_len(files) + file.len,
        contiguous(Seq::empty()),
        contiguous(files.push(file)) <==> contiguous(files) && file.torrent_offset == total_len(
            files,
        ),
{
    let all = files.push(file);
    assert(all.drop_last() =~= files);
    assert forall|i: int| 0 <= i <= files.len() implies #[trigger] all.take(i) =~= files.take(i) by {}
    assert(files.take(files.len() as int) =~= files);
    if contiguous(all) {
        assert forall|i: int| 0 <= i < files.len() implies (#[trigger] files[i]).torrent_offset
            == total_len(files.take(i)) by {
            assert(all[i].torrent_offset == total_len(all.take(i)));
        }
        assert(all[files.len() as int].torrent_offset == total_len(all.take(files.len() as int)));
    }
    if contiguous(files) && file.torrent_offset == total_len(files) {
        assert forall|i: int| 0 <= i < all.len() implies (#[trigger] all[i]).torrent_offset
            == total_len(all.take(i)) by {
            if i < files.len() {
                assert(files[i].torrent_offset == total_len(files.take(i)));
            }
        }
    }
}

/// A file holds the bytes from its offset on, as many as it is long.
pub proof fn law_file_holds_its_bytes(file: FileInfo, offset: int)
    ensures
        file.has_byte(offset) <==> 0 <= offset - file.torrent_offset < file.len,
{
}

/// The pieces make up the files if there is a piece, no piece and no file is empty, the
/// files lie one after the other, and pieces and files are equally long.
pub proof fn law_layout_is_exact(info: StorageInfo)
    requires
        info.piece_count > 0,
        info.piece_len > 0,
        info.last_piece_len > 0,
        contiguous(info.structure.files()),
        forall|i: int|
            0 <= i < info.structure.files().len() ==> (#[trigger] info.structure.files()[i]).len > 0,
        total_len(info.structure.files()) <= u64::MAX,
    ensures
        info.pieces_cover_files() <==> info.piece_len * (info.piece_count - 1)
            + info.last_piece_len == total_len(info.structure.files()),
{
    let files = info.structure.files();
    assert forall|i: int| 0 <= i < files.len() implies (#[trigger] files[i]).wf() by {
        lemma_total_len_grows(files, i + 1);
        assert(files.take(i + 1).drop_last() =~= files.take(i));
    }
}

} // verus!
