//! Transfers to and from files, which may take several system calls.

use vstd::prelude::*;

use crate::disk::error::{ReadError, WriteError};
use crate::iovecs::{
    bounded_head, bounded_tail, buffers_of, flatten, law_bound_divides_bytes, law_trim_skips_bytes,
    split_bufs, trimmed, IoVec, IoVecs,
};
use crate::storage_info::FileSlice;

verus! {

/// What came of a system call that writes to a file.
#[derive(Debug)]
pub enum WriteOutcome {
    /// The call was interrupted before anything was written.
    Interrupted,
    /// The call failed with the error that is described.
    Failed(String),
    /// This many bytes were written.
    Written(usize),
}

/// What came of a system call that reads from a file.
#[derive(Debug)]
pub enum ReadOutcome {
    /// The call was interrupted before anything was read.
    Interrupted,
    /// The file ended before everything was read.
    UnexpectedEof,
    /// The call failed with the error that is described.
    Failed(String),
    /// This many bytes were read.
    Read(usize),
}

/// Returns the number of bytes that were written, or nothing if the call is to be
/// repeated.
///
/// Write system calls never return 0 these days (unless there is nothing to
/// write). If that happened, something went terribly wrong.
pub fn check_write(outcome: WriteOutcome) -> (r: Result<Option<usize>, WriteError>)
    ensures
        match outcome {
            WriteOutcome::Interrupted => r == Ok::<Option<usize>, WriteError>(None),
            WriteOutcome::Failed(e) => r == Err::<Option<usize>, WriteError>(WriteError::Io(e)),
            WriteOutcome::Written(n) => if n == 0 {
                r matches Err(WriteError::Io(e)) && e@ == "failed to write whole buffer"@
            } else {
                r == Ok::<Option<usize>, WriteError>(Some(n))
            },
        },
{
    match outcome {
        WriteOutcome::Interrupted => Ok(None),
        WriteOutcome::Failed(e) => Err(WriteError::Io(e)),
        WriteOutcome::Written(n) => {
            if n == 0 {
                Err(WriteError::Io("failed to write whole buffer".to_owned()))
            } else {
                Ok(Some(n))
            }
        },
    }
}

/// Returns the number of bytes that were read, or nothing if the call is to be
/// repeated.
///
/// If there was nothing to read from file, it means we tried to read a piece from
/// a portion of a file not yet downloaded or otherwise missing.
pub fn check_read(outcome: ReadOutcome) -> (r: Result<Option<usize>, ReadError>)
    ensures
        match outcome {
            ReadOutcome::Interrupted => r == Ok::<Option<usize>, ReadError>(None),
            ReadOutcome::UnexpectedEof => r == Err::<Option<usize>, ReadError>(
                ReadError::DataMissing,
            ),
            ReadOutcome::Failed(e) => r == Err::<Option<usize>, ReadError>(ReadError::Io(e)),
            ReadOutcome::Read(n) => if n == 0 {
                r == Err::<Option<usize>, ReadError>(ReadError::DataMissing)
            } else {
                r == Ok::<Option<usize>, ReadError>(Some(n))
            },
        },
{
    match outcome {
        ReadOutcome::Interrupted => Ok(None),
        ReadOutcome::UnexpectedEof => Err(ReadError::DataMissing),
        ReadOutcome::Failed(e) => Err(ReadError::Io(e)),
        ReadOutcome::Read(n) => {
            if n == 0 {
                Err(ReadError::DataMissing)
            } else {
                Ok(Some(n))
            }
        },
    }
}

/// A write of blocks to a slice of a file.
///
/// At most the slice length number of bytes of the blocks is written at the file
/// slice's offset. IO syscalls are not guaranteed to transfer the whole input
/// buffer in one go, so this is repeated until all bytes have been confirmed to be
/// transferred to disk (or an error occurs).
///
/// # Important
///
/// Since the syscall may be invoked repeatedly to perform disk IO, this
/// means that this operation is not guaranteed to be atomic.
pub struct VectoredWrite<'b, 'a> {
    /// The blocks that are left to write.
    pub iovecs: IoVecs<'b, 'a>,
    /// Where the blocks are written.
    pub file_slice: FileSlice,
    /// How many bytes were written.
    pub written: u64,
}

impl<'b, 'a> VectoredWrite<'b, 'a> {
    /// The bytes that are left to write.
    pub open spec fn left(&self) -> Seq<u8> {
        flatten(self.iovecs.head())
    }

    /// Whether what is left to write fits into what is left of the slice.
    pub open spec fn wf(&self) -> bool {
        &&& self.iovecs.wf()
        &&& self.file_slice.offset + self.file_slice.len <= u64::MAX
        &&& self.written + self.left().len() <= self.file_slice.len
    }

    /// Starts the write of the blocks to the slice of the file.
    pub fn new(file_slice: FileSlice, blocks: &'b mut [IoVec<'a>]) -> (write: Self)
        requires
            file_slice.len > 0,
            file_slice.offset + file_slice.len <= u64::MAX,
        ensures
            write.wf(),
            write.file_slice == file_slice,
            write.written == 0,
            write.iovecs.head() == bounded_head(buffers_of(old(blocks)@), file_slice.len as int),
            write.iovecs.tail() == bounded_tail(buffers_of(old(blocks)@), file_slice.len as int),
    {
        proof {
            // the write buffer cannot be larger than the file slice we want to
            // write to
            law_bound_divides_bytes(buffers_of(blocks@), file_slice.len as int);
        }
        let iovecs: IoVecs<'b, 'a> = split_bufs(blocks, file_slice.len);
        VectoredWrite { iovecs, file_slice, written: 0 }
    }

    /// Returns the offset in the file at which to write the rest of the blocks, or
    /// nothing if all of them were written.
    pub fn next_offset(&self) -> (offset: Option<u64>)
        requires
            self.wf(),
        ensures
            offset == if self.iovecs.head().len() == 0 || self.written == self.file_slice.len {
                None
            } else {
                Some((self.file_slice.offset + self.written) as u64)
            },
    {
        let head: &[IoVec<'a>] = self.iovecs.as_slice();
        assert(self.iovecs.head().len() == head@.len());
        if head.len() == 0 || self.written == self.file_slice.len {
            None
        } else {
            Some(self.file_slice.offset + self.written)
        }
    }

    /// Handles what came of writing the rest of the blocks: the buffers are
    /// advanced past what was written.
    pub fn handle_outcome(&mut self, outcome: WriteOutcome) -> (r: Result<(), WriteError>)
        requires
            old(self).wf(),
            outcome matches WriteOutcome::Written(n) ==> n <= old(self).left().len(),
        ensures
            final(self).wf(),
            final(self).file_slice == old(self).file_slice,
            final(self).iovecs.tail() == old(self).iovecs.tail(),
            match outcome {
                WriteOutcome::Written(n) => {
                    &&& final(self).written == old(self).written + n
                    &&& final(self).iovecs.head() == trimmed(old(self).iovecs.head(), n as int)
                    &&& final(self).left() == old(self).left().skip(n as int)
                },
                _ => {
                    &&& final(self).written == old(self).written
                    &&& final(self).left() == old(self).left()
                },
            },
            match outcome {
                WriteOutcome::Interrupted => r is Ok,
                WriteOutcome::Failed(e) => r == Err::<(), WriteError>(WriteError::Io(e)),
                WriteOutcome::Written(n) => if n == 0 {
                    r matches Err(WriteError::Io(e)) && e@ == "failed to write whole buffer"@
                } else {
                    r is Ok
                },
            },
    {
        let count: usize = match &outcome {
            WriteOutcome::Written(n) => *n,
            _ => 0,
        };
        let written: bool = match &outcome {
            WriteOutcome::Written(_) => true,
            _ => false,
        };
        if written {
            proof {
                law_trim_skips_bytes(self.iovecs.head(), count as int);
            }
            // advance the buffer cursor in iovecs by the number of bytes
            // transferred
            self.iovecs.advance(count);
            self.written = self.written + count as u64;
        }
        match check_write(outcome) {
            Ok(_) => Ok(()),
            Err(e) => Err(e),
        }
    }

    /// Returns the blocks that don't belong to the slice. That is, it returns the
    /// second half of the blocks as though they were split at the slice's length.
    pub fn into_tail(self) -> (bufs: &'b mut [IoVec<'a>])
        requires
            self.wf(),
        ensures
            buffers_of(bufs@) == self.iovecs.tail(),
    {
        self.iovecs.into_tail()
    }
}

/// A read of a slice of a file into a buffer.
///
/// At most the slice length number of bytes is read from the file slice's offset.
/// IO syscalls are not guaranteed to transfer the whole buffer in one go, so this
/// is repeated until all bytes have been read from disk (or an error occurs).
///
/// # Important
///
/// Since the syscall may be invoked repeatedly to perform disk IO, this
/// means that this operation is not guaranteed to be atomic.
#[derive(Debug)]
pub struct VectoredRead {
    /// Where the bytes are read.
    pub file_slice: FileSlice,
    /// The length of the buffer.
    pub buf_len: u64,
    /// How many bytes were read.
    pub read: u64,
}

impl VectoredRead {
    /// The number of bytes that are read in all: the slice, or as much of it as
    /// fits into the buffer.
    pub open spec fn len(&self) -> u64 {
        if self.buf_len < self.file_slice.len {
            self.buf_len
        } else {
            self.file_slice.len
        }
    }

    /// Whether not more was read than is to be read.
    pub open spec fn wf(&self) -> bool {
        &&& self.file_slice.offset + self.file_slice.len <= u64::MAX
        &&& self.read <= self.len()
    }

    /// Starts the read of the slice into a buffer of the given length.
    pub fn new(file_slice: FileSlice, buf_len: u64) -> (read: Self)
        requires
            file_slice.offset + file_slice.len <= u64::MAX,
        ensures
            read.wf(),
            read.file_slice == file_slice,
            read.buf_len == buf_len,
            read.read == 0,
    {
        VectoredRead { file_slice, buf_len, read: 0 }
    }

    /// Returns the part of the file that is to be read next, at the position in the
    /// buffer that is the number of bytes read so far, or nothing if everything was
    /// read.
    pub fn next_slice(&self) -> (slice: Option<FileSlice>)
        requires
            self.wf(),
        ensures
            slice == if self.read == self.len() {
                None
            } else {
                Some(
                    FileSlice {
                        offset: (self.file_slice.offset + self.read) as u64,
                        len: (self.len() - self.read) as u64,
                    },
                )
            },
    {
        let len: u64 = if self.buf_len < self.file_slice.len {
            self.buf_len
        } else {
            self.file_slice.len
        };
        if self.read == len {
            None
        } else {
            Some(FileSlice { offset: self.file_slice.offset + self.read, len: len - self.read })
        }
    }

    /// Handles what came of reading the next part: the position in the buffer is
    /// advanced past what was read.
    pub fn handle_outcome(&mut self, outcome: ReadOutcome) -> (r: Result<(), ReadError>)
        requires
            old(self).wf(),
            outcome matches ReadOutcome::Read(n) ==> n <= old(self).len() - old(self).read,
        ensures
            final(self).wf(),
            final(self).file_slice == old(self).file_slice,
            final(self).buf_len == old(self).buf_len,
            match outcome {
                ReadOutcome::Interrupted => r is Ok && final(self).read == old(self).read,
                ReadOutcome::UnexpectedEof => {
                    &&& r == Err::<(), ReadError>(ReadError::DataMissing)
                    &&& final(self).read == old(self).read
                },
                ReadOutcome::Failed(e) => {
                    &&& r == Err::<(), ReadError>(ReadError::Io(e))
                    &&& final(self).read == old(self).read
                },
                ReadOutcome::Read(n) => {
                    &&& n == 0 ==> r == Err::<(), ReadError>(ReadError::DataMissing)
                    &&& n > 0 ==> r is Ok
                    &&& final(self).read == old(self).read + n
                },
            },
    {
        match check_read(outcome) {
            Ok(Some(count)) => {
                // tally up the total read count
                self.read = self.read + count as u64;
                Ok(())
            },
            Ok(None) => Ok(()),
            Err(e) => Err(e),
        }
    }
}

/// A write of several calls writes the bytes in order and without gaps: after each
/// call, what was written and what is left make up all bytes, and the next call
/// writes the bytes that follow.
pub proof fn law_partial_writes_are_contiguous(head: Seq<Seq<u8>>, first: int, second: int)
    requires
        0 <= first,
        0 <= second,
        first + second <= flatten(head).len(),
    ensures
        flatten(trimmed(head, first)).take(second) == flatten(head).subrange(
            first,
            first + second,
        ),
        flatten(trimmed(trimmed(head, first), second)) == flatten(head).skip(first + second),
        first + second == flatten(head).len() ==> trimmed(trimmed(head, first), second).len() == 0,
{
    law_trim_skips_bytes(head, first);
    law_trim_skips_bytes(trimmed(head, first), second);
    assert(flatten(trimmed(head, first)).take(second) =~= flatten(head).subrange(
        first,
        first + second,
    ));
    assert(flatten(head).skip(first).skip(second) =~= flatten(head).skip(first + second));
}

/// As many bytes are read as fit into the buffer and are in the slice.
pub proof fn law_reads_fill_the_buffer(read: VectoredRead)
    ensures
        read.len() <= read.buf_len,
        read.len() <= read.file_slice.len,
        read.len() == read.buf_len || read.len() == read.file_slice.len,
{
}

} // verus!
