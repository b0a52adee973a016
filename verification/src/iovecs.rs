//! Lists of buffers for vectored disk IO, and their division at the end of
//! a file.

use vstd::prelude::*;

verus! {

/// A buffer of a vectored IO operation.
#[derive(Clone, Copy, Debug)]
pub struct IoVec<'a> {
    buf: &'a [u8],
}

impl<'a> View for IoVec<'a> {
    type V = Seq<u8>;

    closed spec fn view(&self) -> Seq<u8> {
        self.buf@
    }
}

impl<'a> IoVec<'a> {
    /// Creates a buffer of the bytes.
    pub fn from_slice(buf: &'a [u8]) -> (iovec: Self)
        ensures
            iovec@ == buf@,
    {
        IoVec { buf }
    }

    /// Returns the bytes of the buffer.
    pub fn as_slice(&self) -> (buf: &'a [u8])
        ensures
            buf@ == self@,
    {
        self.buf
    }
}

/// The contents of the buffers.
pub open spec fn buffers_of(bufs: Seq<IoVec>) -> Seq<Seq<u8>> {
    bufs.map_values(|buf: IoVec| buf@)
}

/// The bytes of the buffers, one buffer after the other.
pub open spec fn flatten(bufs: Seq<Seq<u8>>) -> Seq<u8>
    decreases bufs.len(),
{
    if bufs.len() == 0 {
        Seq::empty()
    } else {
        bufs[0] + flatten(bufs.drop_first())
    }
}

/// The buffers up to the maximum length. The buffer that crosses it is cut off
/// there.
pub open spec fn bounded_head(bufs: Seq<Seq<u8>>, max_len: int) -> Seq<Seq<u8>>
    decreases bufs.len(),
{
    if bufs.len() == 0 {
        Seq::empty()
    } else if bufs[0].len() >= max_len {
        seq![bufs[0].take(max_len)]
    } else {
        seq![bufs[0]] + bounded_head(bufs.drop_first(), max_len - bufs[0].len())
    }
}

/// The buffers past the maximum length, beginning with the part that was cut off
/// the buffer that crosses it.
pub open spec fn bounded_tail(bufs: Seq<Seq<u8>>, max_len: int) -> Seq<Seq<u8>>
    decreases bufs.len(),
{
    if bufs.len() == 0 {
        Seq::empty()
    } else if bufs[0].len() > max_len {
        seq![bufs[0].skip(max_len)] + bufs.drop_first()
    } else if bufs[0].len() == max_len {
        bufs.drop_first()
    } else {
        bounded_tail(bufs.drop_first(), max_len - bufs[0].len())
    }
}

/// The buffers without their first `n` bytes and without the buffers that are
/// thereby used up.
pub open spec fn trimmed(bufs: Seq<Seq<u8>>, n: int) -> Seq<Seq<u8>>
    decreases bufs.len(),
{
    if bufs.len() == 0 {
        Seq::empty()
    } else if bufs[0].len() <= n {
        trimmed(bufs.drop_first(), n - bufs[0].len())
    } else {
        seq![bufs[0].skip(n)] + bufs.drop_first()
    }
}

/// Bounding the buffers divides their bytes at the maximum length: nothing is
/// lost, and the first half doesn't exceed the maximum.
pub proof fn law_bound_divides_bytes(bufs: Seq<Seq<u8>>, max_len: int)
    requires
        0 <= max_len,
    ensures
        flatten(bounded_head(bufs, max_len)) + flatten(bounded_tail(bufs, max_len)) == flatten(
            bufs,
        ),
        flatten(bounded_head(bufs, max_len)).len() == if flatten(bufs).len() < max_len {
            flatten(bufs).len() as int
        } else {
            max_len
        },
    decreases bufs.len(),
{
    let head = bounded_head(bufs, max_len);
    let tail = bounded_tail(bufs, max_len);
    if bufs.len() == 0 {
        assert(flatten(head) + flatten(tail) =~= flatten(bufs));
    } else if bufs[0].len() >= max_len {
        assert(head.drop_first() =~= Seq::<Seq<u8>>::empty());
        assert(flatten(head.drop_first()) =~= Seq::<u8>::empty());
        assert(flatten(head) =~= bufs[0].take(max_len));
        if bufs[0].len() > max_len {
            assert(tail.drop_first() =~= bufs.drop_first());
        }
        assert(flatten(head) + flatten(tail) =~= flatten(bufs));
    } else {
        let rest = max_len - bufs[0].len();
        law_bound_divides_bytes(bufs.drop_first(), rest);
        assert(head.drop_first() =~= bounded_head(bufs.drop_first(), rest));
        assert(flatten(head) + flatten(tail) =~= bufs[0] + (flatten(head.drop_first()) + flatten(
            tail,
        )));
    }
}

/// Trimming the buffers skips exactly the trimmed bytes, and what is left does not
/// begin with an empty buffer.
pub proof fn law_trim_skips_bytes(bufs: Seq<Seq<u8>>, n: int)
    requires
        0 <= n <= flatten(bufs).len(),
    ensures
        flatten(trimmed(bufs, n)) == flatten(bufs).skip(n),
        trimmed(bufs, n).len() > 0 ==> trimmed(bufs, n)[0].len() > 0,
        n == flatten(bufs).len() ==> trimmed(bufs, n).len() == 0,
    decreases bufs.len(),
{
    if bufs.len() == 0 {
        assert(flatten(trimmed(bufs, n)) =~= flatten(bufs).skip(n));
    } else if bufs[0].len() <= n {
        law_trim_skips_bytes(bufs.drop_first(), n - bufs[0].len());
        assert(flatten(bufs).skip(n) =~= flatten(bufs.drop_first()).skip(n - bufs[0].len()));
    } else {
        let left = trimmed(bufs, n);
        assert(left.drop_first() =~= bufs.drop_first());
        assert(flatten(left) =~= flatten(bufs).skip(n));
    }
}

/// Trimming in two steps is trimming by the sum.
pub proof fn law_trims_add_up(bufs: Seq<Seq<u8>>, n: int, m: int)
    requires
        0 <= n,
        0 <= m,
    ensures
        trimmed(trimmed(bufs, n), m) == trimmed(bufs, n + m),
    decreases bufs.len(),
{
    if bufs.len() == 0 {
    } else if bufs[0].len() <= n {
        law_trims_add_up(bufs.drop_first(), n - bufs[0].len(), m);
    } else {
        let left = trimmed(bufs, n);
        assert(left.drop_first() =~= bufs.drop_first());
        assert(left[0] == bufs[0].skip(n));
        if left[0].len() > m {
            assert(left[0].skip(m) =~= bufs[0].skip(n + m));
        }
    }
}

/// Finds the buffer that reaches the maximum length. Returns its position and how
/// many of its bytes lie before the maximum.
pub fn find_bound(bufs: &[IoVec], max_len: u64) -> (bound: Option<(usize, usize)>)
    ensures
        match bound {
            Some((pos, keep)) => {
                &&& pos < bufs@.len()
                &&& keep <= bufs@[pos as int]@.len()
                &&& bounded_head(buffers_of(bufs@), max_len as int) == buffers_of(bufs@).take(
                    pos as int,
                ).push(bufs@[pos as int]@.take(keep as int))
                &&& bounded_tail(buffers_of(bufs@), max_len as int) == if keep
                    < bufs@[pos as int]@.len() {
                    seq![bufs@[pos as int]@.skip(keep as int)] + buffers_of(bufs@).skip(pos + 1)
                } else {
                    buffers_of(bufs@).skip(pos + 1)
                }
            },
            None => {
                &&& bounded_head(buffers_of(bufs@), max_len as int) == buffers_of(bufs@)
                &&& bounded_tail(buffers_of(bufs@), max_len as int) == Seq::<Seq<u8>>::empty()
            },
        },
{
    let ghost all = buffers_of(bufs@);
    let mut left: u64 = max_len;
    let mut pos: usize = 0;
    assert(all.skip(0) =~= all);
    assert(bounded_head(all, max_len as int) =~= all.take(0) + bounded_head(all, max_len as int));
    while pos < bufs.len()
        invariant
            pos <= bufs@.len(),
            all == buffers_of(bufs@),
            bounded_head(all, max_len as int) == all.take(pos as int) + bounded_head(
                all.skip(pos as int),
                left as int,
            ),
            bounded_tail(all, max_len as int) == bounded_tail(all.skip(pos as int), left as int),
        decreases bufs@.len() - pos,
    {
        let len: usize = bufs[pos].as_slice().len();
        let ghost here = all.skip(pos as int);
        proof {
            assert(here[0] == bufs@[pos as int]@);
            assert(here.drop_first() =~= all.skip(pos + 1));
        }
        if len as u64 >= left {
            assert(all.take(pos as int) + seq![bufs@[pos as int]@.take(left as int)] =~= all.take(
                pos as int,
            ).push(bufs@[pos as int]@.take(left as int)));
            return Some((pos, left as usize));
        }
        assert(all.take(pos as int) + bounded_head(here, left as int) =~= all.take(pos + 1)
            + bounded_head(all.skip(pos + 1), left - len));
        left = left - len as u64;
        pos = pos + 1;
    }
    assert(all.skip(pos as int) =~= Seq::<Seq<u8>>::empty());
    assert(all.take(pos as int) + Seq::<Seq<u8>>::empty() =~= all);
    None
}

/// Splits the slice into two at the position, including the element at the
/// position in the first half of the split.
pub fn split_at_mut_inclusive<'a, T>(slice: &'a mut [T], pos: usize) -> (halves: (
    &'a mut [T],
    &'a mut [T],
))
    requires
        pos < old(slice)@.len(),
    ensures
        halves.0@ == old(slice)@.take(pos + 1),
        halves.1@ == old(slice)@.skip(pos + 1),
        final(slice)@ == final(halves.0)@ + final(halves.1)@,
{
    // Add one to the split position because `split_at` family of methods works
    // such that the element at the split point is not included in the first
    // half, which we want to include.
    assert(pos < slice.len());
    let halves = slice.split_at_mut(pos + 1);
    assert(halves.0@ =~= old(slice)@.take(pos + 1));
    assert(halves.1@ =~= old(slice)@.skip(pos + 1));
    halves
}

/// How the buffers of [`IoVecs`] are split.
#[derive(Clone, Copy, Debug)]
pub struct Split<'a> {
    /// The position at which to split `IoVecs::bufs`. Note that this is
    /// inclusive, i.e. we split at `[0, pos]`.
    pub pos: usize,
    /// If set, it means that the buffer at `bufs[split_pos]` was further split
    /// in two. It contains the second half of the split buffer.
    pub split_buf_second_half: Option<&'a [u8]>,
}

/// Represents a split of an `&mut [IoVec]` into two, where the split may
/// not be on the boundary of two buffers.
///
/// The complication arises from the fact that the split may not be on a buffer
/// boundary, but we want to perform the split by keeping the original
/// slices (i.e. without allocating a new vector). This requires keeping the
/// first part of the slice, the second part of the slice, and if the split
/// occurred within a buffer, a copy of the second half of that split buffer.
///
/// This way, the user can use the first half of the buffers to pass it for
/// vectored IO, without accidentally extending the file if it's too large, and
/// then reconstructing the second half of the split, using the copy of the
/// split buffer.
pub struct IoVecs<'b, 'a> {
    /// The entire view of the underlying buffers.
    pub bufs: &'b mut [IoVec<'a>],
    /// The position of the first buffer that was not used up yet.
    pub start: usize,
    /// If set, the buffer is bounded by a given boundary, and is effectively
    /// "split". This includes metadata to reconstruct the second half of the
    /// split.
    pub split: Option<Split<'a>>,
}

impl<'b, 'a> IoVecs<'b, 'a> {
    /// The position past the first half of the split.
    pub open spec fn end(&self) -> int {
        match self.split {
            Some(split) => split.pos + 1,
            None => self.bufs@.len() as int,
        }
    }

    /// Whether the positions lie within the buffers.
    pub open spec fn wf(&self) -> bool {
        self.start <= self.end() <= self.bufs@.len()
    }

    /// The contents of the first half of the split.
    pub open spec fn head(&self) -> Seq<Seq<u8>> {
        buffers_of(self.bufs@.subrange(self.start as int, self.end()))
    }

    /// The contents of the second half of the split.
    pub open spec fn tail(&self) -> Seq<Seq<u8>> {
        match self.split {
            Some(Split { pos, split_buf_second_half: Some(second_half) }) => seq![second_half@]
                + buffers_of(self.bufs@.skip(pos + 1)),
            Some(Split { pos, split_buf_second_half: None }) => buffers_of(
                self.bufs@.skip(pos + 1),
            ),
            None => Seq::empty(),
        }
    }

    /// Bounds the iovecs, potentially spliting it in two, if the total byte
    /// count of the buffers exceeds the limit.
    ///
    /// This is most useful when writing to a slice of a file while ensuring
    /// that the file is not extended if the input buffers are larger than the
    /// length of the file slice.
    ///
    /// If the total size of the buffers exceeds the max length, the buffers are
    /// split such that the first half returned is the portion of the buffers
    /// that can be written to the file, while the second half is the remainder
    /// of the buffer, to be reused later. If the size of the total size of the
    /// buffers is smaller than or equal to the slice, this is essentially
    /// a noop.
    ///
    /// Visualized, this looks like the following:
    ///
    /// ------------------------------
    /// | file slice: 25             |
    /// -----------------------------------
    /// | block: 16      | block: 16 ^    |
    /// -----------------------------^-----
    ///                              ^
    ///                          split here
    ///
    /// In this example, the first half of the split would be [0, 25), the
    /// second half would be [25, 48).
    pub fn bounded(bufs: &'b mut [IoVec<'a>], max_len: usize) -> (iovecs: Self)
        requires
            max_len > 0,
        ensures
            iovecs.wf(),
            iovecs.head() == bounded_head(buffers_of(old(bufs)@), max_len as int),
            iovecs.tail() == bounded_tail(buffers_of(old(bufs)@), max_len as int),
            iovecs.split is None <==> iovecs.tail().len() == 0,
            iovecs.start == 0,
    {
        split_bufs(bufs, max_len as u64)
    }

    /// Creates an unbounded `IoVec`, meaning that no split is necessary.
    pub fn unbounded(bufs: &'b mut [IoVec<'a>]) -> (iovecs: Self)
        ensures
            iovecs.wf(),
            iovecs.start == 0,
            iovecs.split is None,
            iovecs.head() == buffers_of(old(bufs)@),
            iovecs.tail() == Seq::<Seq<u8>>::empty(),
    {
        assert(bufs@.subrange(0, bufs@.len() as int) =~= bufs@);
        IoVecs { bufs, start: 0, split: None }
    }

    /// Creates a "clean split", in which the split occurs at the buffer
    /// boundary and `bufs` need only be split at the slice level.
    fn split_at_buffer_boundary(bufs: &'b mut [IoVec<'a>], pos: usize) -> (iovecs: Self)
        requires
            pos + 1 < old(bufs)@.len(),
        ensures
            iovecs.wf(),
            iovecs.start == 0,
            iovecs.split is Some,
            iovecs.head() == buffers_of(old(bufs)@).take(pos + 1),
            iovecs.tail() == buffers_of(old(bufs)@).skip(pos + 1),
    {
        let iovecs = IoVecs {
            bufs,
            start: 0,
            split: Some(Split { pos, split_buf_second_half: None }),
        };
        assert(iovecs.head() =~= buffers_of(iovecs.bufs@).take(pos + 1));
        assert(iovecs.tail() =~= buffers_of(iovecs.bufs@).skip(pos + 1));
        iovecs
    }

    /// Creates a split where the split occurs within one of the buffers of
    /// `bufs`.
    fn split_within_buffer(
        bufs: &'b mut [IoVec<'a>],
        split_pos: usize,
        buf_split_pos: usize,
    ) -> (iovecs: Self)
        requires
            split_pos < old(bufs)@.len(),
            buf_split_pos < old(bufs)@[split_pos as int]@.len(),
        ensures
            iovecs.wf(),
            iovecs.start == 0,
            iovecs.split is Some,
            iovecs.head() == buffers_of(old(bufs)@).take(split_pos as int).push(
                old(bufs)@[split_pos as int]@.take(buf_split_pos as int),
            ),
            iovecs.tail() == seq![old(bufs)@[split_pos as int]@.skip(buf_split_pos as int)]
                + buffers_of(old(bufs)@).skip(split_pos + 1),
    {
        let ghost before = bufs@;
        let buf_to_split: &'a [u8] = bufs[split_pos].as_slice();
        // trim the overhanging part off the iovec
        let (first_half, second_half) = buf_to_split.split_at(buf_split_pos);
        assert(first_half@ =~= before[split_pos as int]@.take(buf_split_pos as int));
        assert(second_half@ =~= before[split_pos as int]@.skip(buf_split_pos as int));
        // shrink the iovec at the file boundary
        bufs[split_pos] = IoVec::from_slice(first_half);
        let iovecs = IoVecs {
            bufs,
            start: 0,
            split: Some(Split { pos: split_pos, split_buf_second_half: Some(second_half) }),
        };
        assert(iovecs.head() =~= buffers_of(before).take(split_pos as int).push(first_half@));
        assert(buffers_of(iovecs.bufs@.skip(split_pos + 1)) =~= buffers_of(before).skip(
            split_pos + 1,
        ));
        iovecs
    }

    /// Returns the first half of the split.
    pub fn as_slice(&self) -> (bufs: &[IoVec<'a>])
        requires
            self.wf(),
        ensures
            buffers_of(bufs@) == self.head(),
    {
        assert(self.end() <= self.bufs.len());
        let end: usize = match &self.split {
            // we need to include the buffer under the split position too
            Some(split) => split.pos + 1,
            None => self.bufs.len(),
        };
        let head = vstd::slice::slice_subrange(&*self.bufs, self.start, end);
        assert(head@ =~= self.bufs@.subrange(self.start as int, self.end()));
        head
    }

    /// Returns the first half of the split for changing it.
    pub fn buffers(&mut self) -> (bufs: &mut [IoVec<'a>])
        requires
            old(self).wf(),
        ensures
            buffers_of(bufs@) == old(self).head(),
            final(self).start == old(self).start,
            final(self).split == old(self).split,
            final(self).bufs@ == old(self).bufs@.take(old(self).start as int) + final(bufs)@
                + old(self).bufs@.skip(old(self).end()),
    {
        assert(self.end() <= self.bufs.len());
        let end: usize = match &self.split {
            // we need to include the buffer under the split position too
            Some(split) => split.pos + 1,
            None => self.bufs.len(),
        };
        let (front, rest) = self.bufs.split_at_mut(end);
        assert(rest@ =~= old(self).bufs@.skip(old(self).end()));
        let (used, bufs) = front.split_at_mut(self.start);
        assert(used@ =~= old(self).bufs@.take(old(self).start as int));
        assert(bufs@ =~= old(self).bufs@.subrange(old(self).start as int, old(self).end()));
        bufs
    }

    /// Trims the front of the first half by the number of bytes, which have been
    /// transferred.
    pub fn advance(&mut self, n: usize)
        requires
            old(self).wf(),
            n <= flatten(old(self).head()).len(),
        ensures
            final(self).wf(),
            final(self).head() == trimmed(old(self).head(), n as int),
            final(self).tail() == old(self).tail(),
            final(self).split == old(self).split,
    {
        assert(self.end() <= self.bufs.len());
        let end: usize = match &self.split {
            Some(split) => split.pos + 1,
            None => self.bufs.len(),
        };
        let ghost head = self.head();
        let ghost before = self.bufs@;
        let ghost first = self.start;
        let mut left: usize = n;
        proof {
            assert(head.skip(0) =~= head);
        }
        while self.start < end
            invariant
                self.wf(),
                self.end() == end,
                self.bufs@ == before,
                old(self).bufs@ == before,
                old(self).head() == head,
                self.split == old(self).split,
                first <= self.start <= end,
                head == buffers_of(before.subrange(first as int, end as int)),
                trimmed(head, n as int) == trimmed(head.skip(self.start - first), left as int),
            decreases end - self.start,
        {
            let buf: &'a [u8] = self.bufs[self.start].as_slice();
            let ghost here = head.skip(self.start - first);
            proof {
                assert(here[0] == before[self.start as int]@);
                assert(here.drop_first() =~= head.skip(self.start + 1 - first));
            }
            if buf.len() > left {
                let (_, rest) = buf.split_at(left);
                self.bufs[self.start] = IoVec::from_slice(rest);
                proof {
                    assert(rest@ =~= here[0].skip(left as int));
                    assert(self.head() =~= seq![here[0].skip(left as int)] + here.drop_first());
                    assert(self.bufs@.skip(end as int) =~= before.skip(end as int));
                }
                return ;
            }
            left = left - buf.len();
            self.start = self.start + 1;
        }
        proof {
            assert(head.skip(self.start - first) =~= Seq::<Seq<u8>>::empty());
            assert(self.head() =~= Seq::<Seq<u8>>::empty());
        }
    }

    /// Returns the second half of the split, reconstructing the split buffer in
    /// the middle, if necessary, consuming the split in the process.
    pub fn into_tail(self) -> (bufs: &'b mut [IoVec<'a>])
        requires
            self.wf(),
        ensures
            buffers_of(bufs@) == self.tail(),
    {
        let ghost before = self.bufs@;
        match self.split {
            Some(split) => match split.split_buf_second_half {
                // If the buffer at the boundary was split, we need to restore it
                // first. Otherwise the buffers were split at a buffer boundary so
                // we can just return the second half of the split.
                Some(second_half) => {
                    let bufs: &'b mut [IoVec<'a>] = self.bufs;
                    bufs[split.pos] = IoVec::from_slice(second_half);
                    let (_, tail) = bufs.split_at_mut(split.pos);
                    assert(buffers_of(tail@) =~= seq![second_half@] + buffers_of(
                        before.skip(split.pos + 1),
                    ));
                    tail
                },
                None => {
                    let (_, tail) = split_at_mut_inclusive(self.bufs, split.pos);
                    tail
                },
            },
            None => {
                // there is no second half, so we return an empty slice
                let len: usize = self.bufs.len();
                let (_, tail) = self.bufs.split_at_mut(len);
                assert(buffers_of(tail@) =~= Seq::<Seq<u8>>::empty());
                tail
            },
        }
    }
}

/// Splits the buffers at the maximum length.
pub fn split_bufs<'b, 'a>(bufs: &'b mut [IoVec<'a>], max_len: u64) -> (iovecs: IoVecs<'b, 'a>)
    ensures
        iovecs.wf(),
        iovecs.head() == bounded_head(buffers_of(old(bufs)@), max_len as int),
        iovecs.tail() == bounded_tail(buffers_of(old(bufs)@), max_len as int),
        iovecs.split is None <==> iovecs.tail().len() == 0,
        iovecs.start == 0,
{
    let ghost all = buffers_of(bufs@);
    match find_bound(&*bufs, max_len) {
        None => IoVecs::unbounded(bufs),
        Some((pos, keep)) => {
            if keep == bufs[pos].as_slice().len() {
                // The buffer boundary aligns with the file boundary. There are two
                // cases here:
                // 1. the buffers are the same length as the file, in which case
                //    there is nothing to split,
                // 2. or we just need to split at the buffer boundary.
                proof {
                    assert(all[pos as int].take(keep as int) =~= all[pos as int]);
                    assert(all.take(pos as int).push(all[pos as int]) =~= all.take(pos + 1));
                }
                if pos + 1 == bufs.len() {
                    assert(all.take(pos + 1) =~= all);
                    assert(all.skip(pos + 1) =~= Seq::<Seq<u8>>::empty());
                    IoVecs::unbounded(bufs)
                } else {
                    IoVecs::split_at_buffer_boundary(bufs, pos)
                }
            } else {
                // Otherwise the buffer boundary does not align with the file
                // boundary, so we must trim the iovec that is at the file
                // boundary.
                IoVecs::split_within_buffer(bufs, pos, keep)
            }
        },
    }
}

} // verus!
