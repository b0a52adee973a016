//! Sets of block requests.

use vstd::prelude::*;

use crate::block::BlockInfo;

verus! {

/// The blocks that one side of a connection has requested and not yet got.
#[derive(Debug)]
pub struct RequestSet {
    /// The requested blocks, each once.
    pub blocks: Vec<BlockInfo>,
}

impl View for RequestSet {
    type V = Set<BlockInfo>;

    open spec fn view(&self) -> Set<BlockInfo> {
        self.blocks@.to_set()
    }
}

impl RequestSet {
    /// Whether no block is listed twice.
    pub open spec fn wf(&self) -> bool {
        self.blocks@.no_duplicates()
    }

    /// Creates an empty set.
    pub fn new() -> (requests: Self)
        ensures
            requests.wf(),
            requests@ == Set::<BlockInfo>::empty(),
    {
        let requests = RequestSet { blocks: Vec::new() };
        assert(requests@ =~= Set::<BlockInfo>::empty());
        requests
    }

    /// Returns the number of requests.
    pub fn len(&self) -> (len: usize)
        requires
            self.wf(),
        ensures
            len == self@.len(),
            self@.finite(),
    {
        proof {
            self.blocks@.unique_seq_to_set();
            vstd::seq_lib::seq_to_set_is_finite(self.blocks@);
        }
        self.blocks.len()
    }

    /// Returns the position of the block in the list, if it is requested.
    fn position(&self, block: &BlockInfo) -> (pos: Option<usize>)
        ensures
            match pos {
                Some(pos) => pos < self.blocks@.len() && self.blocks@[pos as int] == *block,
                None => !self@.contains(*block),
            },
    {
        let mut i: usize = 0;
        while i < self.blocks.len()
            invariant
                i <= self.blocks@.len(),
                forall|k: int| 0 <= k < i ==> self.blocks@[k] != *block,
            decreases self.blocks@.len() - i,
        {
            if self.blocks[i] == *block {
                return Some(i);
            }
            i = i + 1;
        }
        None
    }

    /// Tells whether the block is requested.
    pub fn contains(&self, block: &BlockInfo) -> (r: bool)
        ensures
            r == self@.contains(*block),
    {
        match self.position(block) {
            Some(pos) => {
                assert(self.blocks@.contains(self.blocks@[pos as int]));
                true
            },
            None => false,
        }
    }

    /// Adds a request, if it is not in the set already. Returns whether it was
    /// added.
    pub fn insert(&mut self, block: BlockInfo) -> (added: bool)
        requires
            old(self).wf(),
        ensures
            final(self).wf(),
            final(self)@ == old(self)@.insert(block),
            added == !old(self)@.contains(block),
    {
        if self.contains(&block) {
            assert(self@ =~= old(self)@.insert(block));
            return false;
        }
        let ghost before = self.blocks@;
        self.blocks.push(block);
        proof {
            assert forall|i: int, j: int|
                0 <= i < self.blocks@.len() && 0 <= j < self.blocks@.len() && i
                    != j implies self.blocks@[i] != self.blocks@[j] by {
                if i < before.len() {
                    assert(before.contains(before[i]));
                }
                if j < before.len() {
                    assert(before.contains(before[j]));
                }
            }
            assert forall|b: BlockInfo| #[trigger] self@.contains(b) <==> old(self)@.insert(
                block,
            ).contains(b) by {
                if self.blocks@.contains(b) {
                    let k = choose|k: int| 0 <= k < self.blocks@.len() && self.blocks@[k] == b;
                    if k < before.len() {
                        assert(before[k] == b);
                    }
                }
                if before.contains(b) {
                    let k = choose|k: int| 0 <= k < before.len() && before[k] == b;
                    assert(self.blocks@[k] == b);
                }
                assert(self.blocks@[before.len() as int] == block);
            }
            assert(self@ =~= old(self)@.insert(block));
        }
        true
    }

    /// Removes a request. Returns whether it was in the set.
    pub fn remove(&mut self, block: &BlockInfo) -> (removed: bool)
        requires
            old(self).wf(),
        ensures
            final(self).wf(),
            final(self)@ == old(self)@.remove(*block),
            removed == old(self)@.contains(*block),
    {
        match self.position(block) {
            None => {
                assert(self@ =~= old(self)@.remove(*block));
                false
            },
            Some(pos) => {
                let ghost before = self.blocks@;
                self.blocks.remove(pos);
                proof {
                    let after = self.blocks@;
                    assert(before.contains(before[pos as int]));
                    assert forall|i: int, j: int|
                        0 <= i < after.len() && 0 <= j < after.len() && i != j implies after[i]
                        != after[j] by {
                        let p = if i < pos {
                            i
                        } else {
                            i + 1
                        };
                        let q = if j < pos {
                            j
                        } else {
                            j + 1
                        };
                        assert(before[p] != before[q]);
                    }
                    assert forall|b: BlockInfo| #[trigger]
                        self@.contains(b) <==> old(self)@.remove(*block).contains(b) by {
                        if after.contains(b) {
                            let k = choose|k: int| 0 <= k < after.len() && after[k] == b;
                            let p = if k < pos {
                                k
                            } else {
                                k + 1
                            };
                            assert(before[p] == b);
                            assert(before[p] != before[pos as int]);
                        }
                        if before.contains(b) && b != *block {
                            let k = choose|k: int| 0 <= k < before.len() && before[k] == b;
                            let p = if k < pos {
                                k
                            } else {
                                k - 1
                            };
                            assert(after[p] == b);
                        }
                    }
                    assert(self@ =~= old(self)@.remove(*block));
                }
                true
            },
        }
    }

    /// Removes all requests.
    pub fn clear(&mut self)
        ensures
            final(self).wf(),
            final(self)@ == Set::<BlockInfo>::empty(),
    {
        self.blocks.clear();
        assert(self@ =~= Set::<BlockInfo>::empty());
    }

    /// Returns the requested blocks.
    pub fn as_slice(&self) -> (blocks: &[BlockInfo])
        requires
            self.wf(),
        ensures
            blocks@.no_duplicates(),
            blocks@.to_set() == self@,
    {
        self.blocks.as_slice()
    }
}

} // verus!
