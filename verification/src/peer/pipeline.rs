//! Which blocks a peer session requests next.
//!
//! The session keeps a number of requests outstanding that saturates the link to
//! its peer. Where it has room for more, it first requests the free blocks of the
//! pieces that are already being downloaded, and then starts new pieces.

use vstd::prelude::*;

use crate::block::{BlockInfo, BLOCK_LEN};
use crate::download::{
    downloads_wf, free_blocks, has_download, is_requested, law_picked_blocks_are_requested,
    law_picks_are_free_blocks, lemma_block_in_piece, lemma_free_blocks, Block, Downloads,
    PieceDownload, PieceDownloadView,
};
use crate::piece_picker::{
    law_picks_count_down, law_some_piece_is_picked, PickerView, PiecePicker,
};
use crate::storage_info::StorageInfo;
use crate::torrent::context::shared_wf;

verus! {

/// The requests that are made, and what they leave of the picker and the
/// downloads.
#[verifier::ext_equal]
pub struct Plan {
    pub picker: PickerView,
    pub downloads: Seq<PieceDownloadView>,
    pub requests: Seq<BlockInfo>,
}

/// The plan after the first `n` downloads were continued, as long as there was
/// room for more requests.
pub open spec fn continued(start: Plan, n: nat, room: int) -> Plan
    decreases n,
{
    if n == 0 {
        start
    } else {
        let plan = continued(start, (n - 1) as nat, room);
        if plan.requests.len() >= room {
            plan
        } else {
            let count = (room - plan.requests.len()) as nat;
            Plan {
                downloads: plan.downloads.update(
                    n - 1,
                    plan.downloads[n - 1].after_pick(count),
                ),
                requests: plan.requests + plan.downloads[n - 1].picked_blocks(count),
                ..plan
            }
        }
    }
}

/// The plan after new pieces were started, as long as there was room for more
/// requests and a piece that could be picked.
pub open spec fn started(storage: StorageInfo, plan: Plan, room: int) -> Plan
    decreases plan.picker.pickable_count(),
{
    if plan.requests.len() >= room {
        plan
    } else if exists|i: int| #[trigger] plan.picker.first_pickable(i) {
        let i = choose|i: int| #[trigger] plan.picker.first_pickable(i);
        proof {
            law_picks_count_down(plan.picker, i);
        }
        started(storage, with_piece(storage, plan, i, room), room)
    } else {
        plan
    }
}

/// The plan after the piece was started.
pub open spec fn with_piece(storage: StorageInfo, plan: Plan, i: int, room: int) -> Plan {
    let count = (room - plan.requests.len()) as nat;
    let download = PieceDownloadView::fresh(i as usize, storage.len_of_piece(i) as u32);
    Plan {
        picker: plan.picker.after_pick(i),
        downloads: plan.downloads.push(download.after_pick(count)),
        requests: plan.requests + download.picked_blocks(count),
    }
}

/// The plan to make as many requests as there is room for.
pub open spec fn request_plan(
    storage: StorageInfo,
    picker: PickerView,
    downloads: Seq<PieceDownloadView>,
    room: int,
) -> Plan {
    let start = Plan { picker, downloads, requests: Seq::empty() };
    started(storage, continued(start, downloads.len(), room), room)
}

/// Whether no block in the downloads is free to be requested.
pub open spec fn nothing_free(downloads: Seq<PieceDownloadView>) -> bool {
    forall|i: int|
        0 <= i < downloads.len() ==> free_blocks((#[trigger] downloads[i]).blocks).len() == 0
}

/// Whether the plan makes as many requests as there is room for, or there is
/// nothing left to request.
pub open spec fn fills(plan: Plan, room: int) -> bool {
    plan.requests.len() >= room || (nothing_free(plan.downloads) && forall|i: int|
        !plan.picker.pickable(i))
}

/// Whether the later downloads differ from the earlier ones in that exactly these
/// blocks, none of them twice, were requested in addition.
pub open spec fn adds_requests(
    before: Seq<PieceDownloadView>,
    after: Seq<PieceDownloadView>,
    requests: Seq<BlockInfo>,
) -> bool {
    &&& requests.no_duplicates()
    &&& forall|block: BlockInfo| #[trigger]
        is_requested(after, block) <==> is_requested(before, block) || requests.contains(block)
    &&& forall|block: BlockInfo|
        #![trigger requests.contains(block)]
        requests.contains(block) ==> !is_requested(before, block)
}

proof fn lemma_adds_nothing(downloads: Seq<PieceDownloadView>)
    ensures
        adds_requests(downloads, downloads, Seq::empty()),
{
}

proof fn lemma_adds_more(
    before: Seq<PieceDownloadView>,
    middle: Seq<PieceDownloadView>,
    after: Seq<PieceDownloadView>,
    first: Seq<BlockInfo>,
    second: Seq<BlockInfo>,
)
    requires
        adds_requests(before, middle, first),
        adds_requests(middle, after, second),
    ensures
        adds_requests(before, after, first + second),
{
    let all = first + second;
    assert forall|block: BlockInfo| #[trigger] all.contains(block) <==> first.contains(block)
        || second.contains(block) by {
        if all.contains(block) {
            let k = choose|k: int| 0 <= k < all.len() && all[k] == block;
            if k < first.len() {
                assert(first[k] == block);
            } else {
                assert(second[k - first.len()] == block);
            }
        }
        if first.contains(block) {
            let k = choose|k: int| 0 <= k < first.len() && first[k] == block;
            assert(all[k] == block);
        }
        if second.contains(block) {
            let k = choose|k: int| 0 <= k < second.len() && second[k] == block;
            assert(all[first.len() + k] == block);
        }
    }
    assert forall|i: int, j: int| 0 <= i < all.len() && 0 <= j < all.len() && i != j implies all[i]
        != all[j] by {
        if i < first.len() && j >= first.len() {
            assert(first.contains(first[i]));
            assert(second.contains(second[j - first.len()]));
        }
        if j < first.len() && i >= first.len() {
            assert(first.contains(first[j]));
            assert(second.contains(second[i - first.len()]));
        }
    }
    assert forall|block: BlockInfo| #[trigger] is_requested(after, block) <==> is_requested(
        before,
        block,
    ) || all.contains(block) by {
        assert(is_requested(middle, block) <==> is_requested(before, block) || first.contains(
            block,
        ));
    }
    assert forall|block: BlockInfo|
        #![trigger all.contains(block)]
        all.contains(block) implies !is_requested(before, block) by {
        assert(is_requested(middle, block) <==> is_requested(before, block) || first.contains(
            block,
        ));
    }
}

/// Picking blocks in one of the downloads adds the picked blocks to the requested
/// ones.
proof fn lemma_pick_adds(downloads: Seq<PieceDownloadView>, pos: int, count: nat)
    requires
        downloads_wf(downloads),
        0 <= pos < downloads.len(),
    ensures
        adds_requests(
            downloads,
            downloads.update(pos, downloads[pos].after_pick(count)),
            downloads[pos].picked_blocks(count),
        ),
        downloads[pos].picked_blocks(count).len() <= count,
{
    let d = downloads[pos];
    assert(d.wf());
    let e = d.after_pick(count);
    let after = downloads.update(pos, e);
    let picked = d.picked(count);
    let blocks = d.picked_blocks(count);
    law_picks_are_free_blocks(d, count);
    // each picked block is the block at its index
    assert forall|k: int| 0 <= k < picked.len() implies {
        &&& d.is_block(#[trigger] blocks[k])
        &&& blocks[k].offset as int / BLOCK_LEN as int == picked[k]
    } by {
        assert(picked.contains(picked[k]));
        lemma_block_in_piece(d.len, picked[k]);
    }
    assert forall|i: int, j: int|
        0 <= i < blocks.len() && 0 <= j < blocks.len() && i != j implies blocks[i]
        != blocks[j] by {
        assert(blocks[i].offset as int / BLOCK_LEN as int == picked[i]);
        assert(blocks[j].offset as int / BLOCK_LEN as int == picked[j]);
    }
    assert forall|block: BlockInfo| #[trigger] is_requested(after, block) <==> is_requested(
        downloads,
        block,
    ) || blocks.contains(block) by {
        if is_requested(after, block) {
            let i = choose|i: int|
                0 <= i < after.len() && (#[trigger] after[i]).is_block(block)
                    && after[i].state_of(block) == Block::Requested;
            assert(downloads[i].is_block(block));
            if i == pos {
                let slot = block.offset as int / BLOCK_LEN as int;
                if picked.contains(slot) {
                    let k = choose|k: int| 0 <= k < picked.len() && picked[k] == slot;
                    assert(blocks[k] == d.block_info(slot));
                    assert(blocks[k] == block);
                }
            }
        }
        if is_requested(downloads, block) {
            let i = choose|i: int|
                0 <= i < downloads.len() && (#[trigger] downloads[i]).is_block(block)
                    && downloads[i].state_of(block) == Block::Requested;
            assert(after[i].is_block(block));
            assert(after[i].state_of(block) == Block::Requested);
        }
        if blocks.contains(block) {
            let k = choose|k: int| 0 <= k < blocks.len() && blocks[k] == block;
            assert(d.is_block(blocks[k]));
            assert(after[pos].is_block(block));
            assert(picked.contains(picked[k]));
            assert(after[pos].state_of(block) == Block::Requested);
        }
    }
    assert forall|block: BlockInfo|
        #![trigger blocks.contains(block)]
        blocks.contains(block) implies !is_requested(downloads, block) by {
        let k = choose|k: int| 0 <= k < blocks.len() && blocks[k] == block;
        assert(d.is_block(blocks[k]));
        assert(picked.contains(picked[k]));
        if is_requested(downloads, block) {
            let i = choose|i: int|
                0 <= i < downloads.len() && (#[trigger] downloads[i]).is_block(block)
                    && downloads[i].state_of(block) == Block::Requested;
            assert(downloads[i].index == downloads[pos].index);
            assert(i == pos);
        }
    }
}

/// If fewer blocks were picked than were asked for, no free block is left.
proof fn lemma_all_picked(download: PieceDownloadView, count: nat)
    requires
        download.wf(),
        download.picked_blocks(count).len() < count,
    ensures
        free_blocks(download.after_pick(count).blocks).len() == 0,
{
    let after = download.after_pick(count);
    lemma_free_blocks(download.blocks);
    lemma_free_blocks(after.blocks);
    if free_blocks(after.blocks).len() > 0 {
        let k = free_blocks(after.blocks)[0];
        assert(free_blocks(after.blocks).contains(k));
        assert(download.blocks[k] == Block::Free);
        assert(free_blocks(download.blocks).contains(k));
    }
}

/// A download of which nothing was requested yet adds no requested blocks.
proof fn lemma_fresh_adds_nothing(
    downloads: Seq<PieceDownloadView>,
    fresh: PieceDownloadView,
)
    requires
        forall|i: int| 0 <= i < fresh.blocks.len() ==> #[trigger] fresh.blocks[i] == Block::Free,
    ensures
        adds_requests(downloads, downloads.push(fresh), Seq::empty()),
{
    let after = downloads.push(fresh);
    assert forall|block: BlockInfo| #[trigger] is_requested(after, block) <==> is_requested(
        downloads,
        block,
    ) by {
        if is_requested(after, block) {
            let i = choose|i: int|
                0 <= i < after.len() && (#[trigger] after[i]).is_block(block)
                    && after[i].state_of(block) == Block::Requested;
            if i < downloads.len() {
                assert(downloads[i].is_block(block));
            }
        }
        if is_requested(downloads, block) {
            let i = choose|i: int|
                0 <= i < downloads.len() && (#[trigger] downloads[i]).is_block(block)
                    && downloads[i].state_of(block) == Block::Requested;
            assert(after[i].is_block(block));
        }
    }
}

/// Only one piece is the first that can be picked.
proof fn lemma_first_pickable_unique(picker: PickerView, i: int, j: int)
    requires
        picker.first_pickable(i),
        picker.first_pickable(j),
    ensures
        i == j,
{
}

/// Picks as many blocks as there is room for, first in the downloads that are in
/// progress and then in new pieces.
pub fn plan_requests(
    storage: &StorageInfo,
    picker: &mut PiecePicker,
    downloads: &mut Downloads,
    room: usize,
) -> (requests: Vec<BlockInfo>)
    requires
        shared_wf(*storage, old(picker)@, old(downloads)@),
    ensures
        shared_wf(*storage, final(picker)@, final(downloads)@),
        (Plan {
            picker: final(picker)@,
            downloads: final(downloads)@,
            requests: requests@,
        }) == request_plan(*storage, old(picker)@, old(downloads)@, room as int),
        adds_requests(old(downloads)@, final(downloads)@, requests@),
        requests@.len() <= room,
        fills(
            request_plan(*storage, old(picker)@, old(downloads)@, room as int),
            room as int,
        ),
{
    let mut requests: Vec<BlockInfo> = Vec::new();
    let ghost start = Plan { picker: picker@, downloads: downloads@, requests: requests@ };
    proof {
        lemma_adds_nothing(start.downloads);
    }
    // If we have active downloads, prefer to continue those. This will
    // result in less in-progress pieces.
    let mut pos: usize = 0;
    while pos < downloads.len()
        invariant
            pos <= downloads@.len(),
            downloads@.len() == start.downloads.len(),
            shared_wf(*storage, picker@, downloads@),
            picker@ == start.picker,
            (Plan { picker: picker@, downloads: downloads@, requests: requests@ }) == continued(
                start,
                pos as nat,
                room as int,
            ),
            adds_requests(start.downloads, downloads@, requests@),
            requests@.len() <= room,
            requests@.len() < room ==> nothing_free(downloads@.take(pos as int)),
        decreases start.downloads.len() - pos,
    {
        // our outgoing request queue shouldn't exceed the allowed request
        // queue size
        if requests.len() < room {
            let ghost before = downloads@;
            let ghost first = requests@;
            let count: usize = room - requests.len();
            downloads.pick_blocks(pos, count, &mut requests);
            proof {
                lemma_pick_adds(before, pos as int, count as nat);
                lemma_adds_more(
                    start.downloads,
                    before,
                    downloads@,
                    first,
                    before[pos as int].picked_blocks(count as nat),
                );
                assert forall|i: int| 0 <= i < downloads@.len() implies {
                    &&& (#[trigger] downloads@[i]).index < storage.piece_count
                    &&& downloads@[i].len == storage.len_of_piece(downloads@[i].index as int)
                    &&& picker@.pieces[downloads@[i].index as int].is_pending
                } by {
                    assert(before[i].index == downloads@[i].index);
                }
                if requests@.len() < room {
                    lemma_all_picked(before[pos as int], count as nat);
                    assert forall|i: int| 0 <= i < pos + 1 implies free_blocks(
                        (#[trigger] downloads@.take(pos + 1)[i]).blocks,
                    ).len() == 0 by {
                        if i < pos {
                            assert(downloads@.take(pos + 1)[i] == before.take(pos as int)[i]);
                        }
                    }
                }
            }
        }
        pos = pos + 1;
    }
    let ghost goal = request_plan(*storage, start.picker, start.downloads, room as int);
    assert(downloads@.take(pos as int) =~= downloads@);
    // while we can make more requests we start new download(s)
    while requests.len() < room
        invariant_except_break
            shared_wf(*storage, picker@, downloads@),
            goal == started(
                *storage,
                Plan { picker: picker@, downloads: downloads@, requests: requests@ },
                room as int,
            ),
            adds_requests(start.downloads, downloads@, requests@),
            requests@.len() <= room,
            requests@.len() < room ==> nothing_free(downloads@),
        ensures
            shared_wf(*storage, picker@, downloads@),
            goal == (Plan { picker: picker@, downloads: downloads@, requests: requests@ }),
            adds_requests(start.downloads, downloads@, requests@),
            requests@.len() <= room,
            fills(goal, room as int),
        decreases picker@.pickable_count(),
    {
        let ghost plan = Plan { picker: picker@, downloads: downloads@, requests: requests@ };
        match picker.pick_piece() {
            Some(index) => {
                let count: usize = room - requests.len();
                proof {
                    let i = choose|i: int| #[trigger] plan.picker.first_pickable(i);
                    lemma_first_pickable_unique(plan.picker, i, index as int);
                    law_picks_count_down(plan.picker, index as int);
                }
                let piece_len: u32 = match storage.piece_len(index) {
                    Ok(piece_len) => piece_len,
                    Err(_) => 0,
                };
                let mut download: PieceDownload = PieceDownload::new(index, piece_len);
                let ghost fresh = download@;
                let ghost first = requests@;
                download.pick_blocks(count, &mut requests);
                proof {
                    // the piece was not being downloaded, or it would be pending
                    assert(!has_download(plan.downloads, index)) by {
                        if has_download(plan.downloads, index) {
                            let i = choose|i: int|
                                0 <= i < plan.downloads.len() && (
                                #[trigger] plan.downloads[i]).index == index;
                            assert(plan.picker.pieces[plan.downloads[i].index as int].is_pending);
                        }
                    }
                }
                // save download
                downloads.insert(download);
                proof {
                    let middle = plan.downloads.push(fresh);
                    let last = plan.downloads.len() as int;
                    assert(downloads_wf(middle)) by {
                        assert forall|i: int, j: int|
                            0 <= i < middle.len() && 0 <= j < middle.len() && i != j implies (
                        #[trigger] middle[i]).index != (#[trigger] middle[j]).index by {
                            assert(downloads@[i].index != downloads@[j].index);
                        }
                    }
                    lemma_fresh_adds_nothing(plan.downloads, fresh);
                    lemma_pick_adds(middle, last, count as nat);
                    assert(middle.update(last, fresh.after_pick(count as nat)) =~= downloads@);
                    lemma_adds_more(
                        start.downloads,
                        plan.downloads,
                        middle,
                        first,
                        Seq::empty(),
                    );
                    assert(first + Seq::<BlockInfo>::empty() =~= first);
                    lemma_adds_more(
                        start.downloads,
                        middle,
                        downloads@,
                        first,
                        fresh.picked_blocks(count as nat),
                    );
                    assert forall|i: int| 0 <= i < downloads@.len() implies {
                        &&& (#[trigger] downloads@[i]).index < storage.piece_count
                        &&& downloads@[i].len == storage.len_of_piece(downloads@[i].index as int)
                        &&& picker@.pieces[downloads@[i].index as int].is_pending
                    } by {
                        if i < last {
                            assert(plan.downloads[i] == downloads@[i]);
                        }
                    }
                    if requests@.len() < room {
                        lemma_all_picked(fresh, count as nat);
                        assert forall|i: int| 0 <= i < downloads@.len() implies free_blocks(
                            (#[trigger] downloads@[i]).blocks,
                        ).len() == 0 by {
                            if i < last {
                                assert(downloads@[i] == plan.downloads[i]);
                            }
                        }
                    }
                    assert((Plan {
                        picker: picker@,
                        downloads: downloads@,
                        requests: requests@,
                    }) =~= with_piece(*storage, plan, index as int, room as int));
                }
            },
            None => {
                proof {
                    assert(!exists|i: int| #[trigger] plan.picker.first_pickable(i));
                }
                break;
            },
        }
    }
    requests
}

/// Whether the picks of a plan are exactly its requests: each block of these downloads
/// is as it was, or was free and is requested now.
spec fn requests_are_picks(
    before: Seq<PieceDownloadView>,
    after: Seq<PieceDownloadView>,
    requests: Seq<BlockInfo>,
) -> bool {
    &&& before.len() <= after.len()
    &&& forall|i: int|
        0 <= i < before.len() ==> {
            &&& (#[trigger] after[i]).index == before[i].index
            &&& after[i].len == before[i].len
            &&& after[i].blocks.len() == before[i].blocks.len()
        }
    &&& forall|i: int, k: int|
        0 <= i < before.len() && 0 <= k < before[i].blocks.len() ==> {
            let requested = requests.contains(before[i].block_info(k));
            &&& requested ==> before[i].blocks[k] == Block::Free && (
            #[trigger] after[i].blocks[k]) == Block::Requested
            &&& !requested ==> after[i].blocks[k] == before[i].blocks[k]
        }
}

/// Whether each of the requests is for a block of one of the first downloads.
spec fn requests_are_of(
    downloads: Seq<PieceDownloadView>,
    n: int,
    requests: Seq<BlockInfo>,
) -> bool {
    forall|j: int|
        0 <= j < requests.len() ==> exists|i: int, k: int|
            0 <= i < n && 0 <= k < downloads[i].blocks.len() && (#[trigger] requests[j])
                == #[trigger] downloads[i].block_info(k)
}

/// Whether no block of the first downloads is free.
spec fn none_free(downloads: Seq<PieceDownloadView>, n: int) -> bool {
    forall|i: int, k: int|
        0 <= i < n && 0 <= k < downloads[i].blocks.len() ==> (#[trigger] downloads[i].blocks[k])
            != Block::Free
}

/// Two blocks are different if their pieces or their places in the piece are.
proof fn lemma_distinct_blocks(
    downloads: Seq<PieceDownloadView>,
    i: int,
    k: int,
    j: int,
    l: int,
)
    requires
        downloads_wf(downloads),
        0 <= i < downloads.len(),
        0 <= j < downloads.len(),
        0 <= k < downloads[i].blocks.len(),
        0 <= l < downloads[j].blocks.len(),
        downloads[i].block_info(k) == downloads[j].block_info(l),
    ensures
        i == j,
        k == l,
{
    assert(downloads[i].wf());
    assert(downloads[j].wf());
    lemma_block_in_piece(downloads[i].len, k);
    lemma_block_in_piece(downloads[j].len, l);
}

proof fn lemma_contains_concat(a: Seq<BlockInfo>, b: Seq<BlockInfo>, x: BlockInfo)
    ensures
        (a + b).contains(x) <==> a.contains(x) || b.contains(x),
{
    if (a + b).contains(x) {
        let k = choose|k: int| 0 <= k < (a + b).len() && (a + b)[k] == x;
        if k < a.len() {
            assert(a[k] == x);
        } else {
            assert(b[k - a.len()] == x);
        }
    }
    if a.contains(x) {
        let k = choose|k: int| 0 <= k < a.len() && a[k] == x;
        assert((a + b)[k] == x);
    }
    if b.contains(x) {
        let k = choose|k: int| 0 <= k < b.len() && b[k] == x;
        assert((a + b)[a.len() + k] == x);
    }
}

proof fn lemma_continued(start: Plan, n: nat, room: int)
    requires
        downloads_wf(start.downloads),
        n <= start.downloads.len(),
        start.requests.len() == 0,
        0 <= room,
    ensures
        ({
            let plan = continued(start, n, room);
            &&& plan.picker == start.picker
            &&& plan.downloads.len() == start.downloads.len()
            &&& downloads_wf(plan.downloads)
            &&& forall|i: int|
                n <= i < start.downloads.len() ==> #[trigger] plan.downloads[i]
                    == start.downloads[i]
            &&& requests_are_picks(start.downloads, plan.downloads, plan.requests)
            &&& requests_are_of(start.downloads, n as int, plan.requests)
            &&& plan.requests.len() <= room
            &&& plan.requests.len() < room ==> none_free(plan.downloads, n as int)
        }),
    decreases n,
{
    if n == 0 {
        assert forall|x: BlockInfo| !(#[trigger] start.requests.contains(x)) by {}
    } else {
        lemma_continued(start, (n - 1) as nat, room);
        let before = continued(start, (n - 1) as nat, room);
        let plan = continued(start, n, room);
        if before.requests.len() >= room {
            assert(plan == before);
        } else {
            let count = (room - before.requests.len()) as nat;
            let pos = n - 1;
            let d = before.downloads[pos];
            assert(d == start.downloads[pos]);
            assert(d.wf());
            let picked = d.picked_blocks(count);
            law_picks_are_free_blocks(d, count);
            assert(picked.len() <= count);
            assert forall|x: BlockInfo| #[trigger]
                plan.requests.contains(x) <==> before.requests.contains(x) || picked.contains(x) by {
                lemma_contains_concat(before.requests, picked, x);
            }
            lemma_continued_step(start, before, plan, pos, count);
        }
    }
}

/// One more download is continued.
proof fn lemma_continued_step(start: Plan, before: Plan, plan: Plan, pos: int, count: nat)
    requires
        downloads_wf(start.downloads),
        0 <= pos < start.downloads.len(),
        before.picker == start.picker,
        before.downloads.len() == start.downloads.len(),
        downloads_wf(before.downloads),
        forall|i: int|
            pos <= i < start.downloads.len() ==> #[trigger] before.downloads[i]
                == start.downloads[i],
        requests_are_picks(start.downloads, before.downloads, before.requests),
        requests_are_of(start.downloads, pos, before.requests),
        none_free(before.downloads, pos),
        plan.picker == before.picker,
        plan.downloads == before.downloads.update(pos, before.downloads[pos].after_pick(count)),
        plan.requests == before.requests + before.downloads[pos].picked_blocks(count),
        forall|x: BlockInfo| #[trigger]
            plan.requests.contains(x) <==> before.requests.contains(x)
                || before.downloads[pos].picked_blocks(count).contains(x),
    ensures
        downloads_wf(plan.downloads),
        forall|i: int|
            pos + 1 <= i < start.downloads.len() ==> #[trigger] plan.downloads[i]
                == start.downloads[i],
        requests_are_picks(start.downloads, plan.downloads, plan.requests),
        requests_are_of(start.downloads, pos + 1, plan.requests),
        before.downloads[pos].picked_blocks(count).len() < count ==> none_free(
            plan.downloads,
            pos + 1,
        ),
{
    let d = start.downloads[pos];
    assert(before.downloads[pos] == d);
    assert(d.wf());
    let picked = d.picked_blocks(count);
    law_picks_are_free_blocks(d, count);
    assert forall|j: int| 0 <= j < picked.len() implies {
        &&& 0 <= (#[trigger] d.picked(count)[j]) < d.blocks.len()
        &&& picked[j] == d.block_info(d.picked(count)[j])
    } by {
        assert(d.picked(count).contains(d.picked(count)[j]));
    }
    assert(downloads_wf(plan.downloads)) by {
        assert forall|i: int, j: int|
            0 <= i < plan.downloads.len() && 0 <= j < plan.downloads.len() && i != j implies (
        #[trigger] plan.downloads[i]).index != (#[trigger] plan.downloads[j]).index by {
            assert(before.downloads[i].index != before.downloads[j].index);
        }
        assert forall|i: int| 0 <= i < plan.downloads.len() implies (
        #[trigger] plan.downloads[i]).wf() by {
            assert(before.downloads[i].wf());
        }
    }
    assert forall|i: int, k: int|
        0 <= i < start.downloads.len() && 0 <= k < start.downloads[i].blocks.len() implies {
        let requested = plan.requests.contains(start.downloads[i].block_info(k));
        &&& requested ==> start.downloads[i].blocks[k] == Block::Free && (
        #[trigger] plan.downloads[i].blocks[k]) == Block::Requested
        &&& !requested ==> plan.downloads[i].blocks[k] == start.downloads[i].blocks[k]
    } by {
        let x = start.downloads[i].block_info(k);
        assert(before.downloads[i].blocks[k] == before.downloads[i].blocks[k]);
        if picked.contains(x) {
            let j = choose|j: int| 0 <= j < picked.len() && picked[j] == x;
            let l = d.picked(count)[j];
            lemma_distinct_blocks(start.downloads, i, k, pos, l);
        }
        if i == pos {
            law_picked_blocks_are_requested(d, count, k);
            if before.requests.contains(x) {
                let j = choose|j: int| 0 <= j < before.requests.len() && before.requests[j] == x;
                let (a, b) = choose|a: int, b: int|
                    0 <= a < pos && 0 <= b < start.downloads[a].blocks.len() && before.requests[j]
                        == #[trigger] start.downloads[a].block_info(b);
                lemma_distinct_blocks(start.downloads, i, k, a, b);
            }
        }
    }
    assert forall|i: int| 0 <= i < start.downloads.len() implies {
        &&& (#[trigger] plan.downloads[i]).index == start.downloads[i].index
        &&& plan.downloads[i].len == start.downloads[i].len
        &&& plan.downloads[i].blocks.len() == start.downloads[i].blocks.len()
    } by {
        assert(before.downloads[i].index == start.downloads[i].index);
    }
    assert forall|j: int| 0 <= j < plan.requests.len() implies exists|i: int, k: int|
        0 <= i < pos + 1 && 0 <= k < start.downloads[i].blocks.len() && (#[trigger] plan.requests[j])
            == #[trigger] start.downloads[i].block_info(k) by {
        if j < before.requests.len() {
            assert(plan.requests[j] == before.requests[j]);
            let (a, b) = choose|a: int, b: int|
                0 <= a < pos && 0 <= b < start.downloads[a].blocks.len() && before.requests[j]
                    == #[trigger] start.downloads[a].block_info(b);
            assert(plan.requests[j] == start.downloads[a].block_info(b));
        } else {
            let l = d.picked(count)[j - before.requests.len()];
            assert(plan.requests[j] == start.downloads[pos].block_info(l));
        }
    }
    if picked.len() < count {
        assert forall|i: int, k: int|
            0 <= i < pos + 1 && 0 <= k < plan.downloads[i].blocks.len() implies (
        #[trigger] plan.downloads[i].blocks[k]) != Block::Free by {
            if i == pos {
                law_picked_blocks_are_requested(d, count, k);
            } else {
                assert(before.downloads[i].blocks[k] != Block::Free);
            }
        }
    }
}

/// Whether the downloads that were added are of pieces that could be picked, and their
/// blocks are free but for those that are requested.
spec fn pieces_are_started(
    storage: StorageInfo,
    before: Plan,
    after: Plan,
) -> bool {
    &&& before.downloads.len() <= after.downloads.len()
    &&& forall|i: int|
        0 <= i < before.downloads.len() ==> #[trigger] after.downloads[i] == before.downloads[i]
    &&& forall|i: int|
        before.downloads.len() <= i < after.downloads.len() ==> {
            &&& before.picker.pickable((#[trigger] after.downloads[i]).index as int)
            &&& after.picker.pieces[after.downloads[i].index as int].is_pending
            &&& after.downloads[i].len == storage.len_of_piece(after.downloads[i].index as int)
        }
    &&& forall|i: int, k: int|
        before.downloads.len() <= i < after.downloads.len() && 0 <= k
            < after.downloads[i].blocks.len() ==> (#[trigger] after.downloads[i].blocks[k])
            == Block::Free || after.downloads[i].blocks[k] == Block::Requested
    &&& before.requests.len() <= after.requests.len()
    &&& after.requests.take(before.requests.len() as int) == before.requests
    &&& forall|j: int|
        before.requests.len() <= j < after.requests.len() ==> before.picker.pickable(
            (#[trigger] after.requests[j]).piece_index as int,
        )
    &&& after.picker.own == before.picker.own
    &&& after.picker.pieces.len() == before.picker.pieces.len()
    &&& forall|m: int|
        0 <= m < before.picker.pieces.len() ==> {
            &&& (#[trigger] after.picker.pieces[m]).frequency == before.picker.pieces[m].frequency
            &&& before.picker.pieces[m].is_pending ==> after.picker.pieces[m].is_pending
        }
}

proof fn lemma_started(storage: StorageInfo, plan: Plan, room: int)
    requires
        shared_wf(storage, plan.picker, plan.downloads),
        plan.requests.len() <= room,
        plan.requests.len() < room ==> none_free(plan.downloads, plan.downloads.len() as int),
    ensures
        ({
            let after = started(storage, plan, room);
            &&& shared_wf(storage, after.picker, after.downloads)
            &&& pieces_are_started(storage, plan, after)
            &&& after.requests.len() <= room
            &&& after.requests.len() < room ==> {
                &&& none_free(after.downloads, after.downloads.len() as int)
                &&& forall|m: int| !after.picker.pickable(m)
            }
            &&& after.downloads.len() > plan.downloads.len() ==> plan.requests.len() < room
        }),
    decreases plan.picker.pickable_count(),
{
    let after = started(storage, plan, room);
    assert(plan.requests.take(plan.requests.len() as int) =~= plan.requests);
    if plan.requests.len() >= room {
    } else if exists|i: int| #[trigger] plan.picker.first_pickable(i) {
        let i = choose|i: int| #[trigger] plan.picker.first_pickable(i);
        law_picks_count_down(plan.picker, i);
        let next = with_piece(storage, plan, i, room);
        lemma_with_piece(storage, plan, i, room);
        lemma_started(storage, next, room);
        assert(after == started(storage, next, room));
        lemma_started_after(storage, plan, next, after, i);
    } else {
        assert forall|m: int| !plan.picker.pickable(m) by {
            if plan.picker.pickable(m) {
                let first = law_some_piece_is_picked(plan.picker, m);
                assert(plan.picker.first_pickable(first));
            }
        }
    }
}

/// A piece that was started and what follows it are what was started.
proof fn lemma_started_after(
    storage: StorageInfo,
    plan: Plan,
    next: Plan,
    after: Plan,
    i: int,
)
    requires
        plan.picker.wf(),
        plan.picker.pickable(i),
        pieces_are_started(storage, plan, next),
        pieces_are_started(storage, next, after),
        next.picker == plan.picker.after_pick(i),
    ensures
        pieces_are_started(storage, plan, after),
{
    assert forall|m: int| next.picker.pickable(m) implies plan.picker.pickable(m) by {}
    assert forall|k: int| 0 <= k < plan.downloads.len() implies #[trigger] after.downloads[k]
        == plan.downloads[k] by {
        assert(next.downloads[k] == plan.downloads[k]);
    }
    assert forall|k: int| plan.downloads.len() <= k < after.downloads.len() implies {
        &&& plan.picker.pickable((#[trigger] after.downloads[k]).index as int)
        &&& after.picker.pieces[after.downloads[k].index as int].is_pending
        &&& after.downloads[k].len == storage.len_of_piece(after.downloads[k].index as int)
    } by {
        if k < next.downloads.len() {
            assert(after.downloads[k] == next.downloads[k]);
            assert(next.picker.pieces[next.downloads[k].index as int].is_pending);
        }
    }
    assert forall|a: int, k: int|
        plan.downloads.len() <= a < after.downloads.len() && 0 <= k
            < after.downloads[a].blocks.len() implies (#[trigger] after.downloads[a].blocks[k])
        == Block::Free || after.downloads[a].blocks[k] == Block::Requested by {
        if a < next.downloads.len() {
            assert(after.downloads[a] == next.downloads[a]);
            assert(next.downloads[a].blocks[k] == next.downloads[a].blocks[k]);
        }
    }
    assert(after.requests.take(plan.requests.len() as int) =~= next.requests.take(
        plan.requests.len() as int,
    )) by {
        assert forall|j: int| 0 <= j < plan.requests.len() implies after.requests[j]
            == next.requests[j] by {
            assert(after.requests.take(next.requests.len() as int)[j] == next.requests[j]);
        }
    }
    assert forall|j: int|
        plan.requests.len() <= j < after.requests.len() implies plan.picker.pickable(
        (#[trigger] after.requests[j]).piece_index as int,
    ) by {
        if j < next.requests.len() {
            assert(after.requests.take(next.requests.len() as int)[j] == next.requests[j]);
        }
    }
    assert forall|m: int| 0 <= m < plan.picker.pieces.len() implies {
        &&& (#[trigger] after.picker.pieces[m]).frequency == plan.picker.pieces[m].frequency
        &&& plan.picker.pieces[m].is_pending ==> after.picker.pieces[m].is_pending
    } by {
        assert(next.picker.pieces[m].frequency == plan.picker.pieces[m].frequency);
    }
}

/// Starting one piece keeps the shared state consistent.
proof fn lemma_with_piece(storage: StorageInfo, plan: Plan, i: int, room: int)
    requires
        shared_wf(storage, plan.picker, plan.downloads),
        plan.requests.len() < room,
        none_free(plan.downloads, plan.downloads.len() as int),
        plan.picker.pickable(i),
    ensures
        ({
            let next = with_piece(storage, plan, i, room);
            &&& shared_wf(storage, next.picker, next.downloads)
            &&& pieces_are_started(storage, plan, next)
            &&& next.requests.len() <= room
            &&& next.requests.len() < room ==> none_free(
                next.downloads,
                next.downloads.len() as int,
            )
        }),
{
    let next = with_piece(storage, plan, i, room);
    let count = (room - plan.requests.len()) as nat;
    let fresh = PieceDownloadView::fresh(i as usize, storage.len_of_piece(i) as u32);
    let picked = fresh.picked_blocks(count);
    let last = plan.downloads.len() as int;
    law_picks_are_free_blocks(fresh, count);
    assert(next.downloads[last] == fresh.after_pick(count));
    assert forall|a: int, b: int|
        0 <= a < next.downloads.len() && 0 <= b < next.downloads.len() && a != b implies (
    #[trigger] next.downloads[a]).index != (#[trigger] next.downloads[b]).index by {
        if a == last {
            assert(plan.picker.pieces[plan.downloads[b].index as int].is_pending);
        } else if b == last {
            assert(plan.picker.pieces[plan.downloads[a].index as int].is_pending);
        } else {
            assert(plan.downloads[a].index != plan.downloads[b].index);
        }
    }
    assert forall|a: int| 0 <= a < next.downloads.len() implies {
        &&& (#[trigger] next.downloads[a]).wf()
        &&& next.downloads[a].index < storage.piece_count
        &&& next.downloads[a].len == storage.len_of_piece(next.downloads[a].index as int)
        &&& next.picker.pieces[next.downloads[a].index as int].is_pending
    } by {
        if a < last {
            assert(next.downloads[a] == plan.downloads[a]);
            assert(plan.downloads[a].wf());
        }
    }
    assert(next.requests.take(plan.requests.len() as int) =~= plan.requests);
    assert forall|j: int|
        plan.requests.len() <= j < next.requests.len() implies plan.picker.pickable(
        (#[trigger] next.requests[j]).piece_index as int,
    ) by {
        assert(next.requests[j] == picked[j - plan.requests.len()]);
    }
    if next.requests.len() < room {
        assert forall|a: int, k: int|
            0 <= a < next.downloads.len() && 0 <= k < next.downloads[a].blocks.len() implies (
        #[trigger] next.downloads[a].blocks[k]) != Block::Free by {
            if a == last {
                law_picked_blocks_are_requested(fresh, count, k);
            } else {
                assert(plan.downloads[a].blocks[k] != Block::Free);
            }
        }
    }
}

/// The requests that are made next take what is free: each block of the downloads in
/// progress is as it was or, if it was free, is requested now. Neither what was received
/// nor what was requested before is requested again.
pub proof fn law_only_free_blocks_are_requested(
    storage: StorageInfo,
    picker: PickerView,
    downloads: Seq<PieceDownloadView>,
    room: int,
    i: int,
    k: int,
)
    requires
        shared_wf(storage, picker, downloads),
        0 <= room,
        0 <= i < downloads.len(),
        0 <= k < downloads[i].blocks.len(),
    ensures
        ({
            let plan = request_plan(storage, picker, downloads, room);
            let requested = plan.requests.contains(downloads[i].block_info(k));
            &&& plan.downloads[i].index == downloads[i].index
            &&& plan.downloads[i].len == downloads[i].len
            &&& plan.downloads[i].blocks.len() == downloads[i].blocks.len()
            &&& requested ==> downloads[i].blocks[k] == Block::Free
            &&& requested ==> plan.downloads[i].blocks[k] == Block::Requested
            &&& !requested ==> plan.downloads[i].blocks[k] == downloads[i].blocks[k]
        }),
{
    let start = Plan { picker, downloads, requests: Seq::empty() };
    let middle = continued(start, downloads.len(), room);
    let plan = request_plan(storage, picker, downloads, room);
    lemma_plan(storage, picker, downloads, room);
    let x = downloads[i].block_info(k);
    assert(middle.downloads[i].blocks[k] == middle.downloads[i].blocks[k]);
    assert(plan.downloads[i] == middle.downloads[i]);
    assert(middle.downloads[i].index == downloads[i].index);
    if plan.requests.contains(x) && !middle.requests.contains(x) {
        let j = choose|j: int| 0 <= j < plan.requests.len() && plan.requests[j] == x;
        if j < middle.requests.len() {
            assert(plan.requests.take(middle.requests.len() as int)[j] == middle.requests[j]);
            assert(middle.requests.contains(x));
        } else {
            // the piece of the block is being downloaded, so it is not picked
            assert(middle.picker.pickable(plan.requests[j].piece_index as int));
            assert(picker.pieces[downloads[i].index as int].is_pending);
        }
    }
    if middle.requests.contains(x) {
        let j = choose|j: int| 0 <= j < middle.requests.len() && middle.requests[j] == x;
        assert(plan.requests.take(middle.requests.len() as int)[j] == middle.requests[j]);
        assert(plan.requests[j] == x);
    }
}

/// As many requests are made as there is room for. If there are fewer, nothing is left to
/// request: no block of a download is free, and no piece that a peer has and we don't is
/// left to start. New pieces are only started when no download has a free block left.
pub proof fn law_requests_fill_the_room(
    storage: StorageInfo,
    picker: PickerView,
    downloads: Seq<PieceDownloadView>,
    room: int,
)
    requires
        shared_wf(storage, picker, downloads),
        0 <= room,
    ensures
        ({
            let plan = request_plan(storage, picker, downloads, room);
            &&& plan.requests.len() <= room
            &&& plan.requests.len() < room ==> {
                &&& forall|i: int, k: int|
                    0 <= i < plan.downloads.len() && 0 <= k < plan.downloads[i].blocks.len() ==> (
                    #[trigger] plan.downloads[i].blocks[k]) != Block::Free
                &&& forall|m: int|
                    0 <= m < picker.pieces.len() ==> picker.own[m] || (
                    #[trigger] plan.picker.pieces[m]).frequency == 0
                        || plan.picker.pieces[m].is_pending
            }
            &&& plan.downloads.len() > downloads.len() ==> forall|i: int, k: int|
                0 <= i < downloads.len() && 0 <= k < downloads[i].blocks.len() ==> (
                #[trigger] plan.downloads[i].blocks[k]) != Block::Free
        }),
{
    let start = Plan { picker, downloads, requests: Seq::empty() };
    let middle = continued(start, downloads.len(), room);
    let plan = request_plan(storage, picker, downloads, room);
    lemma_plan(storage, picker, downloads, room);
    if plan.requests.len() < room {
        assert forall|m: int| 0 <= m < picker.pieces.len() implies picker.own[m] || (
        #[trigger] plan.picker.pieces[m]).frequency == 0 || plan.picker.pieces[m].is_pending by {
            assert(!plan.picker.pickable(m));
        }
    }
    if plan.downloads.len() > downloads.len() {
        assert forall|i: int, k: int|
            0 <= i < downloads.len() && 0 <= k < downloads[i].blocks.len() implies (
        #[trigger] plan.downloads[i].blocks[k]) != Block::Free by {
            assert(plan.downloads[i] == middle.downloads[i]);
            assert(middle.downloads[i].index == downloads[i].index);
            assert(middle.downloads[i].blocks[k] != Block::Free);
        }
    }
}

/// Only pieces are started that we don't have, that a peer has, and that are not being
/// downloaded. They are marked as being downloaded, and neither what we have nor how many
/// peers have a piece changes.
pub proof fn law_only_pickable_pieces_are_started(
    storage: StorageInfo,
    picker: PickerView,
    downloads: Seq<PieceDownloadView>,
    room: int,
    i: int,
    m: int,
)
    requires
        shared_wf(storage, picker, downloads),
        0 <= room,
        downloads.len() <= i,
        0 <= m < picker.pieces.len(),
    ensures
        ({
            let plan = request_plan(storage, picker, downloads, room);
            &&& plan.downloads.len() >= downloads.len()
            &&& i < plan.downloads.len() ==> {
                let index = plan.downloads[i].index as int;
                &&& index < picker.pieces.len()
                &&& !picker.own[index]
                &&& picker.pieces[index].frequency > 0
                &&& !picker.pieces[index].is_pending
                &&& plan.picker.pieces[index].is_pending
                &&& plan.downloads[i].len == storage.len_of_piece(index)
            }
            &&& plan.picker.own == picker.own
            &&& plan.picker.pieces.len() == picker.pieces.len()
            &&& plan.picker.pieces[m].frequency == picker.pieces[m].frequency
            &&& picker.pieces[m].is_pending ==> plan.picker.pieces[m].is_pending
        }),
{
    let start = Plan { picker, downloads, requests: Seq::empty() };
    let middle = continued(start, downloads.len(), room);
    let plan = request_plan(storage, picker, downloads, room);
    lemma_plan(storage, picker, downloads, room);
    if i < plan.downloads.len() {
        assert(middle.picker.pickable(plan.downloads[i].index as int));
    }
}

proof fn lemma_plan(
    storage: StorageInfo,
    picker: PickerView,
    downloads: Seq<PieceDownloadView>,
    room: int,
)
    requires
        shared_wf(storage, picker, downloads),
        0 <= room,
    ensures
        ({
            let start = Plan { picker, downloads, requests: Seq::empty() };
            let middle = continued(start, downloads.len(), room);
            let plan = request_plan(storage, picker, downloads, room);
            &&& middle.picker == picker
            &&& middle.downloads.len() == downloads.len()
            &&& requests_are_picks(downloads, middle.downloads, middle.requests)
            &&& requests_are_of(downloads, downloads.len() as int, middle.requests)
            &&& middle.requests.len() < room ==> none_free(
                middle.downloads,
                middle.downloads.len() as int,
            )
            &&& shared_wf(storage, plan.picker, plan.downloads)
            &&& pieces_are_started(storage, middle, plan)
            &&& plan.requests.len() <= room
            &&& plan.requests.len() < room ==> {
                &&& none_free(plan.downloads, plan.downloads.len() as int)
                &&& forall|m: int| !plan.picker.pickable(m)
            }
            &&& plan.downloads.len() > downloads.len() ==> middle.requests.len() < room
        }),
{
    let start = Plan { picker, downloads, requests: Seq::empty() };
    let middle = continued(start, downloads.len(), room);
    lemma_continued(start, downloads.len(), room);
    assert forall|i: int| 0 <= i < middle.downloads.len() implies {
        &&& (#[trigger] middle.downloads[i]).index < storage.piece_count
        &&& middle.downloads[i].len == storage.len_of_piece(middle.downloads[i].index as int)
        &&& picker.pieces[middle.downloads[i].index as int].is_pending
    } by {
        assert(middle.downloads[i].index == downloads[i].index);
    }
    lemma_started(storage, middle, room);
}

/// No block is requested of a piece that we have and that is not being downloaded, nor of
/// one that no peer has.
pub proof fn law_owned_pieces_are_not_requested(
    storage: StorageInfo,
    picker: PickerView,
    downloads: Seq<PieceDownloadView>,
    room: int,
    block: BlockInfo,
)
    requires
        shared_wf(storage, picker, downloads),
        0 <= room,
        block.piece_index < picker.pieces.len(),
        picker.own[block.piece_index as int] || picker.pieces[block.piece_index as int].frequency
            == 0,
        forall|i: int|
            0 <= i < downloads.len() ==> (#[trigger] downloads[i]).index != block.piece_index,
    ensures
        !request_plan(storage, picker, downloads, room).requests.contains(block),
{
    let start = Plan { picker, downloads, requests: Seq::empty() };
    let middle = continued(start, downloads.len(), room);
    let plan = request_plan(storage, picker, downloads, room);
    lemma_plan(storage, picker, downloads, room);
    if plan.requests.contains(block) {
        let j = choose|j: int| 0 <= j < plan.requests.len() && plan.requests[j] == block;
        if j < middle.requests.len() {
            assert(plan.requests.take(middle.requests.len() as int)[j] == middle.requests[j]);
            let (a, b) = choose|a: int, b: int|
                0 <= a < downloads.len() && 0 <= b < downloads[a].blocks.len()
                    && middle.requests[j] == #[trigger] downloads[a].block_info(b);
            assert(downloads[a].index == block.piece_index);
        } else {
            assert(middle.picker.pickable(plan.requests[j].piece_index as int));
        }
    }
}

/// Making requests does not change what we have.
pub proof fn lemma_plan_keeps_own(
    storage: StorageInfo,
    picker: PickerView,
    downloads: Seq<PieceDownloadView>,
    room: int,
)
    requires
        shared_wf(storage, picker, downloads),
        0 <= room,
    ensures
        request_plan(storage, picker, downloads, room).picker.own == picker.own,
{
    lemma_plan(storage, picker, downloads, room);
}

} // verus!
