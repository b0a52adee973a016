//! What holds of peer sessions, whatever the events.

use vstd::prelude::*;

use crate::bitfield::resized;
use crate::block::BlockInfo;
use crate::download::{
    download_cancelled, is_requested, lemma_tracked_download, requests_tracked,
    Block as BlockState,
};
use crate::peer::codec::{HandshakeView, Message, MessageView};
use crate::peer::error::PeerError;
use crate::peer::pipeline::{
    law_only_free_blocks_are_requested, law_only_pickable_pieces_are_started,
    law_owned_pieces_are_not_requested, law_requests_fill_the_room, lemma_plan_keeps_own,
    request_plan,
};
use crate::peer::session::{
    lemma_cancelled_wf, position_of, protocol_len, request_actions, room_for, ActionView,
    Command, Event, Model,
};
use crate::peer::status::{
    best_queue_len, law_best_queue_holds_a_second, PeerInfoView, Rates, State, StatusView,
};
use crate::storage_info::StorageInfo;
use crate::time::Instant;
use crate::torrent::context::shared_wf;

verus! {

/// Each block that we requested is handed to disk when it arrives, before anything else
/// is done, whether or not it is the last one of its piece. What follows are requests.
pub proof fn law_requested_block_is_saved(
    model: Model,
    storage: StorageInfo,
    block: BlockInfo,
    data: Seq<u8>,
    now: Instant,
)
    requires
        model.outgoing.contains(block),
        data.len() == block.len,
    ensures
        ({
            let msg = MessageView::Block(block.piece_index, block.offset, data);
            &&& model.on_message(storage, msg, now).result matches Ok(actions)
            &&& actions.len() >= 1
            &&& actions[0] == ActionView::WriteBlock(block, data)
            &&& forall|i: int|
                1 <= i < actions.len() ==> (#[trigger] actions[i]) is Send && actions[i]->Send_0
                    is Request
        }),
{
    let msg = MessageView::Block(block.piece_index, block.offset, data);
    let counted = model.counting(msg);
    let received = counted.after_block(block, now);
    let requests = received.plan(storage).requests;
    let actions = seq![ActionView::WriteBlock(block, data)] + request_actions(requests);
    assert(model.on_message(storage, msg, now).result->Ok_0 == actions);
    assert forall|i: int| 1 <= i < actions.len() implies (#[trigger] actions[i]) is Send
        && actions[i]->Send_0 is Request by {
        assert(actions[i] == request_actions(requests)[i - 1]);
    }
}

/// The state of the piece picker and the downloads stays consistent when a block is
/// received.
proof fn lemma_after_block_wf(
    model: Model,
    storage: StorageInfo,
    block: BlockInfo,
    now: Instant,
    pos: int,
)
    requires
        shared_wf(storage, model.picker, model.downloads),
        requests_tracked(model.downloads, model.outgoing),
        model.outgoing.contains(block),
        0 <= pos < model.downloads.len(),
        model.downloads[pos].index == block.piece_index,
    ensures
        ({
            let after = model.after_block(block, now);
            let slot = block.offset as int / 0x4000;
            let download = model.downloads[pos].with_block(block, BlockState::Received);
            &&& 0 <= slot < model.downloads[pos].blocks.len()
            &&& block == model.downloads[pos].block_info(slot)
            &&& model.downloads[pos].blocks[slot] == BlockState::Requested
            &&& download.wf()
            &&& shared_wf(storage, after.picker, after.downloads)
            &&& after.downloads == if download.complete() {
                model.downloads.remove(pos)
            } else {
                model.downloads.update(pos, download)
            }
            &&& after.picker == if download.complete() {
                model.picker.after_receive(block.piece_index as int)
            } else {
                model.picker
            }
        }),
{
    assert(is_requested(model.downloads, block));
    let at = lemma_tracked_download(model.downloads, block);
    assert(model.downloads[at].index == model.downloads[pos].index);
    assert(at == pos);
    let chosen = position_of(model.downloads, block.piece_index);
    assert(model.downloads[chosen].index == model.downloads[pos].index);
    assert(chosen == pos);
    let d = model.downloads[pos];
    assert(d.wf());
    let download = d.with_block(block, BlockState::Received);
    let after = model.after_block(block, now);
    assert forall|i: int| 0 <= i < after.downloads.len() implies {
        &&& (#[trigger] after.downloads[i]).wf()
        &&& after.downloads[i].index < storage.piece_count
        &&& after.downloads[i].len == storage.len_of_piece(after.downloads[i].index as int)
        &&& after.picker.pieces[after.downloads[i].index as int].is_pending
    } by {
        if download.complete() {
            let p = if i < pos {
                i
            } else {
                i + 1
            };
            assert(after.downloads[i] == model.downloads[p]);
            assert(model.downloads[p].wf());
            assert(model.downloads[p].index != model.downloads[pos].index);
        } else {
            assert(model.downloads[i].wf());
            assert(model.downloads[i].index == after.downloads[i].index);
        }
    }
    assert forall|i: int, j: int|
        0 <= i < after.downloads.len() && 0 <= j < after.downloads.len() && i != j implies (
    #[trigger] after.downloads[i]).index != (#[trigger] after.downloads[j]).index by {
        if download.complete() {
            let p = if i < pos {
                i
            } else {
                i + 1
            };
            let q = if j < pos {
                j
            } else {
                j + 1
            };
            assert(after.downloads[i] == model.downloads[p]);
            assert(after.downloads[j] == model.downloads[q]);
        } else {
            assert(model.downloads[i].index != model.downloads[j].index);
        }
    }
}

/// A block that was requested and arrives is not pending any more and is not requested
/// again. If it was the last missing one of its piece, we have the piece from then on,
/// and otherwise the block is marked as received. What else we have does not change.
pub proof fn law_received_block_completes_its_piece(
    model: Model,
    storage: StorageInfo,
    block: BlockInfo,
    data: Seq<u8>,
    now: Instant,
    pos: int,
    other: int,
)
    requires
        model.wf(storage),
        model.outgoing.contains(block),
        data.len() == block.len,
        0 <= pos < model.downloads.len(),
        model.downloads[pos].index == block.piece_index,
        0 <= other < storage.piece_count,
        other != block.piece_index,
    ensures
        ({
            let msg = MessageView::Block(block.piece_index, block.offset, data);
            let after = model.on_message(storage, msg, now).model;
            let slot = block.offset as int / 0x4000;
            let blocks = model.downloads[pos].blocks;
            let last = forall|k: int|
                0 <= k < blocks.len() && k != slot ==> #[trigger] blocks[k] == BlockState::Received;
            &&& !after.outgoing.contains(block)
            &&& last ==> after.picker.own[block.piece_index as int]
            &&& !last ==> after.picker.own == model.picker.own
            &&& !last ==> {
                &&& after.downloads[pos].index == block.piece_index
                &&& after.downloads[pos].blocks[slot] == BlockState::Received
            }
            &&& after.picker.own[other] == model.picker.own[other]
        }),
{
    let msg = MessageView::Block(block.piece_index, block.offset, data);
    let counted = model.counting(msg);
    let received = counted.after_block(block, now);
    let slot = block.offset as int / 0x4000;
    let blocks = model.downloads[pos].blocks;
    let download = model.downloads[pos].with_block(block, BlockState::Received);
    lemma_after_block_wf(counted, storage, block, now, pos);
    let plan = received.plan(storage);
    let after = model.on_message(storage, msg, now).model;
    assert(download.blocks == blocks.update(slot, BlockState::Received));
    let last = forall|k: int|
        0 <= k < blocks.len() && k != slot ==> #[trigger] blocks[k] == BlockState::Received;
    assert(last <==> download.complete()) by {
        if last {
            assert forall|k: int| 0 <= k < download.blocks.len() implies #[trigger] download.blocks[k]
                == BlockState::Received by {
                if k != slot {
                    assert(blocks[k] == BlockState::Received);
                }
            }
        }
        if download.complete() {
            assert forall|k: int| 0 <= k < blocks.len() && k != slot implies #[trigger] blocks[k]
                == BlockState::Received by {
                assert(download.blocks[k] == BlockState::Received);
            }
        }
    }
    let room = room_for(received.status.target(), received.outgoing.len()) as int;
    if !received.status.is_choked {
        law_only_pickable_pieces_are_started(
            storage,
            received.picker,
            received.downloads,
            room,
            received.downloads.len() as int,
            other,
        );
        lemma_not_requested_again(storage, received, block, room, pos, slot, last);
        if !last {
            law_only_free_blocks_are_requested(
                storage,
                received.picker,
                received.downloads,
                room,
                pos,
                slot,
            );
        }
    }
    assert(!plan.requests.contains(block));
    assert(!plan.requests.to_set().contains(block));
}

/// A block of a piece that we have, or that was received, is not requested.
proof fn lemma_not_requested_again(
    storage: StorageInfo,
    received: Model,
    block: BlockInfo,
    room: int,
    pos: int,
    slot: int,
    last: bool,
)
    requires
        shared_wf(storage, received.picker, received.downloads),
        0 <= room,
        block.piece_index < storage.piece_count,
        last ==> received.picker.own[block.piece_index as int] && forall|i: int|
            0 <= i < received.downloads.len() ==> (#[trigger] received.downloads[i]).index
                != block.piece_index,
        !last ==> {
            &&& 0 <= pos < received.downloads.len()
            &&& 0 <= slot < received.downloads[pos].blocks.len()
            &&& received.downloads[pos].block_info(slot) == block
            &&& received.downloads[pos].blocks[slot] == BlockState::Received
        },
    ensures
        !request_plan(
            storage,
            received.picker,
            received.downloads,
            room,
        ).requests.contains(block),
{
    if last {
        law_owned_pieces_are_not_requested(
            storage,
            received.picker,
            received.downloads,
            room,
            block,
        );
    } else {
        law_only_free_blocks_are_requested(
            storage,
            received.picker,
            received.downloads,
            room,
            pos,
            slot,
        );
    }
}

/// When our last request was made longer ago than the request timeout, our requests are
/// cancelled, whatever else the status is. That is recorded, and the slow start ends. At
/// most one request is made anew, and it alone is pending then. If we are choked, none is
/// made, and otherwise there is one if there were any.
pub proof fn law_requests_time_out(
    model: Model,
    storage: StorageInfo,
    last: Instant,
    now: Instant,
    rates: Rates,
)
    requires
        model.wf(storage),
        model.status.last_outgoing_request_time == Some(last),
        now.nanos - last.nanos > model.status.request_timeout(),
        model.status.timed_out_request_count < u64::MAX,
    ensures
        ({
            let outcome = model.on_event(storage, Event::Tick { now, rates });
            let after = outcome.model;
            let requests = model.tick_requests(storage, now);
            &&& after.status.timed_out_request_count == model.status.timed_out_request_count + 1
            &&& !after.status.in_slow_start
            &&& requests.len() <= 1
            &&& model.status.is_choked ==> requests.len() == 0
            &&& !model.status.is_choked && model.outgoing.len() > 0 ==> requests.len() == 1
            &&& forall|block: BlockInfo|
                after.outgoing.contains(block) <==> #[trigger] requests.contains(block)
            &&& outcome.result matches Ok(actions)
            &&& actions.len() == requests.len()
            &&& requests.len() == 1 ==> actions[0] == ActionView::Send(
                MessageView::Request(requests[0]),
            )
            &&& requests.len() == 1 ==> after.status.last_outgoing_request_time == Some(now)
            &&& requests.len() == 0 ==> after.status.last_outgoing_request_time == Some(last)
            &&& after.status.same_connection(model.status)
            &&& after.incoming == model.incoming
            &&& after.picker.own == model.picker.own
        }),
{
    let outcome = model.on_event(storage, Event::Tick { now, rates });
    let after = outcome.model;
    let requests = model.tick_requests(storage, now);
    let idle = model.after_timeout();
    lemma_request_timeout_is_positive(model.status);
    assert(model.timed_out(now));
    lemma_cancelled_wf(storage, model);
    if !model.status.is_choked {
        assert(room_for(idle.status.target(), idle.outgoing.len()) == 1);
        law_requests_fill_the_room(storage, idle.picker, idle.downloads, 1);
        lemma_plan_keeps_own(storage, idle.picker, idle.downloads, 1);
        if model.outgoing.len() > 0 {
            let block = model.outgoing.choose();
            assert(model.outgoing.contains(block));
            law_timed_out_requests_are_free(model, storage, block, last, now, rates);
            assert(requests.len() == 1);
        }
    }
    assert forall|block: BlockInfo|
        after.outgoing.contains(block) <==> #[trigger] requests.contains(block) by {
        assert(requests.to_set().contains(block) <==> requests.contains(block));
    }
}

/// A request times out a while after it was made, and not at once.
proof fn lemma_request_timeout_is_positive(status: StatusView)
    ensures
        status.request_timeout() > 0,
{
}

/// The block of a request that timed out and is not made anew can be requested again, by
/// this session or by another one.
pub proof fn law_timed_out_requests_are_free(
    model: Model,
    storage: StorageInfo,
    block: BlockInfo,
    last: Instant,
    now: Instant,
    rates: Rates,
) -> (pos: int)
    requires
        model.wf(storage),
        model.outgoing.contains(block),
        model.status.last_outgoing_request_time == Some(last),
        now.nanos - last.nanos > model.status.request_timeout(),
    ensures
        0 <= pos < model.downloads.len(),
        ({
            let after = model.on_event(storage, Event::Tick { now, rates }).model;
            let requests = model.tick_requests(storage, now);
            let slot = block.offset as int / 0x4000;
            &&& pos < after.downloads.len()
            &&& after.downloads[pos].index == block.piece_index
            &&& 0 <= slot < after.downloads[pos].blocks.len()
            &&& after.downloads[pos].block_info(slot) == block
            &&& after.downloads[pos].blocks[slot] == if requests.contains(block) {
                BlockState::Requested
            } else {
                BlockState::Free
            }
        }),
{
    assert(is_requested(model.downloads, block));
    let pos = lemma_tracked_download(model.downloads, block);
    let slot = block.offset as int / 0x4000;
    let idle = model.after_timeout();
    lemma_request_timeout_is_positive(model.status);
    assert(model.timed_out(now));
    lemma_cancelled_wf(storage, model);
    assert(model.downloads[pos].wf());
    assert(idle.downloads[pos] == download_cancelled(model.downloads[pos], model.outgoing));
    assert(idle.downloads[pos].blocks[slot] == BlockState::Free);
    assert(idle.downloads[pos].block_info(slot) == block);
    if !model.status.is_choked {
        let room = room_for(idle.status.target(), idle.outgoing.len()) as int;
        law_only_free_blocks_are_requested(
            storage,
            idle.picker,
            idle.downloads,
            room,
            pos,
            slot,
        );
        law_only_pickable_pieces_are_started(
            storage,
            idle.picker,
            idle.downloads,
            room,
            idle.downloads.len() as int,
            block.piece_index as int,
        );
    }
    pos
}

/// As long as the request timeout has not passed since our last request, or if there was
/// none, a round ends without any change to the requests.
pub proof fn law_requests_wait_for_the_timeout(
    model: Model,
    storage: StorageInfo,
    now: Instant,
    rates: Rates,
)
    requires
        model.status.last_outgoing_request_time matches Some(last) ==> now.nanos - last.nanos
            <= model.status.request_timeout(),
    ensures
        ({
            let outcome = model.on_event(storage, Event::Tick { now, rates });
            &&& outcome.result == Ok::<Seq<ActionView>, PeerError>(Seq::empty())
            &&& outcome.model.outgoing == model.outgoing
            &&& outcome.model.incoming == model.incoming
            &&& outcome.model.picker == model.picker
            &&& outcome.model.downloads == model.downloads
            &&& outcome.model.status.timed_out_request_count
                == model.status.timed_out_request_count
            &&& outcome.model.status.last_outgoing_request_time
                == model.status.last_outgoing_request_time
            &&& outcome.model.status.same_connection(model.status)
        }),
{
    lemma_request_timeout_is_positive(model.status);
    assert(!model.timed_out(now));
    assert(request_actions(Seq::empty()) =~= Seq::<ActionView>::empty());
}

/// What is left in a session after it has made its requests.
proof fn lemma_after_requests(model: Model, storage: StorageInfo, now: Instant)
    requires
        shared_wf(storage, model.picker, model.downloads),
        model.status.uploaded_protocol.has_room(17 * model.status.target() as int),
    ensures
        ({
            let after = model.after_requests(storage, now);
            let requests = model.plan(storage).requests;
            let target = match model.status.target_request_queue_len {
                Some(len) => len as int,
                None => 0,
            };
            &&& model.status.is_choked ==> requests.len() == 0
            &&& requests.len() > 0 ==> requests.len() + model.outgoing.len() <= target
            &&& !model.status.is_choked && requests.len() + model.outgoing.len() < target ==> {
                &&& forall|i: int, k: int|
                    0 <= i < after.downloads.len() && 0 <= k < after.downloads[i].blocks.len() ==> (
                    #[trigger] after.downloads[i].blocks[k]) != BlockState::Free
                &&& forall|m: int|
                    0 <= m < storage.piece_count ==> after.picker.own[m] || (
                    #[trigger] after.picker.pieces[m]).frequency == 0
                        || after.picker.pieces[m].is_pending
            }
            &&& forall|b: BlockInfo| #[trigger]
                after.outgoing.contains(b) <==> model.outgoing.contains(b) || requests.contains(b)
            &&& after.status.uploaded_protocol.total == model.status.uploaded_protocol.total + 17
                * requests.len()
            &&& after.status.last_outgoing_request_time == if requests.len() > 0 {
                Some(now)
            } else {
                model.status.last_outgoing_request_time
            }
            &&& after.status == (StatusView {
                uploaded_protocol: after.status.uploaded_protocol,
                last_outgoing_request_time: after.status.last_outgoing_request_time,
                ..model.status
            })
            &&& after.picker.own == model.picker.own
            &&& after.incoming == model.incoming
        }),
{
    let after = model.after_requests(storage, now);
    let requests = model.plan(storage).requests;
    let room = room_for(model.status.target(), model.outgoing.len()) as int;
    if !model.status.is_choked {
        law_requests_fill_the_room(storage, model.picker, model.downloads, room);
        lemma_plan_keeps_own(storage, model.picker, model.downloads, room);
    }
    assert forall|b: BlockInfo| #[trigger]
        after.outgoing.contains(b) <==> model.outgoing.contains(b) || requests.contains(b) by {
        assert(requests.to_set().contains(b) <==> requests.contains(b));
    }
    assert(requests.len() <= model.status.target());
    assert(17 * requests.len() <= 17 * model.status.target());
}

/// A requested block that arrives is counted, and the request queue is filled up again:
/// it has the target length then, or there is nothing left to request. In slow start the
/// target grows by one, and otherwise it follows the download rate.
pub proof fn law_block_is_followed_by_requests(
    model: Model,
    storage: StorageInfo,
    block: BlockInfo,
    data: Seq<u8>,
    now: Instant,
    pos: int,
)
    requires
        model.wf(storage),
        model.outgoing.contains(block),
        data.len() == block.len,
        model.can_handle(MessageView::Block(block.piece_index, block.offset, data), now),
        0 <= pos < model.downloads.len(),
        model.downloads[pos].index == block.piece_index,
    ensures
        ({
            let msg = MessageView::Block(block.piece_index, block.offset, data);
            let outcome = model.on_message(storage, msg, now);
            let after = outcome.model;
            let target = match after.status.target_request_queue_len {
                Some(len) => len as int,
                None => 0,
            };
            &&& outcome.result matches Ok(actions)
            &&& {
                let made = actions.len() - 1;
                let pending = model.outgoing.len() - 1;
                &&& model.status.is_choked ==> made == 0
                &&& made > 0 ==> made + pending <= target
                &&& !model.status.is_choked && made + pending < target ==> {
                    &&& forall|i: int, k: int|
                        0 <= i < after.downloads.len() && 0 <= k < after.downloads[i].blocks.len()
                            ==> (#[trigger] after.downloads[i].blocks[k]) != BlockState::Free
                    &&& forall|m: int|
                        0 <= m < storage.piece_count ==> after.picker.own[m] || (
                        #[trigger] after.picker.pieces[m]).frequency == 0
                            || after.picker.pieces[m].is_pending
                }
                &&& after.status.uploaded_protocol.total == model.status.uploaded_protocol.total
                    + 17 * made
                &&& after.status.last_outgoing_request_time == if made > 0 {
                    Some(now)
                } else {
                    model.status.last_outgoing_request_time
                }
            }
            &&& after.status.downloaded_payload.total == model.status.downloaded_payload.total
                + block.len
            &&& after.status.downloaded_protocol.total == model.status.downloaded_protocol.total
                + 13
            &&& after.status.last_incoming_block_time == Some(now)
            &&& model.status.target_request_queue_len is None
                ==> after.status.target_request_queue_len is None
            &&& model.status.target_request_queue_len matches Some(len)
                ==> after.status.target_request_queue_len == Some(
                if model.status.in_slow_start {
                    (len + 1) as usize
                } else {
                    best_queue_len(model.status.downloaded_payload.avg)
                },
            )
            &&& after.status.in_slow_start == model.status.in_slow_start
            &&& after.status.is_choked == model.status.is_choked
            &&& after.status.is_interested == model.status.is_interested
            &&& after.status.is_peer_choked == model.status.is_peer_choked
            &&& after.status.is_peer_interested == model.status.is_peer_interested
            &&& after.status.peer == model.status.peer
            &&& after.status.timed_out_request_count == model.status.timed_out_request_count
            &&& after.incoming == model.incoming
            &&& forall|b: BlockInfo|
                model.outgoing.contains(b) && b != block ==> #[trigger] after.outgoing.contains(b)
        }),
{
    let msg = MessageView::Block(block.piece_index, block.offset, data);
    let counted = model.counting(msg);
    let received = counted.after_block(block, now);
    lemma_after_block_wf(counted, storage, block, now, pos);
    let requests = received.plan(storage).requests;
    let actions = seq![ActionView::WriteBlock(block, data)] + request_actions(requests);
    assert(model.on_message(storage, msg, now).result->Ok_0 == actions);
    lemma_after_requests(received, storage, now);
    assert(received.outgoing.len() == model.outgoing.len() - 1);
}

/// When the peer unchokes us and we are interested, the download begins with a short
/// queue: we are in slow start, and requests are made until four are pending or there is
/// nothing left to request. Each request that is sent is pending from then on.
pub proof fn law_unchoke_begins_the_download(
    model: Model,
    storage: StorageInfo,
    now: Instant,
    block: BlockInfo,
)
    requires
        model.wf(storage),
        model.can_handle(MessageView::Unchoke, now),
        model.status.is_choked,
        model.status.is_interested,
    ensures
        ({
            let outcome = model.on_message(storage, MessageView::Unchoke, now);
            let after = outcome.model;
            let request = ActionView::Send(MessageView::Request(block));
            &&& !after.status.is_choked
            &&& after.status.in_slow_start
            &&& after.status.target_request_queue_len == Some(4usize)
            &&& outcome.result matches Ok(actions)
            &&& actions.len() > 0 ==> actions.len() + model.outgoing.len() <= 4
            &&& actions.len() + model.outgoing.len() < 4 ==> {
                &&& forall|i: int, k: int|
                    0 <= i < after.downloads.len() && 0 <= k < after.downloads[i].blocks.len() ==> (
                    #[trigger] after.downloads[i].blocks[k]) != BlockState::Free
                &&& forall|m: int|
                    0 <= m < storage.piece_count ==> after.picker.own[m] || (
                    #[trigger] after.picker.pieces[m]).frequency == 0
                        || after.picker.pieces[m].is_pending
            }
            &&& forall|i: int|
                0 <= i < actions.len() ==> (#[trigger] actions[i]) is Send && actions[i]->Send_0
                    is Request
            &&& after.outgoing.contains(block) <==> model.outgoing.contains(block)
                || actions.contains(request)
            &&& after.status.uploaded_protocol.total == model.status.uploaded_protocol.total + 17
                * actions.len()
            &&& after.status.downloaded_protocol.total == model.status.downloaded_protocol.total + 5
            &&& after.status.last_outgoing_request_time == if actions.len() > 0 {
                Some(now)
            } else {
                model.status.last_outgoing_request_time
            }
            &&& after.status.is_interested
            &&& after.status.is_peer_choked == model.status.is_peer_choked
            &&& after.status.is_peer_interested == model.status.is_peer_interested
            &&& after.status.peer == model.status.peer
            &&& after.incoming == model.incoming
            &&& after.picker.own == model.picker.own
        }),
{
    let counted = model.counting(MessageView::Unchoke);
    let prepared = Model {
        status: (StatusView { is_choked: false, ..counted.status }).prepared(),
        ..counted
    };
    lemma_after_requests(prepared, storage, now);
    let requests = prepared.plan(storage).requests;
    let actions = request_actions(requests);
    let request = ActionView::Send(MessageView::Request(block));
    assert(model.on_message(storage, MessageView::Unchoke, now).result->Ok_0 == actions);
    if requests.contains(block) {
        let i = choose|i: int| 0 <= i < requests.len() && requests[i] == block;
        assert(actions[i] == request);
    }
    if actions.contains(request) {
        let i = choose|i: int| 0 <= i < actions.len() && actions[i] == request;
        assert(requests[i] == block);
    }
}

/// The messages with which peers tell each other that they are choked or interested
/// change nothing but the flag that they are about: the flag is set whatever it was. A
/// peer that becomes interested is unchoked. A choke drops our requests. An unchoke that
/// we have no use for, and a keep alive, ask for nothing.
pub proof fn law_messages_set_their_flags(model: Model, storage: StorageInfo, now: Instant)
    requires
        model.status.state == State::Connected,
    ensures
        ({
            let nothing = Ok::<Seq<ActionView>, PeerError>(Seq::empty());
            let alive = model.on_message(storage, MessageView::KeepAlive, now);
            let choked = model.on_message(storage, MessageView::Choke, now);
            let unchoked = model.on_message(storage, MessageView::Unchoke, now);
            let interested = model.on_message(storage, MessageView::Interested, now);
            let uninterested = model.on_message(storage, MessageView::NotInterested, now);
            let with = |n: int, status: StatusView|
                StatusView {
                    downloaded_protocol: model.status.downloaded_protocol.plus(n),
                    ..status
                };
            let status = model.status;
            &&& alive.result == nothing
            &&& alive.model == (Model { status: with(4, status), ..model })
            &&& choked.result == nothing
            &&& choked.model == (Model {
                status: with(5, StatusView { is_choked: true, ..status }),
                outgoing: if status.is_choked {
                    model.outgoing
                } else {
                    Set::empty()
                },
                ..model
            })
            &&& !status.is_choked || !status.is_interested ==> {
                &&& unchoked.result == nothing
                &&& unchoked.model == (Model {
                    status: with(5, StatusView { is_choked: false, ..status }),
                    ..model
                })
            }
            &&& interested.result == if status.is_peer_interested {
                nothing
            } else {
                Ok(seq![ActionView::Send(MessageView::Unchoke)])
            }
            &&& interested.model == (Model {
                status: with(
                    5,
                    StatusView {
                        is_peer_interested: true,
                        is_peer_choked: status.is_peer_choked && status.is_peer_interested,
                        ..status
                    },
                ),
                ..model
            })
            &&& uninterested.result == nothing
            &&& uninterested.model == (Model {
                status: with(5, StatusView { is_peer_interested: false, ..status }),
                ..model
            })
        }),
{
}

/// A peer that is not choked gets each block that it requests, once, unless it cancels
/// the request: the block is read from disk and then sent and counted. Other requests
/// don't change.
pub proof fn law_requests_of_the_peer_are_served(
    model: Model,
    storage: StorageInfo,
    block: BlockInfo,
    other: BlockInfo,
    data: Seq<u8>,
    now: Instant,
)
    requires
        model.status.state == State::Connected,
        !model.status.is_peer_choked,
        !model.incoming.contains(block),
        data.len() == block.len,
        model.status.uploaded_payload.has_room(block.len as int),
        other != block,
    ensures
        ({
            let first = model.on_message(storage, MessageView::Request(block), now);
            let read = first.model.on_read_block(block.piece_index, block.offset, data);
            let again = read.model.on_read_block(block.piece_index, block.offset, data);
            let cancel = first.model.on_message(storage, MessageView::Cancel(block), now);
            &&& first.result == Ok::<Seq<ActionView>, PeerError>(
                seq![ActionView::ReadBlock(block)],
            )
            &&& first.model.incoming.contains(block)
            &&& first.model.incoming.contains(other) == model.incoming.contains(other)
            &&& first.model.outgoing == model.outgoing
            &&& first.model.picker == model.picker
            &&& first.model.downloads == model.downloads
            &&& first.model.status == (StatusView {
                downloaded_protocol: model.status.downloaded_protocol.plus(17),
                ..model.status
            })
            &&& read.result == Ok::<Seq<ActionView>, PeerError>(
                seq![
                    ActionView::Send(MessageView::Block(block.piece_index, block.offset, data)),
                ],
            )
            &&& !read.model.incoming.contains(block)
            &&& read.model.incoming.contains(other) == model.incoming.contains(other)
            &&& read.model.outgoing == model.outgoing
            &&& read.model.picker == model.picker
            &&& read.model.downloads == model.downloads
            &&& read.model.status.uploaded_payload.total == model.status.uploaded_payload.total
                + block.len
            &&& read.model.status.uploaded_payload.round == model.status.uploaded_payload.round
                + block.len
            &&& again.result == Ok::<Seq<ActionView>, PeerError>(Seq::empty())
            &&& again.model == read.model
            &&& cancel.result == Ok::<Seq<ActionView>, PeerError>(Seq::empty())
            &&& !cancel.model.incoming.contains(block)
            &&& cancel.model.incoming.contains(other) == model.incoming.contains(other)
            &&& cancel.model.status.same_connection(model.status)
        }),
{
}

/// The bitfield that a peer sends directly after the handshake tells which pieces it has.
/// If there is one that we don't have, we are interested and let the peer know, and
/// otherwise we are not and nothing is sent. Each of the peer's pieces is available from
/// one more peer. The connection is established then.
pub proof fn law_bitfield_tells_what_a_peer_has(
    model: Model,
    storage: StorageInfo,
    bits: Seq<bool>,
    now: Instant,
    i: int,
)
    requires
        shared_wf(storage, model.picker, model.downloads),
        model.status.state == State::AvailabilityExchange,
        model.status.uploaded_protocol.has_room(5),
        model.picker.has_room(),
        0 <= i < storage.piece_count,
    ensures
        ({
            let outcome = model.on_message(storage, MessageView::Bitfield(bits), now);
            let after = outcome.model;
            let has = i < bits.len() && bits[i];
            let wanted = exists|k: int|
                0 <= k < storage.piece_count && k < bits.len() && #[trigger] bits[k]
                    && !model.picker.own[k];
            &&& after.status.state == State::Connected
            &&& has && !model.picker.own[i] ==> after.status.is_interested
            &&& after.status.is_interested == wanted
            &&& outcome.result == Ok::<Seq<ActionView>, PeerError>(
                if wanted {
                    seq![ActionView::Send(MessageView::Interested)]
                } else {
                    Seq::empty()
                },
            )
            &&& after.status.uploaded_protocol.total == model.status.uploaded_protocol.total + if wanted {
                5int
            } else {
                0
            }
            &&& after.status.peer is Some == model.status.peer is Some
            &&& model.status.peer matches Some(peer) ==> {
                &&& after.status.peer matches Some(known)
                &&& known.id == peer.id
                &&& known.pieces matches Some(pieces)
                &&& pieces.len() == storage.piece_count
                &&& pieces[i] == has
            }
            &&& after.picker.own == model.picker.own
            &&& after.picker.pieces.len() == model.picker.pieces.len()
            &&& after.picker.pieces[i].is_pending == model.picker.pieces[i].is_pending
            &&& after.picker.pieces[i].frequency == model.picker.pieces[i].frequency + if has {
                1int
            } else {
                0
            }
            &&& after.downloads == model.downloads
            &&& after.outgoing == model.outgoing
            &&& after.incoming == model.incoming
            &&& after.status == (StatusView {
                state: after.status.state,
                is_interested: after.status.is_interested,
                peer: after.status.peer,
                uploaded_protocol: after.status.uploaded_protocol,
                ..model.status
            })
        }),
{
    let pieces = resized(bits, storage.piece_count as nat, false);
    let wanted = exists|k: int|
        0 <= k < storage.piece_count && k < bits.len() && #[trigger] bits[k]
            && !model.picker.own[k];
    assert(model.picker.has_room());
    assert(model.picker.pieces[i].frequency < usize::MAX);
    if wanted {
        let k = choose|k: int|
            0 <= k < storage.piece_count && k < bits.len() && #[trigger] bits[k]
                && !model.picker.own[k];
        assert(!model.picker.own[k] && pieces[k]);
    }
    if model.wants(storage, bits) {
        let k = choose|k: int|
            0 <= k < model.picker.own.len() && k < pieces.len() && !#[trigger] model.picker.own[k]
                && pieces[k];
        assert(bits[k]);
    }
}

/// A peer that tells us of a piece has that piece from then on, besides what it had, and
/// the piece is available from one more peer. We are interested if we lack the piece, or
/// any other one that the peer has. A piece that the torrent doesn't have ends the
/// session.
pub proof fn law_have_tells_of_a_new_piece(
    model: Model,
    storage: StorageInfo,
    index: usize,
    now: Instant,
    i: int,
)
    requires
        model.wf(storage),
        model.status.state == State::Connected,
        model.picker.has_room(),
        0 <= i < storage.piece_count,
    ensures
        ({
            let outcome = model.on_message(storage, MessageView::Have(index), now);
            let after = outcome.model;
            let known = |k: int|
                (model.status.peer matches Some(peer) && (peer.pieces matches Some(pieces)
                    && pieces[k]));
            let wanted = exists|k: int|
                0 <= k < storage.piece_count && (k == index || known(k))
                    && !#[trigger] model.picker.own[k];
            &&& index >= storage.piece_count ==> {
                &&& outcome.result == Err::<Seq<ActionView>, PeerError>(
                    PeerError::InvalidPieceIndex,
                )
                &&& after.picker == model.picker
                &&& after.status.same_connection(model.status)
            }
            &&& index < storage.piece_count ==> {
                &&& outcome.result == Ok::<Seq<ActionView>, PeerError>(Seq::empty())
                &&& after.status.is_interested == wanted
                &&& !model.picker.own[index as int] ==> after.status.is_interested
                &&& after.picker.own == model.picker.own
                &&& after.picker.pieces.len() == model.picker.pieces.len()
                &&& after.picker.pieces[i].is_pending == model.picker.pieces[i].is_pending
                &&& after.picker.pieces[i].frequency == model.picker.pieces[i].frequency + if i
                    == index {
                    1int
                } else {
                    0
                }
                &&& after.status.peer is Some == model.status.peer is Some
                &&& model.status.peer matches Some(peer) ==> {
                    &&& after.status.peer matches Some(told)
                    &&& told.id == peer.id
                    &&& told.pieces matches Some(pieces)
                    &&& pieces.len() == storage.piece_count
                    &&& pieces[i] == (i == index || known(i))
                }
            }
            &&& after.downloads == model.downloads
            &&& after.outgoing == model.outgoing
            &&& after.incoming == model.incoming
            &&& after.status == (StatusView {
                is_interested: after.status.is_interested,
                peer: after.status.peer,
                downloaded_protocol: model.status.downloaded_protocol.plus(9),
                ..model.status
            })
        }),
{
    let counted = model.counting(MessageView::Have(index));
    let pieces = counted.pieces_with(storage, index as int);
    let known = |k: int|
        (model.status.peer matches Some(peer) && (peer.pieces matches Some(pieces) && pieces[k]));
    let wanted = exists|k: int|
        0 <= k < storage.piece_count && (k == index || known(k)) && !#[trigger] model.picker.own[k];
    if index < storage.piece_count {
        assert(pieces.len() == storage.piece_count);
        assert(model.picker.pieces[index as int].frequency < usize::MAX);
        assert forall|k: int| 0 <= k < storage.piece_count implies #[trigger] pieces[k] == (k
            == index || known(k)) by {}
        if wanted {
            let k = choose|k: int|
                0 <= k < storage.piece_count && (k == index || known(k))
                    && !#[trigger] model.picker.own[k];
            assert(pieces[k] && !model.picker.own[k]);
        }
        if model.picker.interested(pieces) {
            let k = choose|k: int|
                0 <= k < model.picker.own.len() && k < pieces.len()
                    && !#[trigger] model.picker.own[k] && pieces[k];
            assert(k == index || known(k));
            assert(!model.picker.own[k]);
        }
    }
}

/// Each message is counted with the bytes that it takes on the wire, but of a block only
/// what is not data counts as protocol overhead.
pub proof fn law_messages_are_counted(
    model: Model,
    storage: StorageInfo,
    msg: MessageView,
    now: Instant,
)
    requires
        model.status.state == State::Connected,
        model.status.downloaded_protocol.has_room(protocol_len(msg)),
    ensures
        ({
            let counted = model.on_message(storage, msg, now).model.status.downloaded_protocol;
            let len = match msg {
                MessageView::KeepAlive => 4,
                MessageView::Bitfield(bits) => 5 + (bits.len() + 7) / 8,
                MessageView::Have(_) => 9,
                MessageView::Request(_) => 17,
                MessageView::Cancel(_) => 17,
                MessageView::Block(_, _, _) => 13,
                _ => 5,
            };
            &&& counted.total == model.status.downloaded_protocol.total + len
            &&& counted.round == model.status.downloaded_protocol.round + len
            &&& counted.avg == model.status.downloaded_protocol.avg
            &&& counted.peak == model.status.downloaded_protocol.peak
        }),
{
    assert(model.status.downloaded_protocol.plus(protocol_len(msg)).total
        == model.status.downloaded_protocol.total + protocol_len(msg));
}

/// Before the bitfield's time is over, any other message is handled as in an established
/// connection, and establishes it.
pub proof fn law_bitfield_is_optional(
    model: Model,
    storage: StorageInfo,
    msg: MessageView,
    now: Instant,
)
    requires
        model.status.state == State::AvailabilityExchange,
        !(msg is Bitfield),
    ensures
        ({
            let early = model.on_message(storage, msg, now);
            let connected = Model {
                status: StatusView { state: State::Connected, ..model.status },
                ..model
            };
            let outcome = connected.on_message(storage, msg, now);
            &&& early.result == outcome.result
            &&& early.result is Ok ==> early.model == outcome.model
        }),
{
}

/// A piece that we downloaded is told to the peer, and neither that nor a shutdown changes
/// the state of the session.
pub proof fn law_new_pieces_are_announced(model: Model, storage: StorageInfo, index: usize)
    ensures
        ({
            let told = model.on_event(storage, Event::Command(Command::NewPiece(index)));
            let stopped = model.on_event(storage, Event::Command(Command::Shutdown));
            &&& told.result == Ok::<Seq<ActionView>, PeerError>(
                seq![ActionView::Send(MessageView::Have(index))],
            )
            &&& told.model == model
            &&& stopped.result == Ok::<Seq<ActionView>, PeerError>(Seq::empty())
            &&& stopped.model == model
        }),
{
}

/// Handshakes are counted with their bytes. A peer with the right info hash is known by
/// the id that it sent, and nothing is known of its pieces yet. Any other peer stays
/// unknown.
pub proof fn law_handshakes_introduce_the_peer(status: StatusView, handshake: HandshakeView)
    requires
        status.downloaded_protocol.has_room(68),
        status.uploaded_protocol.has_room(68),
    ensures
        ({
            let sent = status.after_sent_handshake();
            let accepted = status.after_handshake(handshake, true);
            let refused = status.after_handshake(handshake, false);
            &&& sent.state == State::Handshaking
            &&& sent.uploaded_protocol.total == status.uploaded_protocol.total + 68
            &&& sent.uploaded_protocol.round == status.uploaded_protocol.round + 68
            &&& sent == (StatusView {
                state: sent.state,
                uploaded_protocol: sent.uploaded_protocol,
                ..status
            })
            &&& accepted.peer == Some(PeerInfoView { id: handshake.peer_id, pieces: None })
            &&& refused.peer == status.peer
            &&& accepted.downloaded_protocol.total == status.downloaded_protocol.total + 68
            &&& accepted.downloaded_protocol.round == status.downloaded_protocol.round + 68
            &&& accepted.downloaded_protocol == refused.downloaded_protocol
            &&& accepted == (StatusView {
                peer: accepted.peer,
                downloaded_protocol: accepted.downloaded_protocol,
                ..status
            })
            &&& refused == (StatusView {
                downloaded_protocol: refused.downloaded_protocol,
                ..status
            })
        }),
{
}

/// A session is ready for any event as long as it has not counted an astronomical number
/// of bytes or peers.
pub proof fn law_sessions_are_ready(model: Model, event: Event)
    requires
        model.status.wf(),
        model.status.downloaded_protocol.total <= 0x7fff_ffff_ffff_ffff,
        model.status.uploaded_protocol.total <= 0x7fff_ffff_ffff_ffff,
        model.status.downloaded_payload.total <= 0x7fff_ffff_ffff_ffff,
        model.status.uploaded_payload.total <= 0x7fff_ffff_ffff_ffff,
        model.status.downloaded_payload.avg <= 0x1000_0000_0000,
        model.status.timed_out_request_count < u64::MAX,
        model.status.target_request_queue_len matches Some(len) ==> len <= 0x7fff_ffff,
        model.picker.has_room(),
        event matches Event::Message { now, msg } ==> {
            &&& msg@ matches MessageView::Bitfield(bits) ==> bits.len() <= 0xffff_ffff
            &&& msg matches Message::Block { data, .. } ==> data is Owned
            &&& model.status.last_outgoing_request_time matches Some(last) ==> now.nanos
                - last.nanos <= 0xffff_ffff_ffff_ffff
        },
    ensures
        model.ready_for(event),
{
    let best = best_queue_len(model.status.downloaded_payload.avg);
    law_best_queue_holds_a_second(model.status.downloaded_payload.avg);
    assert(best <= 0x4000_0000);
    assert(model.status.target() <= 0x7fff_ffff);
}

/// A block that we did not request is not saved, and does not count as downloaded. It
/// changes neither what we have nor what is pending.
pub proof fn law_other_blocks_are_dropped(
    model: Model,
    storage: StorageInfo,
    block: BlockInfo,
    data: Seq<u8>,
    now: Instant,
)
    requires
        model.wf(storage),
        !model.outgoing.contains(block),
        data.len() == block.len,
        model.can_handle(MessageView::Block(block.piece_index, block.offset, data), now),
    ensures
        ({
            let msg = MessageView::Block(block.piece_index, block.offset, data);
            let outcome = model.on_message(storage, msg, now);
            let after = outcome.model;
            &&& outcome.result matches Ok(actions)
            &&& forall|i: int|
                0 <= i < actions.len() ==> (#[trigger] actions[i]) is Send && actions[i]->Send_0
                    is Request
            &&& after.status.downloaded_payload == model.status.downloaded_payload
            &&& after.status.downloaded_protocol.total == model.status.downloaded_protocol.total
                + 13
            &&& after.status.target_request_queue_len == model.status.target_request_queue_len
            &&& after.status.last_incoming_block_time == model.status.last_incoming_block_time
            &&& after.picker.own == model.picker.own
            &&& forall|b: BlockInfo|
                model.outgoing.contains(b) ==> #[trigger] after.outgoing.contains(b)
        }),
{
    let msg = MessageView::Block(block.piece_index, block.offset, data);
    let counted = model.counting(msg);
    let requests = request_actions(counted.plan(storage).requests);
    assert(Seq::<ActionView>::empty() + requests =~= requests);
    assert(model.on_message(storage, msg, now).result->Ok_0 == requests);
    lemma_after_requests(counted, storage, now);
}

} // verus!
