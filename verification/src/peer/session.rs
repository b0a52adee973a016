//! The decisions of a peer session.
//!
//! A session reacts to the messages of its peer, to commands of its torrent and to
//! the passing of time. Each reaction changes the state of the session and of what
//! it shares with the other sessions of its torrent, and results in actions, which
//! are performed by the program around it, in the order in which they are given.

use vstd::prelude::*;

use crate::bitfield::{resized, Bitfield};
use crate::block::{Block, BlockData, BlockInfo, PieceIndex};
use crate::download::{
    cancelled, download_cancelled, downloads_wf, is_requested, lemma_tracked_download,
    requests_tracked, Block as BlockState, PieceDownloadView,
};
use crate::hash::hashes_equal;
use crate::peer::codec::{
    handshake_of, Handshake, HandshakeView, Message, MessageId, MessageView,
};
use crate::peer::error::{PeerError, Result};
use crate::peer::pipeline::{adds_requests, nothing_free, plan_requests, request_plan, Plan};
use crate::peer::status::{
    queue_len_for, PeerInfo, PeerInfoView, Rates, State, Status, StatusView,
};
use crate::piece_picker::PickerView;
use crate::requests::RequestSet;
use crate::storage_info::StorageInfo;
use crate::time::{nanos_between, Duration, Instant};
use crate::torrent::context::{shared_wf, TorrentContext};

verus! {

/// The commands peer session can receive.
#[derive(Debug)]
pub enum Command {
    /// The result of reading a block from disk.
    Block(Block),
    /// We have downloaded this piece, of which the peer is to be told.
    NewPiece(PieceIndex),
    /// Eventually shut down the peer session.
    Shutdown,
}

/// What a session asks to be done.
#[derive(Debug)]
pub enum Action {
    /// Send the message to the peer.
    Send(Message),
    /// Validate and save the block to disk.
    WriteBlock { block: BlockInfo, data: Vec<u8> },
    /// Read the block from disk. The result is handed back as a command.
    ReadBlock(BlockInfo),
}

/// What a session asks to be done, with the payload as a mathematical value.
#[verifier::ext_equal]
pub enum ActionView {
    Send(MessageView),
    WriteBlock(BlockInfo, Seq<u8>),
    ReadBlock(BlockInfo),
}

impl View for Action {
    type V = ActionView;

    open spec fn view(&self) -> ActionView {
        match self {
            Action::Send(msg) => ActionView::Send(msg@),
            Action::WriteBlock { block, data } => ActionView::WriteBlock(*block, data@),
            Action::ReadBlock(block) => ActionView::ReadBlock(*block),
        }
    }
}

/// The views of the actions.
pub open spec fn action_views(actions: Seq<Action>) -> Seq<ActionView> {
    actions.map_values(|action: Action| action@)
}

/// The actions that send the requests.
pub open spec fn request_actions(requests: Seq<BlockInfo>) -> Seq<ActionView> {
    requests.map_values(|block: BlockInfo| ActionView::Send(MessageView::Request(block)))
}

/// A stopped or active connection with another BitTorrent peer.
///
/// This entity implements the BitTorrent wire protocol: it is responsible for
/// exchanging the BitTorrent messages that drive a download.
/// It only concerns itself with the network aspect of things: disk IO, for
/// example, is delegated to the disk.
///
/// A peer session may be started in two modes:
/// - outbound: for connecting to another BitTorrent peer;
/// - inbound: for starting a session from an existing incoming TCP connection.
///
/// The only difference in the above two is how the handshake is handled at the
/// beginning of the connection. From then on the session mechanisms are
/// identical.
///
/// # Important
///
/// For now only the BitTorrent v1 specification is implemented, without any
/// extensions.
#[derive(Debug)]
pub struct PeerSession {
    /// Session related information.
    pub status: Status,
    /// Our pending requests that we sent to peer. It represents the blocks that
    /// we are expecting. Thus, if we receive a block that is not in this list,
    /// we need to drop it. If we receive a block whose request entry is in
    /// here, the entry is removed.
    ///
    /// Since the Fast extension is not supported (yet), this is emptied when
    /// we're choked, as in that case we don't expect outstanding requests to be
    /// served.
    ///
    /// Note that if a request for a piece's block is in this queue, there _must_
    /// be a corresponding entry for the piece download in `downloads`.
    pub outgoing_requests: RequestSet,
    /// The requests we got from peer.
    ///
    /// The request's entry is removed from here when the block is transmitted
    /// or when the peer cancels it.
    pub incoming_requests: RequestSet,
}

/// The state of a session together with what it shares with the other sessions of
/// its torrent.
#[verifier::ext_equal]
pub struct Model {
    pub status: StatusView,
    pub outgoing: Set<BlockInfo>,
    pub incoming: Set<BlockInfo>,
    pub picker: PickerView,
    pub downloads: Seq<PieceDownloadView>,
}

/// The state of the session in its torrent.
pub open spec fn model_of(session: PeerSession, torrent: TorrentContext) -> Model {
    Model {
        status: session.status@,
        outgoing: session.outgoing_requests@,
        incoming: session.incoming_requests@,
        picker: torrent.piece_picker@,
        downloads: torrent.downloads@,
    }
}

/// What a session does on an event: its next state, and the actions or the error
/// with which it ends.
#[verifier::ext_equal]
pub struct Outcome {
    pub model: Model,
    pub result: std::result::Result<Seq<ActionView>, PeerError>,
}

/// The position of the download of the piece.
pub open spec fn position_of(downloads: Seq<PieceDownloadView>, index: usize) -> int {
    choose|i: int| 0 <= i < downloads.len() && (#[trigger] downloads[i]).index == index
}

/// Whether a step of a session leaves the other sessions of the torrent alone: what
/// is requested, and not by this session, stays requested, and what the session
/// requests anew was not requested before.
pub open spec fn keeps_others(
    before: Seq<PieceDownloadView>,
    after: Seq<PieceDownloadView>,
    own_before: Set<BlockInfo>,
    own_after: Set<BlockInfo>,
) -> bool {
    &&& forall|block: BlockInfo|
        is_requested(before, block) && !own_before.contains(block) ==> #[trigger] is_requested(
            after,
            block,
        )
    &&& forall|block: BlockInfo| #[trigger]
        own_after.contains(block) ==> own_before.contains(block) || !is_requested(before, block)
}

/// The number of requests that can be made.
pub open spec fn room_for(target: nat, outgoing: nat) -> nat {
    if target > outgoing {
        (target - outgoing) as nat
    } else {
        0
    }
}

impl Model {
    /// Whether each of our requests is tracked in the download of its piece, and
    /// the peer's pieces are those of this torrent.
    pub open spec fn wf(self, storage: StorageInfo) -> bool {
        &&& self.status.wf()
        &&& self.outgoing.finite()
        &&& shared_wf(storage, self.picker, self.downloads)
        &&& requests_tracked(self.downloads, self.outgoing)
        &&& self.status.peer matches Some(peer) ==> peer.pieces matches Some(pieces)
            ==> pieces.len() == storage.piece_count
    }

    /// The requests that are made next. While we are choked, we may not request
    /// anything.
    pub open spec fn plan(self, storage: StorageInfo) -> Plan {
        if self.status.is_choked {
            Plan { picker: self.picker, downloads: self.downloads, requests: Seq::empty() }
        } else {
            request_plan(
                storage,
                self.picker,
                self.downloads,
                room_for(self.status.target(), self.outgoing.len()) as int,
            )
        }
    }

    /// The state after the requests were made.
    pub open spec fn after_requests(self, storage: StorageInfo, now: Instant) -> Model {
        let plan = self.plan(storage);
        Model {
            picker: plan.picker,
            downloads: plan.downloads,
            outgoing: self.outgoing.union(plan.requests.to_set()),
            status: if plan.requests.len() > 0 {
                StatusView {
                    last_outgoing_request_time: Some(now),
                    uploaded_protocol: self.status.uploaded_protocol.plus(
                        17 * plan.requests.len() as int,
                    ),
                    ..self.status
                }
            } else {
                self.status
            },
            ..self
        }
    }

    /// The state after one of the blocks that we requested was received. If the
    /// block completes its piece, the piece's download is removed and the piece is
    /// marked as received.
    pub open spec fn after_block(self, block: BlockInfo, now: Instant) -> Model {
        let pos = position_of(self.downloads, block.piece_index);
        let download = self.downloads[pos].with_block(block, BlockState::Received);
        Model {
            outgoing: self.outgoing.remove(block),
            status: self.status.after_receive(block.len, now),
            downloads: if download.complete() {
                self.downloads.remove(pos)
            } else {
                self.downloads.update(pos, download)
            },
            picker: if download.complete() {
                self.picker.after_receive(block.piece_index as int)
            } else {
                self.picker
            },
            ..self
        }
    }

    /// Whether our last request was made longer ago than a peer is given to serve
    /// one. Only the time since then counts, and not whether a request is pending: a
    /// session without pending requests gets to try again as well.
    pub open spec fn timed_out(self, now: Instant) -> bool {
        self.status.last_outgoing_request_time matches Some(last) && nanos_between(last, now)
            > self.status.request_timeout()
    }

    /// The state after our requests were cancelled because they timed out.
    pub open spec fn after_timeout(self) -> Model {
        Model {
            status: self.status.after_timeout(),
            downloads: cancelled(self.downloads, self.outgoing),
            outgoing: Set::empty(),
            ..self
        }
    }

    /// The requests that are made at the end of a round: those that replace the
    /// ones that timed out.
    pub open spec fn tick_requests(self, storage: StorageInfo, now: Instant) -> Seq<BlockInfo> {
        if self.timed_out(now) {
            self.after_timeout().plan(storage).requests
        } else {
            Seq::empty()
        }
    }

    /// The state at the end of a round.
    pub open spec fn after_tick(self, storage: StorageInfo, now: Instant, rates: Rates) -> Model {
        let model = if self.timed_out(now) {
            self.after_timeout().after_requests(storage, now)
        } else {
            self
        };
        Model { status: model.status.after_tick(rates), ..model }
    }

    /// Whether we are interested in the pieces that the peer's bitfield tells of.
    pub open spec fn wants(self, storage: StorageInfo, bits: Seq<bool>) -> bool {
        self.picker.interested(resized(bits, storage.piece_count as nat, false))
    }

    /// The state after the peer sent its bitfield. If we are interested in its
    /// pieces, we let it know.
    pub open spec fn after_bitfield(self, storage: StorageInfo, bits: Seq<bool>) -> Model {
        let pieces = resized(bits, storage.piece_count as nat, false);
        Model {
            picker: self.picker.after_register(pieces),
            status: StatusView {
                is_interested: self.wants(storage, bits),
                peer: match self.status.peer {
                    Some(peer) => Some(PeerInfoView { pieces: Some(pieces), ..peer }),
                    None => None,
                },
                uploaded_protocol: self.status.uploaded_protocol.plus(
                    if self.wants(storage, bits) {
                        5
                    } else {
                        0
                    },
                ),
                ..self.status
            },
            ..self
        }
    }

    /// The pieces that the peer has after it announced a new one.
    pub open spec fn pieces_with(self, storage: StorageInfo, index: int) -> Seq<bool> {
        let pieces = match self.status.peer {
            Some(PeerInfoView { pieces: Some(pieces), .. }) => pieces,
            _ => Seq::new(storage.piece_count as nat, |i: int| false),
        };
        pieces.update(index, true)
    }

    /// The state after the peer announced a new piece.
    pub open spec fn after_have(self, storage: StorageInfo, index: int) -> Model {
        let pieces = self.pieces_with(storage, index);
        Model {
            picker: self.picker.after_register_piece(index),
            status: StatusView {
                is_interested: self.picker.interested(pieces),
                peer: match self.status.peer {
                    Some(peer) => Some(PeerInfoView { pieces: Some(pieces), ..peer }),
                    None => None,
                },
                ..self.status
            },
            ..self
        }
    }
}

impl PeerSession {
    /// Whether the session is consistent with its torrent.
    pub open spec fn wf(&self, torrent: TorrentContext) -> bool {
        &&& self.outgoing_requests.wf()
        &&& self.incoming_requests.wf()
        &&& model_of(*self, torrent).wf(torrent.storage)
    }

    /// Creates a new session.
    pub fn new() -> (session: Self)
        ensures
            session.status@.initial(),
            session.status@.wf(),
            session.outgoing_requests@ == Set::<BlockInfo>::empty(),
            session.incoming_requests@ == Set::<BlockInfo>::empty(),
            session.outgoing_requests.wf(),
            session.incoming_requests.wf(),
            forall|torrent: TorrentContext| #[trigger] torrent.wf() ==> session.wf(torrent),
    {
        PeerSession {
            status: Status::default(),
            outgoing_requests: RequestSet::new(),
            incoming_requests: RequestSet::new(),
        }
    }

    /// Fills the session's download pipeline with the optimal number of
    /// requests.
    ///
    /// To see what this means, please refer to the target request queue length in
    /// [`Status`].
    pub fn make_requests(&mut self, torrent: &mut TorrentContext, now: Instant) -> (requests: Vec<
        BlockInfo,
    >)
        requires
            old(self).wf(*old(torrent)),
            old(self).status@.uploaded_protocol.has_room(17 * old(self).status@.target() as int),
        ensures
            final(self).wf(*final(torrent)),
            final(torrent).same_torrent(&*old(torrent)),
            model_of(*final(self), *final(torrent)) == model_of(
                *old(self),
                *old(torrent),
            ).after_requests(old(torrent).storage, now),
            requests@ == model_of(*old(self), *old(torrent)).plan(old(torrent).storage).requests,
            // the requests are new, and together with the pending ones not more
            // than the target
            requests@.no_duplicates(),
            forall|block: BlockInfo| #[trigger]
                requests@.contains(block) ==> !old(self).outgoing_requests@.contains(block),
            final(self).outgoing_requests@.len() == old(self).outgoing_requests@.len()
                + requests@.len(),
            requests@.len() > 0 ==> final(self).outgoing_requests@.len()
                <= old(self).status@.target(),
            // the pipeline is full, unless we are choked or there is nothing left to
            // request
            old(self).status@.is_choked ==> requests@.len() == 0,
            old(self).status@.is_choked || final(self).outgoing_requests@.len() >= old(self).status@.target() || (nothing_free(
                final(torrent).downloads@,
            ) && forall|i: int| !final(torrent).piece_picker@.pickable(i)),
            keeps_others(
                old(torrent).downloads@,
                final(torrent).downloads@,
                old(self).outgoing_requests@,
                final(self).outgoing_requests@,
            ),
    {
        let ghost before = model_of(*self, *torrent);
        let ghost storage = torrent.storage;
        if self.status.is_choked {
            let requests: Vec<BlockInfo> = Vec::new();
            proof {
                assert(requests@ =~= Seq::<BlockInfo>::empty());
                assert(before.outgoing.union(requests@.to_set()) =~= before.outgoing);
            }
            return requests;
        }
        let pending: usize = self.outgoing_requests.len();
        let target: usize = match self.status.target_request_queue_len {
            Some(target) => target,
            None => 0,
        };
        let room: usize = if target > pending {
            target - pending
        } else {
            0
        };
        let requests: Vec<BlockInfo> = plan_requests(
            &torrent.storage,
            &mut torrent.piece_picker,
            &mut torrent.downloads,
            room,
        );
        let ghost plan = before.plan(storage);
        proof {
            assert(plan.requests == requests@);
            lemma_tracked_after_adding(
                before.downloads,
                torrent.downloads@,
                requests@,
                before.outgoing,
            );
        }
        if requests.len() > 0 {
            self.status.last_outgoing_request_time = Some(now);
        }
        // make the actual requests
        let ghost status = self.status@;
        let mut i: usize = 0;
        proof {
            assert(requests@.take(0).to_set() =~= Set::<BlockInfo>::empty());
            assert(before.outgoing.union(Set::<BlockInfo>::empty()) =~= before.outgoing);
        }
        while i < requests.len()
            invariant
                i <= requests@.len(),
                requests@.no_duplicates(),
                requests@.len() <= room,
                room <= target,
                target == status.target(),
                forall|block: BlockInfo| #[trigger]
                    requests@.contains(block) ==> !before.outgoing.contains(block),
                status.uploaded_protocol.has_room(17 * target),
                self.outgoing_requests.wf(),
                self.outgoing_requests@ == before.outgoing.union(requests@.take(i as int).to_set()),
                self.outgoing_requests@.finite(),
                self.outgoing_requests@.len() == before.outgoing.len() + i,
                self.incoming_requests.wf(),
                self.incoming_requests@ == before.incoming,
                self.status@ == (StatusView {
                    uploaded_protocol: status.uploaded_protocol.plus(17 * i),
                    ..status
                }),
            decreases requests@.len() - i,
        {
            let ghost done = self.outgoing_requests@;
            let block: BlockInfo = requests[i];
            proof {
                assert(requests@.contains(requests@[i as int]));
                lemma_next_request(requests@, i as int);
                assert(!done.contains(block));
            }
            self.outgoing_requests.insert(block);
            self.status.uploaded_protocol_counter.add(MessageId::Request.header_len());
            proof {
                assert(self.outgoing_requests@ =~= before.outgoing.union(
                    requests@.take(i + 1).to_set(),
                ));
            }
            i = i + 1;
        }
        proof {
            assert(requests@.take(i as int) =~= requests@);
            assert(model_of(*self, *torrent) =~= before.after_requests(storage, now));
        }
        requests
    }

    /// Verifies block validity, registers the download (and finishes a piece
    /// download if this was the last missing block in piece) and updates
    /// statistics about the download.
    ///
    /// A block that we didn't request is silently ignored. Otherwise the block is
    /// to be saved to disk.
    pub fn handle_block_msg(
        &mut self,
        torrent: &mut TorrentContext,
        block: BlockInfo,
        data: Vec<u8>,
        now: Instant,
    ) -> (action: Option<Action>)
        requires
            old(self).wf(*old(torrent)),
            old(self).outgoing_requests@.contains(block) ==> old(self).status@.can_receive(
                block.len,
                now,
            ),
        ensures
            final(self).wf(*final(torrent)),
            final(torrent).same_torrent(&*old(torrent)),
            old(self).outgoing_requests@.contains(block) ==> {
                &&& model_of(*final(self), *final(torrent)) == model_of(
                    *old(self),
                    *old(torrent),
                ).after_block(block, now)
                &&& action matches Some(action) && action@ == ActionView::WriteBlock(block, data@)
            },
            !old(self).outgoing_requests@.contains(block) ==> {
                &&& model_of(*final(self), *final(torrent)) == model_of(*old(self), *old(torrent))
                &&& action is None
            },
            keeps_others(
                old(torrent).downloads@,
                final(torrent).downloads@,
                old(self).outgoing_requests@,
                final(self).outgoing_requests@,
            ),
    {
        let ghost before = model_of(*self, *torrent);
        // remove block from our pending requests queue
        let was_present: bool = self.outgoing_requests.remove(&block);
        if !was_present {
            // silently ignore this block if we didn't expected it
            proof {
                assert(before.outgoing.remove(block) =~= before.outgoing);
                assert(model_of(*self, *torrent) =~= before);
            }
            return None;
        }
        let ghost requested = requested_blocks(before.downloads);
        proof {
            lemma_requested_blocks(before.downloads);
        }
        // mark the block as downloaded with its respective piece
        // download instance
        self.register_downloaded_block(torrent, &block, Ghost(requested));
        // update download stats
        self.status.update_download_stats(block.len, now);
        proof {
            assert forall|other: BlockInfo| #[trigger]
                before.outgoing.remove(block).contains(other) implies is_requested(
                torrent.downloads@,
                other,
            ) by {
                assert(requested.remove(block).contains(other));
            }
            assert(model_of(*self, *torrent) =~= before.after_block(block, now));
        }
        proof {
            lemma_receiving_keeps_others(before.downloads, torrent.downloads@, before.outgoing, block);
        }
        // validate and save the block to disk
        Some(Action::WriteBlock { block, data })
    }

    /// Marks the newly downloaded block in the piece picker and its piece
    /// download instance.
    ///
    /// If the block completes the piece, the piece download is removed from the
    /// shared downloads and the piece is marked as complete in the piece picker.
    fn register_downloaded_block(
        &self,
        torrent: &mut TorrentContext,
        block: &BlockInfo,
        outgoing: Ghost<Set<BlockInfo>>,
    )
        requires
            old(torrent).wf(),
            requests_tracked(old(torrent).downloads@, outgoing@),
            outgoing@.contains(*block),
        ensures
            final(torrent).wf(),
            final(torrent).same_torrent(&*old(torrent)),
            requests_tracked(final(torrent).downloads@, outgoing@.remove(*block)),
            ({
                let downloads = old(torrent).downloads@;
                let pos = position_of(downloads, block.piece_index);
                let download = downloads[pos].with_block(*block, BlockState::Received);
                &&& final(torrent).downloads@ == if download.complete() {
                    downloads.remove(pos)
                } else {
                    downloads.update(pos, download)
                }
                &&& final(torrent).piece_picker@ == if download.complete() {
                    old(torrent).piece_picker@.after_receive(block.piece_index as int)
                } else {
                    old(torrent).piece_picker@
                }
            }),
    {
        let ghost downloads = torrent.downloads@;
        let ghost picker = torrent.piece_picker@;
        let ghost at = lemma_tracked_download(downloads, *block);
        match torrent.downloads.position(block.piece_index) {
            None => {
                proof {
                    assert(downloads[at].index == block.piece_index);
                    assert(false);
                }
            },
            Some(pos) => {
                proof {
                    assert(downloads[at].index == downloads[pos as int].index);
                    assert(pos == at);
                    let chosen = position_of(downloads, block.piece_index);
                    assert(downloads[chosen].index == downloads[pos as int].index);
                    assert(chosen == pos);
                }
                torrent.downloads.received_block(pos, block);
                let ghost received = torrent.downloads@;
                let ghost download = received[pos as int];
                proof {
                    lemma_tracked_after_receiving(downloads, outgoing@, *block, pos as int);
                }
                // finish download of piece if this was the last missing block in it
                if torrent.downloads.is_complete(pos) {
                    // remove piece download from `downloads`
                    torrent.downloads.remove(pos);
                    // register received piece
                    torrent.piece_picker.received_piece(block.piece_index);
                    proof {
                        lemma_tracked_after_removing(
                            received,
                            outgoing@.remove(*block),
                            pos as int,
                        );
                        assert(received.remove(pos as int) =~= downloads.remove(pos as int));
                        assert forall|i: int| 0 <= i < torrent.downloads@.len() implies {
                            &&& (#[trigger] torrent.downloads@[i]).index
                                < torrent.storage.piece_count
                            &&& torrent.downloads@[i].len == torrent.storage.len_of_piece(
                                torrent.downloads@[i].index as int,
                            )
                            &&& torrent.piece_picker@.pieces[torrent.downloads@[i].index as int].is_pending
                        } by {
                            let p = if i < pos {
                                i
                            } else {
                                i + 1
                            };
                            assert(downloads[p] == torrent.downloads@[i]);
                            assert(downloads[p].index != downloads[pos as int].index);
                        }
                    }
                } else {
                    proof {
                        assert forall|i: int| 0 <= i < torrent.downloads@.len() implies {
                            &&& (#[trigger] torrent.downloads@[i]).index
                                < torrent.storage.piece_count
                            &&& torrent.downloads@[i].len == torrent.storage.len_of_piece(
                                torrent.downloads@[i].index as int,
                            )
                            &&& torrent.piece_picker@.pieces[torrent.downloads@[i].index as int].is_pending
                        } by {
                            assert(downloads[i].index == torrent.downloads@[i].index);
                        }
                    }
                }
            },
        }
    }
}

/// All blocks that are requested.
pub open spec fn requested_blocks(downloads: Seq<PieceDownloadView>) -> Set<BlockInfo> {
    Set::new(|block: BlockInfo| is_requested(downloads, block))
}

proof fn lemma_requested_blocks(downloads: Seq<PieceDownloadView>)
    ensures
        requests_tracked(downloads, requested_blocks(downloads)),
{
}

/// Receiving a block leaves the other sessions alone.
proof fn lemma_receiving_keeps_others(
    before: Seq<PieceDownloadView>,
    after: Seq<PieceDownloadView>,
    own: Set<BlockInfo>,
    block: BlockInfo,
)
    requires
        own.contains(block),
        requests_tracked(after, requested_blocks(before).remove(block)),
    ensures
        keeps_others(before, after, own, own.remove(block)),
{
    assert forall|other: BlockInfo|
        is_requested(before, other) && !own.contains(other) implies #[trigger] is_requested(
        after,
        other,
    ) by {
        assert(requested_blocks(before).remove(block).contains(other));
    }
}

/// Two steps that leave the other sessions alone do so together.
proof fn lemma_keeps_others_twice(
    d0: Seq<PieceDownloadView>,
    d1: Seq<PieceDownloadView>,
    d2: Seq<PieceDownloadView>,
    o0: Set<BlockInfo>,
    o1: Set<BlockInfo>,
    o2: Set<BlockInfo>,
)
    requires
        keeps_others(d0, d1, o0, o1),
        keeps_others(d1, d2, o1, o2),
    ensures
        keeps_others(d0, d2, o0, o2),
{
    assert forall|block: BlockInfo|
        is_requested(d0, block) && !o0.contains(block) implies #[trigger] is_requested(
        d2,
        block,
    ) by {
        assert(is_requested(d1, block));
        assert(!o1.contains(block));
    }
    assert forall|block: BlockInfo| #[trigger] o2.contains(block) implies o0.contains(block)
        || !is_requested(d0, block) by {
        if !o1.contains(block) && is_requested(d0, block) && !o0.contains(block) {
            assert(is_requested(d1, block));
        }
    }
}

/// Cancelling a session's requests leaves the other sessions alone.
proof fn lemma_cancelling_keeps_others(downloads: Seq<PieceDownloadView>, own: Set<BlockInfo>)
    requires
        downloads_wf(downloads),
        requests_tracked(downloads, own),
    ensures
        keeps_others(downloads, cancelled(downloads, own), own, Set::empty()),
{
    let after = cancelled(downloads, own);
    assert forall|block: BlockInfo|
        is_requested(downloads, block) && !own.contains(block) implies #[trigger] is_requested(
        after,
        block,
    ) by {
        let pos = lemma_tracked_download(downloads, block);
        let slot = block.offset as int / crate::block::BLOCK_LEN as int;
        assert(after[pos] == download_cancelled(downloads[pos], own));
        if exists|x: BlockInfo| #[trigger]
            own.contains(x) && x.piece_index == downloads[pos].index && x.offset as int
                / crate::block::BLOCK_LEN as int == slot {
            let x = choose|x: BlockInfo| #[trigger]
                own.contains(x) && x.piece_index == downloads[pos].index && x.offset as int
                    / crate::block::BLOCK_LEN as int == slot;
            assert(is_requested(downloads, x));
            let other = lemma_tracked_download(downloads, x);
            assert(downloads[other].index == downloads[pos].index);
            assert(other == pos);
            assert(x == block);
        }
        assert(after[pos].is_block(block));
        assert(after[pos].state_of(block) == BlockState::Requested);
    }
}

/// The sessions of a torrent do not disturb each other: a step of one session keeps
/// the requests of another one tracked, and the two never request the same block.
pub proof fn law_sessions_are_independent(
    before: Seq<PieceDownloadView>,
    after: Seq<PieceDownloadView>,
    own_before: Set<BlockInfo>,
    own_after: Set<BlockInfo>,
    other: Set<BlockInfo>,
)
    requires
        keeps_others(before, after, own_before, own_after),
        requests_tracked(before, other),
        own_before.disjoint(other),
    ensures
        requests_tracked(after, other),
        own_after.disjoint(other),
{
    assert forall|block: BlockInfo| #[trigger] other.contains(block) implies is_requested(
        after,
        block,
    ) by {
        assert(is_requested(before, block));
        assert(!own_before.contains(block));
    }
    assert forall|block: BlockInfo| #[trigger] own_after.contains(block) implies !other.contains(
        block,
    ) by {
        if other.contains(block) {
            assert(is_requested(before, block));
        }
    }
}

/// After a block was received, the other requests are still tracked.
proof fn lemma_tracked_after_receiving(
    downloads: Seq<PieceDownloadView>,
    outgoing: Set<BlockInfo>,
    block: BlockInfo,
    pos: int,
)
    requires
        downloads_wf(downloads),
        requests_tracked(downloads, outgoing),
        0 <= pos < downloads.len(),
        downloads[pos].is_block(block),
        downloads[pos].index == block.piece_index,
    ensures
        requests_tracked(
            downloads.update(pos, downloads[pos].with_block(block, BlockState::Received)),
            outgoing.remove(block),
        ),
{
    let after = downloads.update(pos, downloads[pos].with_block(block, BlockState::Received));
    assert forall|other: BlockInfo| #[trigger]
        outgoing.remove(block).contains(other) implies is_requested(after, other) by {
        assert(outgoing.contains(other));
        let i = choose|i: int|
            0 <= i < downloads.len() && (#[trigger] downloads[i]).is_block(other)
                && downloads[i].state_of(other) == BlockState::Requested;
        assert(after[i].is_block(other));
        if i == pos {
            // two different blocks of a piece are at different indices in it
            assert(other != block);
            assert(after[i].state_of(other) == BlockState::Requested);
        }
    }
}

/// After a complete download was removed, the requests are still tracked.
proof fn lemma_tracked_after_removing(
    downloads: Seq<PieceDownloadView>,
    outgoing: Set<BlockInfo>,
    pos: int,
)
    requires
        requests_tracked(downloads, outgoing),
        0 <= pos < downloads.len(),
        downloads[pos].complete(),
    ensures
        requests_tracked(downloads.remove(pos), outgoing),
{
    let after = downloads.remove(pos);
    assert forall|other: BlockInfo| #[trigger] outgoing.contains(other) implies is_requested(
        after,
        other,
    ) by {
        let i = choose|i: int|
            0 <= i < downloads.len() && (#[trigger] downloads[i]).is_block(other)
                && downloads[i].state_of(other) == BlockState::Requested;
        if i == pos {
            assert(downloads[pos].blocks[other.offset as int / crate::block::BLOCK_LEN as int]
                == BlockState::Received);
        }
        let p = if i < pos {
            i
        } else {
            i - 1
        };
        assert(after[p] == downloads[i]);
        assert(after[p].is_block(other));
    }
}

/// The requests that were pending are still tracked when more are added, and so
/// are those that were added.
proof fn lemma_tracked_after_adding(
    before: Seq<PieceDownloadView>,
    after: Seq<PieceDownloadView>,
    requests: Seq<BlockInfo>,
    outgoing: Set<BlockInfo>,
)
    requires
        requests_tracked(before, outgoing),
        adds_requests(before, after, requests),
    ensures
        requests_tracked(after, outgoing.union(requests.to_set())),
        forall|block: BlockInfo| #[trigger]
            requests.contains(block) ==> !outgoing.contains(block),
{
    assert forall|block: BlockInfo| #[trigger]
        outgoing.union(requests.to_set()).contains(block) implies is_requested(after, block) by {
        if outgoing.contains(block) {
            assert(is_requested(before, block));
        } else {
            assert(requests.contains(block));
        }
    }
}

proof fn lemma_next_request(requests: Seq<BlockInfo>, i: int)
    requires
        0 <= i < requests.len(),
        requests.no_duplicates(),
    ensures
        requests.take(i + 1).to_set() == requests.take(i).to_set().insert(requests[i]),
        !requests.take(i).to_set().contains(requests[i]),
{
    let a = requests.take(i + 1);
    let b = requests.take(i);
    assert forall|x: BlockInfo| #[trigger] a.to_set().contains(x) <==> b.to_set().insert(
        requests[i],
    ).contains(x) by {
        if a.contains(x) {
            let k = choose|k: int| 0 <= k < a.len() && a[k] == x;
            if k < i {
                assert(b[k] == x);
            }
        }
        if b.contains(x) {
            let k = choose|k: int| 0 <= k < b.len() && b[k] == x;
            assert(a[k] == x);
        }
        assert(a[i] == requests[i]);
    }
    assert(a.to_set() =~= b.to_set().insert(requests[i]));
    if b.contains(requests[i]) {
        let k = choose|k: int| 0 <= k < b.len() && b[k] == requests[i];
        assert(requests[k] == requests[i]);
    }
}

impl Model {
    /// What the session does on a message in the connected state, after the
    /// message's size was recorded.
    pub open spec fn on_msg(self, storage: StorageInfo, msg: MessageView, now: Instant) -> Outcome {
        let nothing = Ok::<Seq<ActionView>, PeerError>(Seq::empty());
        match msg {
            MessageView::Bitfield(_) => Outcome {
                model: self,
                result: Err(PeerError::BitfieldNotAfterHandshake),
            },
            MessageView::KeepAlive => Outcome { model: self, result: nothing },
            MessageView::Choke => Outcome {
                model: if self.status.is_choked {
                    self
                } else {
                    Model {
                        outgoing: Set::empty(),
                        status: StatusView { is_choked: true, ..self.status },
                        ..self
                    }
                },
                result: nothing,
            },
            MessageView::Unchoke => self.on_unchoke(storage, now),
            MessageView::Interested => if self.status.is_peer_interested {
                Outcome { model: self, result: nothing }
            } else {
                Outcome {
                    model: Model {
                        status: StatusView {
                            is_peer_interested: true,
                            is_peer_choked: false,
                            ..self.status
                        },
                        ..self
                    },
                    result: Ok(seq![ActionView::Send(MessageView::Unchoke)]),
                }
            },
            MessageView::NotInterested => Outcome {
                model: Model {
                    status: StatusView { is_peer_interested: false, ..self.status },
                    ..self
                },
                result: nothing,
            },
            MessageView::Block(piece_index, offset, data) => self.on_block(
                storage,
                BlockInfo { piece_index, offset, len: data.len() as u32 },
                data,
                now,
            ),
            MessageView::Request(block) => if self.status.is_peer_choked {
                Outcome { model: self, result: Err(PeerError::RequestWhileChoked) }
            } else if self.incoming.contains(block) {
                Outcome { model: self, result: nothing }
            } else {
                Outcome {
                    model: Model { incoming: self.incoming.insert(block), ..self },
                    result: Ok(seq![ActionView::ReadBlock(block)]),
                }
            },
            MessageView::Have(piece_index) => if piece_index < storage.piece_count {
                Outcome {
                    model: self.after_have(storage, piece_index as int),
                    result: nothing,
                }
            } else {
                Outcome { model: self, result: Err(PeerError::InvalidPieceIndex) }
            },
            MessageView::Cancel(block) => Outcome {
                model: Model { incoming: self.incoming.remove(block), ..self },
                result: nothing,
            },
        }
    }

    /// What the session does when the peer unchokes us: if we're interested, the
    /// download begins.
    pub open spec fn on_unchoke(self, storage: StorageInfo, now: Instant) -> Outcome {
        let unchoked = Model { status: StatusView { is_choked: false, ..self.status }, ..self };
        let nothing = Ok::<Seq<ActionView>, PeerError>(Seq::empty());
        if !self.status.is_choked {
            Outcome { model: self, result: nothing }
        } else if !self.status.is_interested {
            Outcome { model: unchoked, result: nothing }
        } else {
            let prepared = Model { status: unchoked.status.prepared(), ..unchoked };
            Outcome {
                model: prepared.after_requests(storage, now),
                result: Ok(request_actions(prepared.plan(storage).requests)),
            }
        }
    }

    /// What the session does when the peer sends a block: if we requested it, it is
    /// saved, and in any case more requests are made where there is room for them.
    pub open spec fn on_block(
        self,
        storage: StorageInfo,
        block: BlockInfo,
        data: Seq<u8>,
        now: Instant,
    ) -> Outcome {
        let expected = self.outgoing.contains(block);
        let received = if expected {
            self.after_block(block, now)
        } else {
            self
        };
        let saved = if expected {
            seq![ActionView::WriteBlock(block, data)]
        } else {
            Seq::empty()
        };
        Outcome {
            model: received.after_requests(storage, now),
            result: Ok(saved + request_actions(received.plan(storage).requests)),
        }
    }

    /// The state after the size of a message was recorded.
    pub open spec fn counting(self, msg: MessageView) -> Model {
        Model {
            status: StatusView {
                downloaded_protocol: self.status.downloaded_protocol.plus(protocol_len(msg)),
                ..self.status
            },
            ..self
        }
    }

    /// Whether the message can be handled: the counters have room for what is
    /// recorded.
    pub open spec fn can_handle(self, msg: MessageView, now: Instant) -> bool {
        &&& self.status.downloaded_protocol.has_room(protocol_len(msg))
        &&& self.status.uploaded_protocol.has_room(17 * (self.status.target() + 4) as int)
        &&& self.picker.has_room()
        &&& msg matches MessageView::Block(_, _, data) ==> {
            &&& self.status.can_receive(data.len() as u32, now)
            &&& self.status.next_target() matches Some(target)
                ==> self.status.uploaded_protocol.has_room(17 * target)
        }
    }
}

/// The part of a message that is recorded as protocol chatter: the whole message,
/// except for the data of a block.
pub open spec fn protocol_len(msg: MessageView) -> int {
    match msg {
        MessageView::Block(_, _, _) => 13,
        _ => msg.encoded_len(),
    }
}

/// The outcome of an exec function, in terms of the model.
pub open spec fn result_view(result: Result<Vec<Action>>) -> std::result::Result<
    Seq<ActionView>,
    PeerError,
> {
    match result {
        Ok(actions) => Ok(action_views(actions@)),
        Err(e) => Err(e),
    }
}

/// Appends the actions that send the requests.
fn send_requests(actions: &mut Vec<Action>, requests: &Vec<BlockInfo>)
    ensures
        action_views(final(actions)@) == action_views(old(actions)@) + request_actions(requests@),
{
    let ghost before = actions@;
    let mut i: usize = 0;
    assert(action_views(actions@) =~= action_views(before) + request_actions(requests@.take(0)));
    while i < requests.len()
        invariant
            i <= requests@.len(),
            action_views(actions@) == action_views(before) + request_actions(
                requests@.take(i as int),
            ),
        decreases requests@.len() - i,
    {
        let ghost done = actions@;
        actions.push(Action::Send(Message::Request(requests[i])));
        proof {
            assert(action_views(actions@) =~= action_views(done).push(
                ActionView::Send(MessageView::Request(requests@[i as int])),
            ));
            assert(request_actions(requests@.take(i + 1)) =~= request_actions(
                requests@.take(i as int),
            ).push(ActionView::Send(MessageView::Request(requests@[i as int]))));
        }
        i = i + 1;
        assert(action_views(actions@) =~= action_views(before) + request_actions(
            requests@.take(i as int),
        ));
    }
    assert(requests@.take(i as int) =~= requests@);
}

impl PeerSession {
    /// Updates the session at the end of a round, which lasts a second.
    ///
    /// If more time has elapsed since the last request than the current timeout
    /// value, all requests are cancelled and, unless we are choked, a single one is
    /// re-issued. Returns the requests that are made.
    pub fn tick(&mut self, torrent: &mut TorrentContext, now: Instant, rates: Rates) -> (requests:
        Vec<BlockInfo>)
        requires
            old(self).wf(*old(torrent)),
            old(self).status@.uploaded_protocol.has_room(17),
            old(self).status@.timed_out_request_count < u64::MAX,
        ensures
            final(self).wf(*final(torrent)),
            final(torrent).same_torrent(&*old(torrent)),
            model_of(*final(self), *final(torrent)) == model_of(*old(self), *old(torrent)).after_tick(
                old(torrent).storage,
                now,
                rates,
            ),
            requests@ == model_of(*old(self), *old(torrent)).tick_requests(
                old(torrent).storage,
                now,
            ),
            requests@.len() <= 1,
            keeps_others(
                old(torrent).downloads@,
                final(torrent).downloads@,
                old(self).outgoing_requests@,
                final(self).outgoing_requests@,
            ),
    {
        let ghost before = model_of(*self, *torrent);
        let mut requests: Vec<BlockInfo> = Vec::new();
        if let Some(last_outgoing_request_time) = self.status.last_outgoing_request_time {
            let elapsed: Duration = now.saturating_duration_since(last_outgoing_request_time);
            let request_timeout: Duration = self.status.request_timeout();
            if elapsed.nanos > request_timeout.nanos {
                self.status.register_request_timeout();
                // Cancel all requests and re-issue a single one (since we can
                // only request a single block now). Start by freeing up the
                // block in its piece download.
                torrent.downloads.cancel_requests(&self.outgoing_requests);
                self.outgoing_requests.clear();
                proof {
                    lemma_cancelled_wf(torrent.storage, before);
                    assert(model_of(*self, *torrent) =~= before.after_timeout());
                }
                // try to make a request
                requests = self.make_requests(torrent, now);
                proof {
                    lemma_cancelling_keeps_others(before.downloads, before.outgoing);
                    lemma_keeps_others_twice(
                        before.downloads,
                        cancelled(before.downloads, before.outgoing),
                        torrent.downloads@,
                        before.outgoing,
                        Set::empty(),
                        self.outgoing_requests@,
                    );
                }
            }
        }
        // update status
        self.status.tick(rates);
        proof {
            assert(model_of(*self, *torrent) =~= before.after_tick(torrent.storage, now, rates));
            assert(requests@ =~= before.tick_requests(torrent.storage, now));
        }
        requests
    }

    /// Handles a message expected in the `AvailabilityExchange` state
    /// (currently only the bitfield message). If the peer has pieces that we don't
    /// have, returns the message to send, which tells it that we are interested.
    pub fn handle_bitfield_msg(
        &mut self,
        torrent: &mut TorrentContext,
        bitfield: Bitfield,
    ) -> (reply: Option<Message>)
        requires
            old(self).wf(*old(torrent)),
            old(self).status@.state == State::AvailabilityExchange,
            old(self).status@.uploaded_protocol.has_room(5),
            old(torrent).piece_picker@.has_room(),
        ensures
            final(self).wf(*final(torrent)),
            final(torrent).same_torrent(&*old(torrent)),
            model_of(*final(self), *final(torrent)) == model_of(
                *old(self),
                *old(torrent),
            ).after_bitfield(old(torrent).storage, bitfield@),
            final(self).status@.is_interested == old(torrent).piece_picker@.interested(
                resized(bitfield@, old(torrent).storage.piece_count as nat, false),
            ),
            match reply {
                Some(msg) => final(self).status@.is_interested && msg@ == MessageView::Interested,
                None => !final(self).status@.is_interested,
            },
    {
        let ghost before = model_of(*self, *torrent);
        let ghost sent = bitfield@;
        let mut bitfield: Bitfield = bitfield;
        // The bitfield raw data that is sent over the wire may be longer than
        // the logical pieces it represents, if there the number of pieces in
        // torrent is not a multiple of 8. Therefore, we need to slice off the
        // last part of the bitfield.
        bitfield.resize(torrent.storage.piece_count, false);
        // register peer's pieces with piece picker and determine interest in it
        let is_interested: bool = torrent.piece_picker.is_interested(&bitfield);
        torrent.piece_picker.register_availability(&bitfield);
        self.status.is_interested = is_interested;
        let ghost pieces = bitfield@;
        self.set_pieces(bitfield);
        if is_interested {
            // send interested message to peer
            self.status.uploaded_protocol_counter.add(MessageId::Interested.header_len());
        }
        proof {
            lemma_register_wf(torrent.storage, before, pieces);
            assert(model_of(*self, *torrent) =~= before.after_bitfield(torrent.storage, sent));
        }
        if is_interested {
            Some(Message::Interested)
        } else {
            None
        }
    }
}

impl PeerSession {
    /// Records the pieces that the peer has.
    fn set_pieces(&mut self, pieces: Bitfield)
        ensures
            final(self).status@ == (StatusView {
                peer: match old(self).status@.peer {
                    Some(peer) => Some(PeerInfoView { pieces: Some(pieces@), ..peer }),
                    None => None,
                },
                ..old(self).status@
            }),
            final(self).outgoing_requests == old(self).outgoing_requests,
            final(self).incoming_requests == old(self).incoming_requests,
    {
        match self.status.peer.take() {
            Some(peer) => {
                self.status.peer = Some(PeerInfo { id: peer.id, pieces: Some(pieces) });
            },
            None => {},
        }
    }
}

/// Cancelling all requests keeps the shared state consistent.
pub proof fn lemma_cancelled_wf(storage: StorageInfo, model: Model)
    requires
        model.wf(storage),
    ensures
        model.after_timeout().wf(storage),
{
    let after = cancelled(model.downloads, model.outgoing);
    assert forall|i: int| 0 <= i < after.len() implies {
        &&& (#[trigger] after[i]).wf()
        &&& after[i].index < storage.piece_count
        &&& after[i].len == storage.len_of_piece(after[i].index as int)
        &&& model.picker.pieces[after[i].index as int].is_pending
    } by {
        assert(model.downloads[i].wf());
        assert(after[i] == download_cancelled(model.downloads[i], model.outgoing));
    }
    assert forall|i: int, j: int| 0 <= i < after.len() && 0 <= j < after.len() && i != j implies (
    #[trigger] after[i]).index != (#[trigger] after[j]).index by {
        assert(model.downloads[i].index != model.downloads[j].index);
    }
}

/// Registering a peer's pieces keeps the shared state consistent.
proof fn lemma_register_wf(storage: StorageInfo, model: Model, pieces: Seq<bool>)
    requires
        model.wf(storage),
    ensures
        shared_wf(storage, model.picker.after_register(pieces), model.downloads),
        forall|index: int|
            0 <= index < model.picker.pieces.len() ==> #[trigger] shared_wf(
                storage,
                model.picker.after_register_piece(index),
                model.downloads,
            ),
{
}

impl PeerSession {
    /// Handles messages expected in the `Connected` state.
    pub fn handle_msg(
        &mut self,
        torrent: &mut TorrentContext,
        msg: Message,
        now: Instant,
    ) -> (r: Result<Vec<Action>>)
        requires
            old(self).wf(*old(torrent)),
            model_of(*old(self), *old(torrent)).can_handle(msg@, now),
            msg matches Message::Block { data, .. } ==> data is Owned,
        ensures
            final(self).wf(*final(torrent)),
            final(torrent).same_torrent(&*old(torrent)),
            (Outcome {
                model: model_of(*final(self), *final(torrent)),
                result: result_view(r),
            }) == model_of(*old(self), *old(torrent)).counting(msg@).on_msg(
                old(torrent).storage,
                msg@,
                now,
            ),
            keeps_others(
                old(torrent).downloads@,
                final(torrent).downloads@,
                old(self).outgoing_requests@,
                final(self).outgoing_requests@,
            ),
    {
        // record protocol message size
        self.status.downloaded_protocol_counter.add(msg.protocol_len());
        let ghost before = model_of(*self, *torrent);
        let ghost outcome = before.on_msg(torrent.storage, msg@, now);
        let mut actions: Vec<Action> = Vec::new();
        assert(action_views(actions@) =~= Seq::<ActionView>::empty());
        match msg {
            Message::Bitfield(_) => {
                assert(model_of(*self, *torrent) =~= before);
                return Err(PeerError::BitfieldNotAfterHandshake);
            },
            Message::KeepAlive => {},
            Message::Choke => {
                if !self.status.is_choked {
                    // since we're choked we don't expect to receive blocks
                    // for our pending requests
                    self.outgoing_requests.clear();
                    self.status.is_choked = true;
                }
            },
            Message::Unchoke => {
                self.handle_unchoke_msg(torrent, now, &mut actions);
            },
            Message::Interested => {
                if !self.status.is_peer_interested {
                    self.status.is_peer_interested = true;
                    // peers that are interested are unchoked right away
                    self.status.is_peer_choked = false;
                    actions.push(Action::Send(Message::Unchoke));
                    assert(action_views(actions@) =~= seq![ActionView::Send(MessageView::Unchoke)]);
                }
            },
            Message::NotInterested => {
                if self.status.is_peer_interested {
                    self.status.is_peer_interested = false;
                }
            },
            Message::Block { piece_index, offset, data } => {
                let block = BlockInfo { piece_index, offset, len: data.len() as u32 };
                self.receive_block(torrent, block, data.into_owned(), now, &mut actions);
            },
            Message::Request(block) => {
                match self.handle_request_msg(block) {
                    Ok(Some(action)) => {
                        actions.push(action);
                        assert(action_views(actions@) =~= seq![ActionView::ReadBlock(block)]);
                    },
                    Ok(None) => {},
                    Err(e) => {
                        assert(model_of(*self, *torrent) =~= before);
                        return Err(e);
                    },
                }
            },
            Message::Have { piece_index } => {
                if piece_index >= torrent.storage.piece_count {
                    assert(model_of(*self, *torrent) =~= before);
                    return Err(PeerError::InvalidPieceIndex);
                }
                self.handle_have_msg(torrent, piece_index);
            },
            Message::Cancel(block) => {
                self.incoming_requests.remove(&block);
            },
        }
        proof {
            assert(model_of(*self, *torrent) =~= outcome.model);
        }
        Ok(actions)
    }

    /// Handles the peer's permission to request blocks.
    fn handle_unchoke_msg(
        &mut self,
        torrent: &mut TorrentContext,
        now: Instant,
        actions: &mut Vec<Action>,
    )
        requires
            old(self).wf(*old(torrent)),
            old(self).status@.uploaded_protocol.has_room(68),
            old(actions)@.len() == 0,
        ensures
            final(self).wf(*final(torrent)),
            final(torrent).same_torrent(&*old(torrent)),
            (Outcome {
                model: model_of(*final(self), *final(torrent)),
                result: Ok(action_views(final(actions)@)),
            }) == model_of(*old(self), *old(torrent)).on_unchoke(old(torrent).storage, now),
            keeps_others(
                old(torrent).downloads@,
                final(torrent).downloads@,
                old(self).outgoing_requests@,
                final(self).outgoing_requests@,
            ),
    {
        let ghost before = model_of(*self, *torrent);
        assert(action_views(actions@) =~= Seq::<ActionView>::empty());
        if self.status.is_choked {
            self.status.is_choked = false;
            // if we're interested, start sending requests
            if self.status.is_interested {
                self.status.prepare_for_download();
                let ghost unchoked = Model {
                    status: StatusView { is_choked: false, ..before.status },
                    ..before
                };
                let ghost prepared = Model { status: unchoked.status.prepared(), ..unchoked };
                assert(model_of(*self, *torrent) =~= prepared);
                // now that we are allowed to request blocks, start the
                // download pipeline if we're interested
                let requests: Vec<BlockInfo> = self.make_requests(torrent, now);
                send_requests(actions, &requests);
                assert(action_views(actions@) =~= request_actions(requests@));
            }
        }
        assert(model_of(*self, *torrent) =~= before.on_unchoke(torrent.storage, now).model);
    }

    /// Handles a block and makes more requests.
    fn receive_block(
        &mut self,
        torrent: &mut TorrentContext,
        block: BlockInfo,
        data: Vec<u8>,
        now: Instant,
        actions: &mut Vec<Action>,
    )
        requires
            old(self).wf(*old(torrent)),
            old(self).status@.can_receive(block.len, now),
            old(self).status@.uploaded_protocol.has_room(17 * old(self).status@.target() as int),
            old(self).status@.next_target() matches Some(target)
                ==> old(self).status@.uploaded_protocol.has_room(17 * target),
            old(actions)@.len() == 0,
        ensures
            final(self).wf(*final(torrent)),
            final(torrent).same_torrent(&*old(torrent)),
            (Outcome {
                model: model_of(*final(self), *final(torrent)),
                result: Ok(action_views(final(actions)@)),
            }) == model_of(*old(self), *old(torrent)).on_block(
                old(torrent).storage,
                block,
                data@,
                now,
            ),
            keeps_others(
                old(torrent).downloads@,
                final(torrent).downloads@,
                old(self).outgoing_requests@,
                final(self).outgoing_requests@,
            ),
    {
        assert(action_views(actions@) =~= Seq::<ActionView>::empty());
        let ghost before = model_of(*self, *torrent);
        let ghost bytes = data@;
        match self.handle_block_msg(torrent, block, data, now) {
            Some(action) => {
                actions.push(action);
                assert(action_views(actions@) =~= seq![ActionView::WriteBlock(block, bytes)]);
            },
            None => {},
        }
        // we may be able to make more requests now that a block has
        // arrived
        let ghost received = model_of(*self, *torrent);
        let requests: Vec<BlockInfo> = self.make_requests(torrent, now);
        send_requests(actions, &requests);
        proof {
            lemma_keeps_others_twice(
                before.downloads,
                received.downloads,
                torrent.downloads@,
                before.outgoing,
                received.outgoing,
                self.outgoing_requests@,
            );
        }
    }

    /// Handles the peer's announcement of a piece that it has got.
    fn handle_have_msg(&mut self, torrent: &mut TorrentContext, piece_index: usize)
        requires
            old(self).wf(*old(torrent)),
            old(torrent).piece_picker@.has_room(),
            piece_index < old(torrent).storage.piece_count,
        ensures
            final(self).wf(*final(torrent)),
            final(torrent).same_torrent(&*old(torrent)),
            model_of(*final(self), *final(torrent)) == model_of(*old(self), *old(torrent)).after_have(
                old(torrent).storage,
                piece_index as int,
            ),
    {
        let ghost before = model_of(*self, *torrent);
        let mut pieces: Bitfield = match &self.status.peer {
            Some(PeerInfo { pieces: Some(pieces), .. }) => pieces.clone(),
            _ => Bitfield::repeat(false, torrent.storage.piece_count),
        };
        pieces.set(piece_index, true);
        proof {
            assert(pieces@ =~= before.pieces_with(torrent.storage, piece_index as int));
            lemma_register_wf(torrent.storage, before, pieces@);
        }
        // need to recalculate interest with each received piece
        self.status.is_interested = torrent.piece_picker.is_interested(&pieces);
        torrent.piece_picker.register_piece_availability(piece_index);
        self.set_pieces(pieces);
        proof {
            assert(model_of(*self, *torrent) =~= before.after_have(
                torrent.storage,
                piece_index as int,
            ));
        }
    }

    /// Handles the peer request message: unless the peer has already requested the
    /// block, the block is to be read from disk.
    pub fn handle_request_msg(&mut self, block: BlockInfo) -> (r: Result<Option<Action>>)
        requires
            old(self).incoming_requests.wf(),
        ensures
            final(self).status == old(self).status,
            final(self).outgoing_requests == old(self).outgoing_requests,
            final(self).incoming_requests.wf(),
            if old(self).status@.is_peer_choked {
                &&& r == Err::<Option<Action>, PeerError>(PeerError::RequestWhileChoked)
                &&& final(self).incoming_requests@ == old(self).incoming_requests@
            } else if old(self).incoming_requests@.contains(block) {
                &&& r == Ok::<Option<Action>, PeerError>(None)
                &&& final(self).incoming_requests@ == old(self).incoming_requests@
            } else {
                &&& r == Ok::<Option<Action>, PeerError>(Some(Action::ReadBlock(block)))
                &&& final(self).incoming_requests@ == old(self).incoming_requests@.insert(block)
            },
    {
        if self.status.is_peer_choked {
            return Err(PeerError::RequestWhileChoked);
        }
        // check if peer is not already requesting this block
        if self.incoming_requests.contains(&block) {
            return Ok(None);
        }
        self.incoming_requests.insert(block);
        Ok(Some(Action::ReadBlock(block)))
    }

    /// Handles a block that was read from disk: unless the peer has cancelled its
    /// request in the meantime, the block is to be sent to it.
    pub fn send_block(&mut self, block: Block) -> (msg: Option<Message>)
        requires
            old(self).incoming_requests.wf(),
            old(self).status@.wf(),
            old(self).status@.uploaded_payload.has_room(block.data@.len() as u32 as int),
        ensures
            final(self).outgoing_requests == old(self).outgoing_requests,
            final(self).incoming_requests.wf(),
            final(self).status@.wf(),
            ({
                let info = BlockInfo {
                    piece_index: block.piece_index,
                    offset: block.offset,
                    len: block.data@.len() as u32,
                };
                &&& final(self).incoming_requests@ == old(self).incoming_requests@.remove(info)
                &&& if old(self).incoming_requests@.contains(info) {
                    &&& msg matches Some(msg) && msg@ == MessageView::Block(
                        block.piece_index,
                        block.offset,
                        block.data@,
                    )
                    &&& final(self).status@ == old(self).status@.after_send(info.len)
                } else {
                    &&& msg is None
                    &&& final(self).status@ == old(self).status@
                }
            }),
    {
        let info: BlockInfo = block.info();
        // remove peer's pending request
        let was_present: bool = self.incoming_requests.remove(&info);
        // check if the request hasn't been canceled yet
        if !was_present {
            return None;
        }
        // update upload stats
        self.status.update_upload_stats(info.len);
        // if it hasn't, send the data to peer
        Some(
            Message::Block {
                piece_index: block.piece_index,
                offset: block.offset,
                data: block.data,
            },
        )
    }
}

/// What a running session reacts to.
#[derive(Debug)]
pub enum Event {
    /// A second has passed. The rates are those that the session's counters have at
    /// the end of the round.
    Tick { now: Instant, rates: Rates },
    /// The peer has sent a message.
    Message { now: Instant, msg: Message },
    /// The session was sent a command.
    Command(Command),
}

/// What a running session does on an event.
#[derive(Debug)]
pub struct Step {
    /// What is to be done.
    pub actions: Vec<Action>,
    /// Whether the session ends.
    pub stop: bool,
}

impl Model {
    /// The state with the connection's state changed.
    pub open spec fn in_state(self, state: State) -> Model {
        Model { status: StatusView { state, ..self.status }, ..self }
    }

    /// What the session does on a message. The bitfield may only be received
    /// directly after the handshake, but it is not mandatory to send it.
    pub open spec fn on_message(
        self,
        storage: StorageInfo,
        msg: MessageView,
        now: Instant,
    ) -> Outcome {
        if self.status.state == State::AvailabilityExchange {
            match msg {
                MessageView::Bitfield(bits) => Outcome {
                    model: self.after_bitfield(storage, bits).in_state(State::Connected),
                    result: Ok(
                        if self.wants(storage, bits) {
                            seq![ActionView::Send(MessageView::Interested)]
                        } else {
                            Seq::empty()
                        },
                    ),
                },
                _ => {
                    let outcome = self.counting(msg).on_msg(storage, msg, now);
                    if outcome.result is Ok {
                        Outcome { model: outcome.model.in_state(State::Connected), ..outcome }
                    } else {
                        outcome
                    }
                },
            }
        } else {
            self.counting(msg).on_msg(storage, msg, now)
        }
    }

    /// What the session does with a block that was read from disk: it is sent,
    /// unless the peer's request was cancelled.
    pub open spec fn on_read_block(
        self,
        piece_index: usize,
        offset: u32,
        data: Seq<u8>,
    ) -> Outcome {
        let block = BlockInfo { piece_index, offset, len: data.len() as u32 };
        if self.incoming.contains(block) {
            Outcome {
                model: Model {
                    incoming: self.incoming.remove(block),
                    status: self.status.after_send(block.len),
                    ..self
                },
                result: Ok(seq![ActionView::Send(MessageView::Block(piece_index, offset, data))]),
            }
        } else {
            Outcome { model: self, result: Ok(Seq::empty()) }
        }
    }

    /// What the session does on an event.
    pub open spec fn on_event(self, storage: StorageInfo, event: Event) -> Outcome {
        match event {
            Event::Tick { now, rates } => Outcome {
                model: self.after_tick(storage, now, rates),
                result: Ok(request_actions(self.tick_requests(storage, now))),
            },
            Event::Message { now, msg } => self.on_message(storage, msg@, now),
            Event::Command(Command::Block(block)) => self.on_read_block(
                block.piece_index,
                block.offset,
                block.data@,
            ),
            Event::Command(Command::NewPiece(index)) => Outcome {
                model: self,
                result: Ok(seq![ActionView::Send(MessageView::Have(index))]),
            },
            Event::Command(Command::Shutdown) => Outcome {
                model: self,
                result: Ok(Seq::empty()),
            },
        }
    }

    /// Whether the session is ready for the event: its counters have room for what
    /// is recorded, and a block that the peer has sent is not one of the cache.
    pub open spec fn ready_for(self, event: Event) -> bool {
        match event {
            Event::Tick { .. } => {
                &&& self.status.uploaded_protocol.has_room(17)
                &&& self.status.timed_out_request_count < u64::MAX
            },
            Event::Message { now, msg } => match msg {
                Message::Bitfield(_) if self.status.state == State::AvailabilityExchange => {
                    &&& self.status.uploaded_protocol.has_room(5)
                    &&& self.picker.has_room()
                },
                _ => {
                    &&& self.can_handle(msg@, now)
                    &&& msg matches Message::Block { data, .. } ==> data is Owned
                },
            },
            Event::Command(Command::Block(block)) => self.status.uploaded_payload.has_room(
                block.data@.len() as u32 as int,
            ),
            Event::Command(Command::NewPiece(_)) => true,
            Event::Command(Command::Shutdown) => true,
        }
    }
}

/// What the outcome of a step is in terms of the model.
pub open spec fn step_view(r: Result<Step>) -> std::result::Result<Seq<ActionView>, PeerError> {
    match r {
        Ok(step) => Ok(action_views(step.actions@)),
        Err(e) => Err(e),
    }
}

impl PeerSession {
    /// Returns the message to send at the beginning of the session, which is the
    /// only time a peer is allowed to advertise their pieces. If we have pieces
    /// available, this is a bitfield message.
    pub fn begin(&self, torrent: &TorrentContext) -> (msg: Option<Message>)
        ensures
            torrent.piece_picker@.own.contains(true) ==> (msg matches Some(msg) && msg@
                == MessageView::Bitfield(torrent.piece_picker@.own)),
            !torrent.piece_picker@.own.contains(true) ==> msg is None,
    {
        let own_pieces: &Bitfield = torrent.piece_picker.own_pieces();
        if own_pieces.any() {
            Some(Message::Bitfield(own_pieces.clone()))
        } else {
            None
        }
    }

    /// Reacts to an event.
    ///
    /// This is the body of the main session "loop" and performs the core of the
    /// session logic: exchange of messages, timeout logic, etc.
    pub fn run(&mut self, torrent: &mut TorrentContext, event: Event) -> (r: Result<Step>)
        requires
            old(self).wf(*old(torrent)),
            model_of(*old(self), *old(torrent)).ready_for(event),
        ensures
            final(self).wf(*final(torrent)),
            final(torrent).same_torrent(&*old(torrent)),
            (Outcome {
                model: model_of(*final(self), *final(torrent)),
                result: step_view(r),
            }) == model_of(*old(self), *old(torrent)).on_event(old(torrent).storage, event),
            r matches Ok(step) ==> step.stop == (event == Event::Command(Command::Shutdown)),
            keeps_others(
                old(torrent).downloads@,
                final(torrent).downloads@,
                old(self).outgoing_requests@,
                final(self).outgoing_requests@,
            ),
    {
        let ghost before = model_of(*self, *torrent);
        let mut actions: Vec<Action> = Vec::new();
        assert(action_views(actions@) =~= Seq::<ActionView>::empty());
        match event {
            Event::Tick { now, rates } => {
                let requests: Vec<BlockInfo> = self.tick(torrent, now, rates);
                send_requests(&mut actions, &requests);
                assert(action_views(actions@) =~= request_actions(requests@));
                Ok(Step { actions, stop: false })
            },
            Event::Message { now, msg } => {
                match self.handle_any_msg(torrent, msg, now) {
                    Ok(actions) => Ok(Step { actions, stop: false }),
                    Err(e) => Err(e),
                }
            },
            Event::Command(command) => match command {
                Command::Block(block) => {
                    match self.send_block(block) {
                        Some(msg) => {
                            actions.push(Action::Send(msg));
                            assert(action_views(actions@) =~= seq![ActionView::Send(msg@)]);
                        },
                        None => {
                            assert(before.incoming.remove(
                                BlockInfo {
                                    piece_index: block.piece_index,
                                    offset: block.offset,
                                    len: block.data@.len() as u32,
                                },
                            ) =~= before.incoming);
                        },
                    }
                    proof {
                        assert(model_of(*self, *torrent) =~= before.on_read_block(
                            block.piece_index,
                            block.offset,
                            block.data@,
                        ).model);
                    }
                    Ok(Step { actions, stop: false })
                },
                Command::NewPiece(index) => {
                    actions.push(Action::Send(Message::Have { piece_index: index }));
                    assert(action_views(actions@) =~= seq![
                        ActionView::Send(MessageView::Have(index)),
                    ]);
                    Ok(Step { actions, stop: false })
                },
                Command::Shutdown => Ok(Step { actions, stop: true }),
            },
        }
    }

    /// Handles a message in any state of the session.
    fn handle_any_msg(
        &mut self,
        torrent: &mut TorrentContext,
        msg: Message,
        now: Instant,
    ) -> (r: Result<Vec<Action>>)
        requires
            old(self).wf(*old(torrent)),
            model_of(*old(self), *old(torrent)).ready_for((Event::Message { now, msg })),
        ensures
            final(self).wf(*final(torrent)),
            final(torrent).same_torrent(&*old(torrent)),
            (Outcome {
                model: model_of(*final(self), *final(torrent)),
                result: result_view(r),
            }) == model_of(*old(self), *old(torrent)).on_message(old(torrent).storage, msg@, now),
            keeps_others(
                old(torrent).downloads@,
                final(torrent).downloads@,
                old(self).outgoing_requests@,
                final(self).outgoing_requests@,
            ),
    {
        // handle bitfield message separately as it may only be
        // received directly after the handshake (later once we
        // implement the FAST extension, there will be other piece
        // availability related messages to handle)
        if self.status.state == State::AvailabilityExchange {
            let ghost before = model_of(*self, *torrent);
            let ghost outcome = before.on_message(torrent.storage, msg@, now);
            let actions: Vec<Action> = match msg {
                Message::Bitfield(bitfield) => {
                    let mut actions: Vec<Action> = Vec::new();
                    assert(action_views(actions@) =~= Seq::<ActionView>::empty());
                    match self.handle_bitfield_msg(torrent, bitfield) {
                        Some(reply) => {
                            actions.push(Action::Send(reply));
                            assert(action_views(actions@) =~= seq![
                                ActionView::Send(MessageView::Interested),
                            ]);
                        },
                        None => {},
                    }
                    actions
                },
                msg => {
                    // it's not mandatory to send a bitfield message
                    // right after the handshake
                    match self.handle_msg(torrent, msg, now) {
                        Ok(actions) => actions,
                        Err(e) => return Err(e),
                    }
                },
            };
            // enter connected state
            self.status.state = State::Connected;
            assert(model_of(*self, *torrent) =~= outcome.model);
            Ok(actions)
        } else {
            self.handle_msg(torrent, msg, now)
        }
    }

    /// Tells whether the session is ready for the event.
    pub fn is_ready_for(&self, torrent: &TorrentContext, event: &Event) -> (r: bool)
        requires
            self.wf(*torrent),
        ensures
            r == model_of(*self, *torrent).ready_for(*event),
    {
        let uploaded: u64 = self.status.uploaded_protocol_counter.total();
        match event {
            Event::Tick { .. } => uploaded <= u64::MAX - 17
                && self.status.timed_out_request_count < u64::MAX,
            Event::Message { now, msg } => match msg {
                Message::Bitfield(_) => {
                    if self.status.state == State::AvailabilityExchange {
                        uploaded <= u64::MAX - 5 && torrent.piece_picker.can_register()
                    } else {
                        self.can_handle(torrent, msg, *now)
                    }
                },
                Message::Block { data, .. } => {
                    let owned: bool = match data {
                        BlockData::Owned(_) => true,
                        BlockData::Cached(_) => false,
                    };
                    owned && self.can_handle(torrent, msg, *now)
                },
                _ => self.can_handle(torrent, msg, *now),
            },
            Event::Command(Command::Block(block)) => {
                let len: u32 = block.data.len() as u32;
                self.status.uploaded_payload_counter.total() <= u64::MAX - len as u64
            },
            Event::Command(Command::NewPiece(_)) => true,
            Event::Command(Command::Shutdown) => true,
        }
    }

    /// Tells whether the message can be handled.
    fn can_handle(&self, torrent: &TorrentContext, msg: &Message, now: Instant) -> (r: bool)
        requires
            self.wf(*torrent),
        ensures
            r == model_of(*self, *torrent).can_handle(msg@, now),
    {
        let target: usize = match self.status.target_request_queue_len {
            Some(target) => target,
            None => 0,
        };
        let requests: u128 = 17 * (target as u128 + 4);
        let counted: bool = msg.protocol_len() <= u64::MAX
            - self.status.downloaded_protocol_counter.total() && requests <= (u64::MAX
            - self.status.uploaded_protocol_counter.total()) as u128
            && torrent.piece_picker.can_register();
        match msg {
            Message::Block { data, .. } => {
                let len: u32 = data.len() as u32;
                let in_time: bool = match self.status.last_outgoing_request_time {
                    Some(last) => now.saturating_duration_since(last).as_millis() <= (u64::MAX / 64)
                        as u128,
                    None => true,
                };
                let queued: bool = if self.status.target_request_queue_len.is_none() {
                    true
                } else if self.status.in_slow_start {
                    // one more request than now, which is counted above
                    target < usize::MAX
                } else {
                    let next: usize = queue_len_for(self.status.downloaded_payload_counter.avg());
                    17 * next as u128 <= (u64::MAX - self.status.uploaded_protocol_counter.total())
                        as u128
                };
                counted && len as u64 <= u64::MAX - self.status.downloaded_payload_counter.total()
                    && in_time && queued
            },
            _ => counted,
        }
    }
}

impl StatusView {
    /// The status after our handshake was sent.
    pub open spec fn after_sent_handshake(self) -> StatusView {
        StatusView {
            state: State::Handshaking,
            uploaded_protocol: self.uploaded_protocol.plus(68),
            ..self
        }
    }

    /// The status after the peer's handshake was received. If its info hash is not
    /// ours the session is aborted, otherwise the peer is known.
    pub open spec fn after_handshake(self, handshake: HandshakeView, valid: bool) -> StatusView {
        StatusView {
            downloaded_protocol: self.downloaded_protocol.plus(68),
            peer: if valid {
                Some(PeerInfoView { id: handshake.peer_id, pieces: None })
            } else {
                self.peer
            },
            ..self
        }
    }
}

impl PeerSession {
    /// Whether the sessions' requests are the same.
    pub open spec fn same_requests(&self, other: &PeerSession) -> bool {
        &&& self.outgoing_requests == other.outgoing_requests
        &&& self.incoming_requests == other.incoming_requests
    }

    /// Starts an outbound peer session: the peer is to be connected to.
    pub fn start_outbound(&mut self)
        ensures
            final(self).status@ == (StatusView { state: State::Connecting, ..old(self).status@ }),
            final(self).same_requests(&*old(self)),
    {
        self.status.state = State::Connecting;
    }

    /// Returns the handshake to send.
    ///
    /// In an outbound session this is done when the connection is established, in
    /// an inbound session when the peer's handshake was accepted.
    pub fn send_handshake(&mut self, torrent: &TorrentContext) -> (handshake: Handshake)
        requires
            old(self).status@.uploaded_protocol.has_room(68),
        ensures
            final(self).status@ == old(self).status@.after_sent_handshake(),
            final(self).same_requests(&*old(self)),
            handshake@.wf(),
            handshake@ == handshake_of(torrent.info_hash@, torrent.client_id@),
    {
        self.status.state = State::Handshaking;
        let handshake: Handshake = Handshake::new(torrent.info_hash, torrent.client_id);
        self.status.uploaded_protocol_counter.add(handshake.len());
        handshake
    }

    /// Handles the peer's handshake, which must have the same info hash as ours.
    pub fn handle_handshake(&mut self, torrent: &TorrentContext, handshake: &Handshake) -> (r:
        Result<()>)
        requires
            old(self).status@.downloaded_protocol.has_room(68),
        ensures
            final(self).status@ == old(self).status@.after_handshake(
                handshake@,
                handshake@.info_hash == torrent.info_hash@,
            ),
            final(self).same_requests(&*old(self)),
            handshake@.info_hash == torrent.info_hash@ ==> r is Ok,
            handshake@.info_hash != torrent.info_hash@ ==> r == Err::<(), PeerError>(
                PeerError::InvalidInfoHash,
            ),
    {
        self.status.downloaded_protocol_counter.add(handshake.len());
        // verify that the advertised torrent info hash is the same as ours
        if !hashes_equal(&handshake.info_hash, &torrent.info_hash) {
            // abort session, info hash is invalid
            return Err(PeerError::InvalidInfoHash);
        }
        // set basic peer information
        self.status.peer = Some(PeerInfo { id: handshake.peer_id, pieces: None });
        Ok(())
    }

    /// Starts an inbound peer session: the peer has connected to us and has sent its
    /// handshake. If we accept it, returns the handshake with which we reply.
    pub fn start_inbound(&mut self, torrent: &TorrentContext, handshake: &Handshake) -> (r: Result<
        Handshake,
    >)
        requires
            old(self).status@.downloaded_protocol.has_room(68),
            old(self).status@.uploaded_protocol.has_room(68),
        ensures
            final(self).same_requests(&*old(self)),
            if handshake@.info_hash == torrent.info_hash@ {
                &&& r matches Ok(reply)
                &&& reply@.wf()
                &&& reply@ == handshake_of(torrent.info_hash@, torrent.client_id@)
                &&& final(self).status@ == old(self).status@.after_handshake(
                    handshake@,
                    true,
                ).after_sent_handshake()
            } else {
                &&& r == Err::<Handshake, PeerError>(PeerError::InvalidInfoHash)
                &&& final(self).status@ == old(self).status@.after_handshake(handshake@, false)
            },
    {
        match self.handle_handshake(torrent, handshake) {
            // we reply with the handshake
            Ok(()) => Ok(self.send_handshake(torrent)),
            Err(e) => Err(e),
        }
    }

    /// Enters the piece availability exchange state, after the handshakes were
    /// exchanged.
    pub fn enter_availability_exchange(&mut self)
        ensures
            final(self).status@ == (StatusView {
                state: State::AvailabilityExchange,
                ..old(self).status@
            }),
            final(self).same_requests(&*old(self)),
    {
        self.status.state = State::AvailabilityExchange;
    }
}

/// A bitfield is only accepted directly after the handshake: in any other state the
/// session ends with an error.
pub proof fn law_late_bitfield_is_rejected(
    model: Model,
    storage: StorageInfo,
    bits: Seq<bool>,
    now: Instant,
)
    requires
        model.status.state != State::AvailabilityExchange,
    ensures
        model.on_message(storage, MessageView::Bitfield(bits), now).result == Err::<
            Seq<ActionView>,
            PeerError,
        >(PeerError::BitfieldNotAfterHandshake),
{
}

/// The exchange of piece availability ends with the first message, whichever it is,
/// so a second bitfield is never accepted.
pub proof fn law_first_message_ends_the_exchange(
    model: Model,
    storage: StorageInfo,
    msg: MessageView,
    bits: Seq<bool>,
    now: Instant,
)
    requires
        model.status.state == State::AvailabilityExchange,
        model.on_message(storage, msg, now).result is Ok,
    ensures
        model.on_message(storage, msg, now).model.status.state == State::Connected,
        model.on_message(storage, msg, now).model.on_message(
            storage,
            MessageView::Bitfield(bits),
            now,
        ).result is Err,
{
}

/// A choked peer that requests a block is answered with the end of the session, and
/// no block is read for it.
pub proof fn law_choked_peer_may_not_request(
    model: Model,
    storage: StorageInfo,
    block: BlockInfo,
    now: Instant,
)
    requires
        model.status.state == State::Connected,
        model.status.is_peer_choked,
    ensures
        model.on_message(storage, MessageView::Request(block), now).result == Err::<
            Seq<ActionView>,
            PeerError,
        >(PeerError::RequestWhileChoked),
        model.on_message(storage, MessageView::Request(block), now).model.incoming
            == model.incoming,
{
}

/// While we are choked we don't request anything: only when the peer unchokes us, a
/// request is sent.
pub proof fn law_no_requests_while_choked(model: Model, storage: StorageInfo, event: Event)
    requires
        model.status.is_choked,
        event matches Event::Message { msg, .. } ==> msg@ != MessageView::Unchoke,
    ensures
        model.on_event(storage, event).result matches Ok(actions) ==> forall|i: int|
            0 <= i < actions.len() ==> !((#[trigger] actions[i]) matches ActionView::Send(
                MessageView::Request(_),
            )),
{
    match event {
        Event::Message { now, msg } => {
            assert(request_actions(Seq::empty()) =~= Seq::<ActionView>::empty());
        },
        _ => {},
    }
}

/// A peer that becomes interested is unchoked, and may then request blocks.
pub proof fn law_interested_peer_is_unchoked(
    model: Model,
    storage: StorageInfo,
    block: BlockInfo,
    now: Instant,
)
    requires
        model.status.state == State::Connected,
        !model.status.is_peer_interested,
    ensures
        ({
            let outcome = model.on_message(storage, MessageView::Interested, now);
            &&& outcome.result == Ok::<Seq<ActionView>, PeerError>(
                seq![ActionView::Send(MessageView::Unchoke)],
            )
            &&& outcome.model.on_message(storage, MessageView::Request(block), now).result is Ok
        }),
{
}

/// A request is served once: as long as it is pending, the same request is ignored.
pub proof fn law_duplicate_request_is_ignored(
    model: Model,
    storage: StorageInfo,
    block: BlockInfo,
    now: Instant,
)
    requires
        model.status.state == State::Connected,
        !model.status.is_peer_choked,
        !model.incoming.contains(block),
    ensures
        ({
            let first = model.on_message(storage, MessageView::Request(block), now);
            let second = first.model.on_message(storage, MessageView::Request(block), now);
            &&& first.result == Ok::<Seq<ActionView>, PeerError>(
                seq![ActionView::ReadBlock(block)],
            )
            &&& second.result == Ok::<Seq<ActionView>, PeerError>(Seq::empty())
            &&& second.model.incoming == first.model.incoming
        }),
{
}

/// A request that the peer cancels before its block was read is not served, and is
/// as if it had never been made.
pub proof fn law_cancelled_request_is_not_served(
    model: Model,
    storage: StorageInfo,
    block: BlockInfo,
    data: Seq<u8>,
    now: Instant,
)
    requires
        model.status.state == State::Connected,
        !model.status.is_peer_choked,
        !model.incoming.contains(block),
        block.len == data.len() as u32,
    ensures
        ({
            let requested = model.on_message(storage, MessageView::Request(block), now).model;
            let cancelled = requested.on_message(storage, MessageView::Cancel(block), now).model;
            &&& requested.on_read_block(block.piece_index, block.offset, data).result == Ok::<
                Seq<ActionView>,
                PeerError,
            >(seq![ActionView::Send(MessageView::Block(block.piece_index, block.offset, data))])
            &&& cancelled.incoming == model.incoming
            &&& cancelled.on_read_block(block.piece_index, block.offset, data).result == Ok::<
                Seq<ActionView>,
                PeerError,
            >(Seq::empty())
        }),
{
    let requested = model.on_message(storage, MessageView::Request(block), now).model;
    let cancelled = requested.on_message(storage, MessageView::Cancel(block), now).model;
    assert(cancelled.incoming =~= model.incoming);
}

/// When the peer chokes us, none of our requests is pending any more, and a block
/// that still arrives is neither saved nor followed by requests.
pub proof fn law_choke_drops_requests(
    model: Model,
    storage: StorageInfo,
    piece_index: usize,
    offset: u32,
    data: Seq<u8>,
    now: Instant,
)
    requires
        model.status.state == State::Connected,
        !model.status.is_choked,
    ensures
        ({
            let choked = model.on_message(storage, MessageView::Choke, now).model;
            let late = choked.on_message(
                storage,
                MessageView::Block(piece_index, offset, data),
                now,
            );
            &&& choked.status.is_choked
            &&& choked.outgoing == Set::<BlockInfo>::empty()
            &&& late.result == Ok::<Seq<ActionView>, PeerError>(Seq::empty())
        }),
{
    let choked = model.on_message(storage, MessageView::Choke, now).model;
    let late = choked.on_message(storage, MessageView::Block(piece_index, offset, data), now);
    assert(request_actions(Seq::empty()) =~= Seq::<ActionView>::empty());
    assert(late.result->Ok_0 =~= Seq::<ActionView>::empty());
}

/// A block that we did not request changes neither the downloads nor the picker
/// other than by the requests that are made next, and is not saved.
pub proof fn law_unrequested_block_is_ignored(
    model: Model,
    storage: StorageInfo,
    block: BlockInfo,
    data: Seq<u8>,
    now: Instant,
)
    requires
        !model.outgoing.contains(block),
    ensures
        model.on_block(storage, block, data, now).model == model.after_requests(storage, now),
        model.on_block(storage, block, data, now).result == Ok::<Seq<ActionView>, PeerError>(
            request_actions(model.plan(storage).requests),
        ),
{
    let requests = request_actions(model.plan(storage).requests);
    assert(Seq::<ActionView>::empty() + requests =~= requests);
}

} // verus!
