//! The status of a peer session.

use vstd::prelude::*;

use crate::avg::{rounded, SlidingDurationAvg};
use crate::bitfield::Bitfield;
use crate::block::{PeerId, BLOCK_LEN};
use crate::counter::Counter;
use crate::time::{nanos_between, Duration, Instant};

verus! {

/// The increase of the download rate, in bytes per second, that is significant: if
/// it increases by less than this, slow start mode is left.
pub const SLOW_START_ERROR_MARGIN: u64 = 10000;

/// The target request queue size is set to this value once we are able to start
/// downloading.
pub const START_REQUEST_QUEUE_LEN: usize = 4;

/// The least time, in milliseconds, that a peer is given to serve a request.
pub const MIN_REQUEST_TIMEOUT: u64 = 2000;

/// At any given time, a connection with a peer is in one of the below states.
#[derive(Clone, Copy, Debug, PartialEq, Eq, Structural)]
pub enum State {
    /// The peer connection has not yet been connected or it had been connected
    /// before but has been stopped.
    Disconnected,
    /// The state during which the TCP connection is established.
    Connecting,
    /// The state after establishing the TCP connection and exchanging the
    /// initial BitTorrent handshake.
    Handshaking,
    /// This state is optional, it is used to verify that the bitfield exchange
    /// occurrs after the handshake and not later. It is set once the handshakes
    /// are exchanged and changed as soon as we receive the bitfield or the the
    /// first message that is not a bitfield. Any subsequent bitfield messages
    /// are rejected and the connection is dropped, as per the standard.
    AvailabilityExchange,
    /// This is the normal state of a peer session, in which any messages, apart
    /// from the 'handshake' and 'bitfield', may be exchanged.
    Connected,
}

/// The default (and initial) state of a peer session is `Disconnected`.
impl Default for State {
    fn default() -> (state: Self)
        ensures
            state == State::Disconnected,
    {
        State::Disconnected
    }
}

/// Information about the peer we're connected to.
#[derive(Debug)]
pub struct PeerInfo {
    /// Peer's 20 byte BitTorrent id.
    pub id: PeerId,
    /// All pieces peer has, updated when it announces to us a new piece.
    pub pieces: Option<Bitfield>,
}

/// The id and the pieces of a peer.
#[verifier::ext_equal]
pub struct PeerInfoView {
    pub id: Seq<u8>,
    pub pieces: Option<Seq<bool>>,
}

impl View for PeerInfo {
    type V = PeerInfoView;

    open spec fn view(&self) -> PeerInfoView {
        PeerInfoView {
            id: self.id@,
            pieces: match self.pieces {
                Some(pieces) => Some(pieces@),
                None => None,
            },
        }
    }
}

/// The moving averages of a session's or a torrent's counters at the end of a round,
/// rounded to the nearest integer.
#[derive(Clone, Copy, Debug, PartialEq, Eq, Structural)]
pub struct Rates {
    pub downloaded_protocol: u64,
    pub uploaded_protocol: u64,
    pub downloaded_payload: u64,
    pub uploaded_payload: u64,
}

/// The status of a peer session, which holds information necessary to modify
/// the state of the session.
#[derive(Debug)]
pub struct Status {
    /// Information about a peer that is set after a successful handshake.
    pub peer: Option<PeerInfo>,
    /// The current state of the session.
    pub state: State,
    /// Whether the session is in slow start.
    ///
    /// To keep up with the transport layer's slow start algorithm (which unlike
    /// its name, exponentially increases window size), a `peer_session` starts
    /// out in slow start as well, wherein the target request queue size is
    /// increased by one every time one of our requests got served, doubling the
    /// queue size with each round trip.
    pub in_slow_start: bool,
    /// If we're choked, peer doesn't allow us to download pieces from them.
    pub is_choked: bool,
    /// If we're interested, peer has pieces that we don't have.
    pub is_interested: bool,
    /// If peer is choked, we don't allow them to download pieces from us.
    pub is_peer_choked: bool,
    /// If peer is interested in us, they mean to download pieces that we have.
    pub is_peer_interested: bool,
    /// Counts the bytes received during protocol chatter.
    pub downloaded_protocol_counter: Counter,
    /// Counts the bytes sent during protocol chatter.
    pub uploaded_protocol_counter: Counter,
    /// Counts the downloaded bytes.
    pub downloaded_payload_counter: Counter,
    /// Counts the uploaded bytes.
    pub uploaded_payload_counter: Counter,
    /// The target request queue size is the number of block requests we keep
    /// outstanding to fully saturate the link.
    ///
    /// Each peer session needs to maintain an "optimal request queue size"
    /// value (approximately the bandwidth-delay product), which is the number
    /// of block requests it keeps outstanding to fully saturate the link.
    ///
    /// This value is derived by collecting a running average of the downloaded
    /// bytes per second, as well as the average request latency, to arrive at
    /// the bandwidth-delay product B x D. This value is recalculated every time
    /// we receive a block, in order to always keep the link fully saturated.
    ///
    /// ```text
    /// queue = download_rate * link_latency / 16 KiB
    /// ```
    ///
    /// Only set once we start downloading.
    pub target_request_queue_len: Option<usize>,
    /// The last time some requests were sent to the peer.
    pub last_outgoing_request_time: Option<Instant>,
    /// Updated with the time of receipt of the most recently received requested
    /// block.
    pub last_incoming_block_time: Option<Instant>,
    /// This is the average network round-trip-time between the last issued
    /// a request and receiving the next block.
    ///
    /// Note that it doesn't have to be the same block since peers are not
    /// required to serve our requests in order, so this is more of a general
    /// approximation.
    pub avg_request_rtt: SlidingDurationAvg,
    /// The number of times that our requests were not served in time.
    pub timed_out_request_count: u64,
}

/// The status of a peer session as a mathematical value.
#[verifier::ext_equal]
pub struct StatusView {
    pub peer: Option<PeerInfoView>,
    pub state: State,
    pub in_slow_start: bool,
    pub is_choked: bool,
    pub is_interested: bool,
    pub is_peer_choked: bool,
    pub is_peer_interested: bool,
    pub downloaded_protocol: Counter,
    pub uploaded_protocol: Counter,
    pub downloaded_payload: Counter,
    pub uploaded_payload: Counter,
    pub target_request_queue_len: Option<usize>,
    pub last_outgoing_request_time: Option<Instant>,
    pub last_incoming_block_time: Option<Instant>,
    pub avg_request_rtt: SlidingDurationAvg,
    pub timed_out_request_count: u64,
}

impl View for Status {
    type V = StatusView;

    open spec fn view(&self) -> StatusView {
        StatusView {
            peer: match self.peer {
                Some(peer) => Some(peer@),
                None => None,
            },
            state: self.state,
            in_slow_start: self.in_slow_start,
            is_choked: self.is_choked,
            is_interested: self.is_interested,
            is_peer_choked: self.is_peer_choked,
            is_peer_interested: self.is_peer_interested,
            downloaded_protocol: self.downloaded_protocol_counter,
            uploaded_protocol: self.uploaded_protocol_counter,
            downloaded_payload: self.downloaded_payload_counter,
            uploaded_payload: self.uploaded_payload_counter,
            target_request_queue_len: self.target_request_queue_len,
            last_outgoing_request_time: self.last_outgoing_request_time,
            last_incoming_block_time: self.last_incoming_block_time,
            avg_request_rtt: self.avg_request_rtt,
            timed_out_request_count: self.timed_out_request_count,
        }
    }
}

/// The average round trip time after one more sample.
pub open spec fn next_rtt(avg: SlidingDurationAvg, nanos: int) -> SlidingDurationAvg {
    let ms = (nanos / 1_000_000) as u64;
    SlidingDurationAvg(
        crate::avg::SlidingAvg {
            mean: avg.0.next_mean(ms) as u64,
            deviation: avg.0.next_deviation(ms) as u64,
            sample_count: avg.0.next_count() as usize,
            inverted_gain: avg.0.inverted_gain,
        },
    )
}

/// The least number of blocks that hold that many bytes.
pub open spec fn blocks_for(bytes: int) -> int {
    (bytes + BLOCK_LEN - 1) / BLOCK_LEN as int
}

/// The request queue size that saturates the link for a second at the download
/// rate. It is never less than 1.
pub open spec fn best_queue_len(download_rate: u64) -> usize {
    let len = blocks_for(download_rate as int) as usize;
    if len < 1 {
        1
    } else {
        len
    }
}

/// Returns the request queue size that saturates the link for a second at the
/// download rate.
pub(crate) fn queue_len_for(download_rate: u64) -> (len: usize)
    ensures
        len == best_queue_len(download_rate),
{
    // guard against integer truncation and round up as overestimating the link
    // capacity is cheaper than underestimating it
    let blocks: u128 = (download_rate as u128 + (BLOCK_LEN - 1) as u128) / BLOCK_LEN as u128;
    let len: usize = blocks as usize;
    // make sure the target doesn't go below 1
    if len < 1 {
        1
    } else {
        len
    }
}

impl StatusView {
    /// Whether the counters and the average are in their ranges.
    pub open spec fn wf(self) -> bool {
        &&& self.avg_request_rtt.0.wf()
        &&& self.downloaded_protocol.has_room(0)
        &&& self.uploaded_protocol.has_room(0)
        &&& self.downloaded_payload.has_room(0)
        &&& self.uploaded_payload.has_room(0)
    }

    /// The status at the start of a session: both sides of the connection start
    /// off as choked and not interested in the other.
    pub open spec fn initial(self) -> bool {
        &&& self.peer is None
        &&& self.state == State::Disconnected
        &&& !self.in_slow_start
        &&& self.is_choked
        &&& !self.is_interested
        &&& self.is_peer_choked
        &&& !self.is_peer_interested
        &&& self.downloaded_protocol == (Counter { total: 0, round: 0, avg: 0, peak: 0 })
        &&& self.uploaded_protocol == (Counter { total: 0, round: 0, avg: 0, peak: 0 })
        &&& self.downloaded_payload == (Counter { total: 0, round: 0, avg: 0, peak: 0 })
        &&& self.uploaded_payload == (Counter { total: 0, round: 0, avg: 0, peak: 0 })
        &&& self.target_request_queue_len is None
        &&& self.last_outgoing_request_time is None
        &&& self.last_incoming_block_time is None
        &&& self.avg_request_rtt.0.mean == 0
        &&& self.avg_request_rtt.0.deviation == 0
        &&& self.avg_request_rtt.0.sample_count == 0
        &&& self.avg_request_rtt.0.inverted_gain == 20
        &&& self.timed_out_request_count == 0
    }

    /// The number of requests that we keep outstanding.
    pub open spec fn target(self) -> nat {
        match self.target_request_queue_len {
            Some(len) => len as nat,
            None => 0,
        }
    }

    /// The status when a download can begin.
    pub open spec fn prepared(self) -> StatusView {
        StatusView {
            in_slow_start: true,
            target_request_queue_len: Some(START_REQUEST_QUEUE_LEN),
            ..self
        }
    }

    /// Whether the statistics of a block that is received now can be recorded.
    pub open spec fn can_receive(self, block_len: u32, now: Instant) -> bool {
        &&& self.downloaded_payload.has_room(block_len as int)
        &&& self.avg_request_rtt.0.wf()
        &&& self.last_outgoing_request_time matches Some(last) ==> nanos_between(last, now)
            / 1_000_000 <= u64::MAX / 64
        &&& self.in_slow_start ==> self.target() < usize::MAX
    }

    /// The target request queue size when a block is received. In slow start it
    /// grows by one with every block, otherwise it is recalculated from the current
    /// download rate.
    pub open spec fn next_target(self) -> Option<usize> {
        match self.target_request_queue_len {
            Some(len) => Some(
                if self.in_slow_start {
                    (len + 1) as usize
                } else {
                    best_queue_len(self.downloaded_payload.avg)
                },
            ),
            None => None,
        }
    }

    /// The status after a block was received.
    pub open spec fn after_receive(self, block_len: u32, now: Instant) -> StatusView {
        StatusView {
            avg_request_rtt: match self.last_outgoing_request_time {
                Some(last) => next_rtt(self.avg_request_rtt, nanos_between(last, now)),
                None => self.avg_request_rtt,
            },
            downloaded_payload: self.downloaded_payload.plus(block_len as int),
            last_incoming_block_time: Some(now),
            target_request_queue_len: self.next_target(),
            ..self
        }
    }

    /// Whether the connection and what both sides have told each other are the same.
    pub open spec fn same_connection(self, other: StatusView) -> bool {
        &&& self.peer == other.peer
        &&& self.state == other.state
        &&& self.is_choked == other.is_choked
        &&& self.is_interested == other.is_interested
        &&& self.is_peer_choked == other.is_peer_choked
        &&& self.is_peer_interested == other.is_peer_interested
    }

    /// Whether everything but what the receipt of a block changes is the same.
    pub open spec fn same_but_download(self, other: StatusView) -> bool {
        &&& self.same_connection(other)
        &&& self.in_slow_start == other.in_slow_start
        &&& self.downloaded_protocol == other.downloaded_protocol
        &&& self.uploaded_protocol == other.uploaded_protocol
        &&& self.uploaded_payload == other.uploaded_payload
        &&& self.last_outgoing_request_time == other.last_outgoing_request_time
        &&& self.timed_out_request_count == other.timed_out_request_count
    }

    /// The status after a block was sent.
    pub open spec fn after_send(self, block_len: u32) -> StatusView {
        StatusView { uploaded_payload: self.uploaded_payload.plus(block_len as int), ..self }
    }

    /// Whether slow start is left at the end of the round: bytes arrived in this
    /// round, but not significantly more than on average.
    pub open spec fn exits_slow_start(self) -> bool {
        &&& !self.is_choked
        &&& self.in_slow_start
        &&& self.target_request_queue_len is Some
        &&& self.downloaded_payload.round > 0
        &&& self.downloaded_payload.round < self.downloaded_payload.avg + SLOW_START_ERROR_MARGIN
    }

    /// The status with the target request queue size adjusted. In slow start it
    /// stays as it is, otherwise it is what saturates the link for a second at the
    /// current download rate. It is never less than 1.
    pub open spec fn with_target_adjusted(self) -> StatusView {
        StatusView {
            target_request_queue_len: match self.target_request_queue_len {
                Some(len) => Some(
                    if !self.in_slow_start {
                        best_queue_len(self.downloaded_payload.avg)
                    } else if len < 1 {
                        1
                    } else {
                        len
                    },
                ),
                None => None,
            },
            ..self
        }
    }

    /// The status with the counters at the start of the next round.
    pub open spec fn next_round(self, rates: Rates) -> StatusView {
        StatusView {
            downloaded_protocol: self.downloaded_protocol.next_round(rates.downloaded_protocol),
            uploaded_protocol: self.uploaded_protocol.next_round(rates.uploaded_protocol),
            downloaded_payload: self.downloaded_payload.next_round(rates.downloaded_payload),
            uploaded_payload: self.uploaded_payload.next_round(rates.uploaded_payload),
            ..self
        }
    }

    /// The status at the end of a round.
    pub open spec fn after_tick(self, rates: Rates) -> StatusView {
        let left = StatusView {
            in_slow_start: self.in_slow_start && !self.exits_slow_start(),
            ..self
        };
        left.with_target_adjusted().next_round(rates)
    }

    /// The status after our requests timed out: only a single block is requested
    /// now.
    pub open spec fn after_timeout(self) -> StatusView {
        StatusView {
            timed_out_request_count: (self.timed_out_request_count + 1) as u64,
            target_request_queue_len: Some(1),
            in_slow_start: false,
            ..self
        }
    }

    /// The time that a peer is given to serve a request, in nanoseconds: the
    /// average round trip time, but not less than the minimum.
    pub open spec fn request_timeout(self) -> int {
        let mean = if self.avg_request_rtt.0.sample_count == 0 {
            0
        } else {
            rounded(self.avg_request_rtt.0.mean as int)
        };
        1_000_000 * if mean < MIN_REQUEST_TIMEOUT {
            MIN_REQUEST_TIMEOUT as int
        } else {
            mean
        }
    }
}

impl Status {
    /// Prepares the for requesting downloads.
    pub fn prepare_for_download(&mut self)
        requires
            old(self).is_interested,
            !old(self).is_choked,
        ensures
            final(self)@ == old(self)@.prepared(),
    {
        self.in_slow_start = true;
        // reset the target request queue size, which will be adjusted as the
        // download progresses
        self.target_request_queue_len = Some(START_REQUEST_QUEUE_LEN);
    }

    /// Updates various statistics around a block download.
    ///
    /// This should be called every time a block is received.
    pub fn update_download_stats(&mut self, block_len: u32, now: Instant)
        requires
            old(self)@.can_receive(block_len, now),
        ensures
            final(self)@ == old(self)@.after_receive(block_len, now),
            old(self)@.wf() ==> final(self)@.wf(),
    {
        // update request time
        if let Some(last_outgoing_request_time) = self.last_outgoing_request_time {
            let request_rtt: Duration = now.saturating_duration_since(last_outgoing_request_time);
            self.avg_request_rtt.update(request_rtt);
        }
        self.downloaded_payload_counter.add(block_len as u64);
        self.last_incoming_block_time = Some(now);
        if let Some(target_request_queue_len) = self.target_request_queue_len {
            // if we're in slow-start mode, we need to increase the target queue
            // size every time a block is received, otherwise it is recalculated,
            // in order to always keep the link fully saturated
            if self.in_slow_start {
                self.target_request_queue_len = Some(target_request_queue_len + 1);
            } else {
                self.target_request_queue_len = Some(
                    queue_len_for(self.downloaded_payload_counter.avg()),
                );
            }
        }
    }

    /// Updates various statistics around a block upload.
    ///
    /// This should be called every time a block is sent.
    pub fn update_upload_stats(&mut self, block_len: u32)
        requires
            old(self)@.uploaded_payload.has_room(block_len as int),
        ensures
            final(self)@ == old(self)@.after_send(block_len),
            old(self)@.wf() ==> final(self)@.wf(),
    {
        self.uploaded_payload_counter.add(block_len as u64);
    }

    /// Updates various statistics and session state.
    ///
    /// This should be called every second, with the rates that the counters have
    /// at the end of the round.
    pub fn tick(&mut self, rates: Rates)
        ensures
            final(self)@ == old(self)@.after_tick(rates),
            old(self)@.wf() ==> final(self)@.wf(),
    {
        self.maybe_exit_slow_start();
        self.update_target_request_queue_len();
        self.reset_counters(rates);
    }

    /// Check if we need to exit slow start.
    ///
    /// We leave slow start if the download rate has not increased
    /// significantly since the last round.
    pub fn maybe_exit_slow_start(&mut self)
        ensures
            final(self)@ == (StatusView {
                in_slow_start: old(self)@.in_slow_start && !old(self)@.exits_slow_start(),
                ..old(self)@
            }),
    {
        // this only makes sense if we're not choked
        if !self.is_choked && self.in_slow_start && self.target_request_queue_len.is_some()
            && self.downloaded_payload_counter.round() > 0 {
            let round: u64 = self.downloaded_payload_counter.round();
            let avg: u64 = self.downloaded_payload_counter.avg();
            if round <= avg || round - avg < SLOW_START_ERROR_MARGIN {
                self.in_slow_start = false;
            }
        }
    }

    /// Adjusts the target request queue size based on the current download
    /// statistics.
    ///
    /// # Important
    ///
    /// When the peer is in slow start mode the request queue size is increased by
    /// one every time a block is received, so then it is not changed here, other
    /// than to make sure that it is at least 1.
    pub fn update_target_request_queue_len(&mut self)
        ensures
            final(self)@ == old(self)@.with_target_adjusted(),
    {
        if let Some(target_request_queue_len) = self.target_request_queue_len {
            // in slow start mode the request queue is increased with each incoming
            // block, so then we only make sure the target doesn't go below 1
            let len: usize = if !self.in_slow_start {
                queue_len_for(self.downloaded_payload_counter.avg())
            } else if target_request_queue_len < 1 {
                1
            } else {
                target_request_queue_len
            };
            self.target_request_queue_len = Some(len);
        }
    }

    /// Marks the end of the round for the various throughput rate counters.
    pub fn reset_counters(&mut self, rates: Rates)
        ensures
            final(self)@ == old(self)@.next_round(rates),
    {
        self.downloaded_protocol_counter.reset(rates.downloaded_protocol);
        self.uploaded_protocol_counter.reset(rates.uploaded_protocol);
        self.downloaded_payload_counter.reset(rates.downloaded_payload);
        self.uploaded_payload_counter.reset(rates.uploaded_payload);
    }

    /// Records that our requests were not served in time.
    pub fn register_request_timeout(&mut self)
        requires
            old(self)@.timed_out_request_count < u64::MAX,
        ensures
            final(self)@ == old(self)@.after_timeout(),
    {
        self.timed_out_request_count = self.timed_out_request_count + 1;
        self.target_request_queue_len = Some(1);
        self.in_slow_start = false;
    }

    /// Returns the time that the peer is given to serve a request.
    pub fn request_timeout(&self) -> (timeout: Duration)
        requires
            self@.avg_request_rtt.0.wf(),
        ensures
            timeout.nanos == self@.request_timeout(),
    {
        let mean: Duration = self.avg_request_rtt.mean();
        let least: Duration = Duration::from_millis(MIN_REQUEST_TIMEOUT);
        if mean.nanos < least.nanos {
            least
        } else {
            mean
        }
    }
}

impl Default for Status {
    /// By default, both sides of the connection start off as choked and not
    /// interested in the other.
    fn default() -> (status: Self)
        ensures
            status@.initial(),
            status@.wf(),
    {
        Status {
            peer: None,
            state: State::default(),
            in_slow_start: false,
            is_choked: true,
            is_interested: false,
            is_peer_choked: true,
            is_peer_interested: false,
            downloaded_protocol_counter: Counter::default(),
            uploaded_protocol_counter: Counter::default(),
            downloaded_payload_counter: Counter::default(),
            uploaded_payload_counter: Counter::default(),
            target_request_queue_len: None,
            last_outgoing_request_time: None,
            last_incoming_block_time: None,
            avg_request_rtt: SlidingDurationAvg::default(),
            timed_out_request_count: 0,
        }
    }
}

/// Once a download has begun, the target request queue is never empty after a
/// tick, and a tick neither begins nor ends a download.
pub proof fn law_target_stays_positive(status: StatusView, rates: Rates)
    ensures
        status.after_tick(rates).target_request_queue_len is Some
            == status.target_request_queue_len is Some,
        status.target_request_queue_len is Some ==> status.after_tick(rates).target() >= 1,
        status.prepared().target() == START_REQUEST_QUEUE_LEN,
        status.after_timeout().target() == 1,
{
}

/// In slow start each block that is received adds one to the request queue, and
/// otherwise its size is recalculated from the current download rate.
pub proof fn law_slow_start_grows_queue(status: StatusView, block_len: u32, now: Instant)
    requires
        status.can_receive(block_len, now),
        status.target_request_queue_len is Some,
    ensures
        status.after_receive(block_len, now).target() == if status.in_slow_start {
            status.target() + 1
        } else {
            best_queue_len(status.downloaded_payload.avg) as nat
        },
        status.after_receive(block_len, now).target() >= 1,
{
}

/// Slow start is left exactly when bytes arrive but the download rate increases by
/// less than the significant amount, and it is not left while we are choked or
/// nothing arrives.
pub proof fn law_slow_start_is_left_on_a_flat_rate(status: StatusView, rates: Rates)
    requires
        status.in_slow_start,
        status.target_request_queue_len is Some,
    ensures
        status.after_tick(rates).in_slow_start == (status.is_choked
            || status.downloaded_payload.round == 0 || status.downloaded_payload.round
            >= status.downloaded_payload.avg + SLOW_START_ERROR_MARGIN),
{
}

/// The request timeout is never less than two seconds.
pub proof fn law_request_timeout_has_minimum(status: StatusView)
    ensures
        status.request_timeout() >= 2_000_000_000,
{
}

/// The request queue that saturates the link for a second is the least number of blocks
/// of 16 KiB that hold what is downloaded in a second, but at least one.
pub proof fn law_best_queue_holds_a_second(rate: u64)
    requires
        rate <= 0x4000 * u32::MAX,
    ensures
        best_queue_len(rate) >= 1,
        rate <= 0x4000 * best_queue_len(rate),
        best_queue_len(rate) > 1 ==> 0x4000 * (best_queue_len(rate) - 1) < rate,
{
}

/// A received block is counted, its arrival is recorded, and the time since our last
/// request is a sample of the round trip time. What the session knows of the peer does
/// not change.
pub proof fn law_received_block_is_recorded(status: StatusView, block_len: u32, now: Instant)
    requires
        status.downloaded_payload.round <= status.downloaded_payload.total,
        status.downloaded_payload.total + block_len <= u64::MAX,
    ensures
        ({
            let after = status.after_receive(block_len, now);
            &&& after.downloaded_payload.total == status.downloaded_payload.total + block_len
            &&& after.downloaded_payload.round == status.downloaded_payload.round + block_len
            &&& after.downloaded_payload.avg == status.downloaded_payload.avg
            &&& after.downloaded_payload.peak == status.downloaded_payload.peak
            &&& after.last_incoming_block_time == Some(now)
            &&& status.last_outgoing_request_time is None ==> after.avg_request_rtt
                == status.avg_request_rtt
            &&& status.last_outgoing_request_time matches Some(last) ==> now.nanos >= last.nanos
                ==> {
                let ms = ((now.nanos - last.nanos) / 1_000_000) as u64;
                &&& after.avg_request_rtt.0.mean == status.avg_request_rtt.0.next_mean(ms) as u64
                &&& after.avg_request_rtt.0.deviation == status.avg_request_rtt.0.next_deviation(
                    ms,
                ) as u64
                &&& after.avg_request_rtt.0.sample_count == status.avg_request_rtt.0.next_count() as usize
                &&& after.avg_request_rtt.0.inverted_gain == status.avg_request_rtt.0.inverted_gain
            }
            &&& after.same_but_download(status)
        }),
{
}

/// A sent block is counted as uploaded, and changes nothing else.
pub proof fn law_sent_block_is_recorded(status: StatusView, block_len: u32)
    requires
        status.uploaded_payload.round <= status.uploaded_payload.total,
        status.uploaded_payload.total + block_len <= u64::MAX,
    ensures
        ({
            let after = status.after_send(block_len);
            &&& after.uploaded_payload.total == status.uploaded_payload.total + block_len
            &&& after.uploaded_payload.round == status.uploaded_payload.round + block_len
            &&& after == (StatusView { uploaded_payload: after.uploaded_payload, ..status })
        }),
{
}

/// At the end of a round all four counters begin a new one with the new averages, and
/// outside slow start the request queue is what saturates the link at the rate so far.
/// In slow start it is kept. Nothing else changes.
pub proof fn law_round_ends_for_all_counters(status: StatusView, rates: Rates)
    ensures
        ({
            let after = status.after_tick(rates);
            &&& after.downloaded_protocol.round == 0
            &&& after.uploaded_protocol.round == 0
            &&& after.downloaded_payload.round == 0
            &&& after.uploaded_payload.round == 0
            &&& after.downloaded_protocol.total == status.downloaded_protocol.total
            &&& after.uploaded_protocol.total == status.uploaded_protocol.total
            &&& after.downloaded_payload.total == status.downloaded_payload.total
            &&& after.uploaded_payload.total == status.uploaded_payload.total
            &&& after.downloaded_protocol.avg == rates.downloaded_protocol
            &&& after.uploaded_protocol.avg == rates.uploaded_protocol
            &&& after.downloaded_payload.avg == rates.downloaded_payload
            &&& after.uploaded_payload.avg == rates.uploaded_payload
            &&& status.target_request_queue_len is None ==> after.target_request_queue_len is None
            &&& status.target_request_queue_len is Some && !after.in_slow_start
                ==> after.target_request_queue_len == Some(
                best_queue_len(status.downloaded_payload.avg),
            )
            &&& status.target_request_queue_len matches Some(len) ==> after.in_slow_start && len
                >= 1 ==> after.target_request_queue_len == Some(len)
            &&& !status.in_slow_start ==> !after.in_slow_start
            &&& after.same_connection(status)
            &&& after.last_outgoing_request_time == status.last_outgoing_request_time
            &&& after.last_incoming_block_time == status.last_incoming_block_time
            &&& after.avg_request_rtt == status.avg_request_rtt
            &&& after.timed_out_request_count == status.timed_out_request_count
        }),
{
}

/// A download begins in slow start with four requests, and a timeout ends slow start and
/// leaves a single request. Neither changes anything else.
pub proof fn law_downloads_begin_small(status: StatusView)
    requires
        status.timed_out_request_count < u64::MAX,
    ensures
        status.prepared() == (StatusView {
            in_slow_start: true,
            target_request_queue_len: Some(4usize),
            ..status
        }),
        status.after_timeout() == (StatusView {
            in_slow_start: false,
            target_request_queue_len: Some(1usize),
            timed_out_request_count: (status.timed_out_request_count + 1) as u64,
            ..status
        }),
{
}

/// A peer is given the average round trip time to serve a request, in milliseconds, but
/// at least two seconds. Without a sample it is given two seconds.
pub proof fn law_request_timeout_is_the_round_trip_time(status: StatusView)
    ensures
        ({
            let mean = status.avg_request_rtt.0.mean;
            let ms = (mean + 32) / 64;
            let timeout = status.request_timeout();
            &&& status.avg_request_rtt.0.sample_count == 0 ==> timeout == 2_000_000_000
            &&& status.avg_request_rtt.0.sample_count > 0 && ms <= 2000 ==> timeout
                == 2_000_000_000
            &&& status.avg_request_rtt.0.sample_count > 0 && ms >= 2000 ==> timeout == 1_000_000
                * ms
        }),
{
}

/// Both sides of a new connection are choked and not interested, and nothing was
/// transferred or requested yet.
pub proof fn law_connections_start_choked(status: StatusView)
    requires
        status.initial(),
    ensures
        status.is_choked,
        status.is_peer_choked,
        !status.is_interested,
        !status.is_peer_interested,
        !status.in_slow_start,
        status.state == State::Disconnected,
        status.peer is None,
        status.target_request_queue_len is None,
        status.last_outgoing_request_time is None,
        status.downloaded_protocol.total == 0,
        status.uploaded_protocol.total == 0,
        status.downloaded_payload.total == 0,
        status.uploaded_payload.total == 0,
        status.avg_request_rtt.0.sample_count == 0,
        status.timed_out_request_count == 0,
{
}

/// Slow start goes on as long as the bytes of a round exceed the average rate by 10000 or
/// more. It also goes on in rounds without any bytes, while we are choked, and before the
/// first request.
pub proof fn law_slow_start_ends_when_the_rate_levels_off(status: StatusView, rates: Rates)
    requires
        status.in_slow_start,
    ensures
        ({
            let after = status.after_tick(rates);
            let round = status.downloaded_payload.round;
            let avg = status.downloaded_payload.avg;
            &&& round == 0 ==> after.in_slow_start
            &&& round >= avg + 10000 ==> after.in_slow_start
            &&& status.is_choked ==> after.in_slow_start
            &&& status.target_request_queue_len is None ==> after.in_slow_start
            &&& 0 < round < avg + 10000 && !status.is_choked
                && status.target_request_queue_len is Some ==> !after.in_slow_start
        }),
{
}

/// With each block that is received the request queue grows by one in slow start, and
/// otherwise it is what saturates the link at the rate so far. Before the first request
/// there is none.
pub proof fn law_request_queue_follows_the_blocks(status: StatusView, block_len: u32, now: Instant)
    ensures
        ({
            let after = status.after_receive(block_len, now).target_request_queue_len;
            &&& status.target_request_queue_len is None ==> after is None
            &&& status.target_request_queue_len matches Some(len) ==> {
                &&& after is Some
                &&& status.in_slow_start && len < usize::MAX ==> after->0 == len + 1
                &&& !status.in_slow_start ==> after->0 == best_queue_len(
                    status.downloaded_payload.avg,
                )
            }
        }),
{
}

} // verus!
