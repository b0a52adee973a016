//! The high-level management of a torrent download or upload.
//!
//! A torrent decides to which peers to connect, when and what to announce to its
//! trackers, and when it is complete. The connections and the requests to trackers
//! are made by the program around it, which hands back what came of them.

use vstd::prelude::*;

use crate::bitfield::count_unset;
use crate::block::{BlockInfo, PieceIndex, Side};
use crate::counter::Counter;
use crate::disk::error::{ReadError, WriteError};
use crate::peer::status::{Rates, State};
use crate::time::{nanos_between, Duration, Instant};
use crate::torrent::context::TorrentContext;
use crate::tracker::{Addr, Announce, Event, Response};

pub mod context;
pub mod error;
pub mod stats;

verus! {

/// The minimum number of peers we want to keep in torrent at all times.
/// This will be configurable later.
pub const MIN_REQUESTED_PEER_COUNT: usize = 10;

/// The max number of connected peers torrent should have.
pub const MAX_CONNECTED_PEER_COUNT: usize = 50;

/// After this many attempts, we stop announcing to tracker.
pub const TRACKER_ERROR_THRESHOLD: usize = 10;

/// Contains metadata about a tracker.
#[derive(Debug)]
pub struct TrackerEntry {
    /// If a previous announce contained a tracker_id, it should be included in
    /// next announces. Therefore it is cached here.
    pub id: Option<String>,
    /// The last announce time is kept here so that we don't request too often.
    pub last_announce_time: Option<Instant>,
    /// The interval at which we should update the tracker of our progress.
    /// This is set after the first announce request.
    pub interval: Option<Duration>,
    /// The absolute minimum interval at which we can contact tracker.
    /// This is set after the first announce request.
    pub min_interval: Option<Duration>,
    /// Each time we fail to request from tracker, this counter is incremented.
    /// If it fails too often, we stop requesting from tracker.
    pub error_count: usize,
}

/// Whether more than the interval, or none if it is not known, has passed since the
/// last announce. This is the case if there was none.
pub open spec fn is_due(
    last_announce_time: Option<Instant>,
    interval: Option<Duration>,
    now: Instant,
) -> bool {
    match last_announce_time {
        Some(last) => now.nanos > last.nanos + match interval {
            Some(interval) => interval.nanos as int,
            None => 0,
        },
        None => true,
    }
}

/// Tells whether more than the interval has passed since the last announce.
fn announce_due(
    last_announce_time: Option<Instant>,
    interval: Option<Duration>,
    now: Instant,
) -> (r: bool)
    ensures
        r == is_due(last_announce_time, interval, now),
{
    match last_announce_time {
        Some(last) => {
            let wait: u128 = match interval {
                Some(interval) => interval.nanos,
                None => 0,
            };
            now.nanos > last.nanos && now.nanos - last.nanos > wait
        },
        None => true,
    }
}

impl TrackerEntry {
    /// Creates the entry of a tracker that was not announced to yet.
    pub fn new() -> (entry: Self)
        ensures
            entry.id is None,
            entry.last_announce_time is None,
            entry.interval is None,
            entry.min_interval is None,
            entry.error_count == 0,
    {
        TrackerEntry {
            id: None,
            last_announce_time: None,
            interval: None,
            min_interval: None,
            error_count: 0,
        }
    }

    /// Determines whether we should announce to the tracker at the given time,
    /// based on when we last announced.
    ///
    /// Later this function should take into consideration the client's minimum
    /// announce frequency settings.
    pub fn should_announce(&self, t: Instant) -> (r: bool)
        ensures
            r == is_due(self.last_announce_time, self.interval, t),
    {
        announce_due(self.last_announce_time, self.interval, t)
    }

    /// Determines whether we're allowed to announce at the given time.
    ///
    /// We may need peers before the next step in the announce interval.
    /// However, we can't do this too often, so we need to check our last
    /// announce time first.
    pub fn can_announce(&self, t: Instant) -> (r: bool)
        ensures
            r == is_due(self.last_announce_time, self.min_interval, t),
    {
        announce_due(self.last_announce_time, self.min_interval, t)
    }
}

/// A peer in the torrent. Contains additional metadata needed by torrent to
/// manage the peer.
#[derive(Clone, Copy, Debug, PartialEq, Eq, Structural)]
pub struct Peer {
    /// The address of the peer.
    pub addr: Addr,
    /// Cached information about the session state. Updated every time peer
    /// updates us.
    pub state: State,
    /// Whether the peer is a seed or a leech.
    pub side: Side,
}

/// Represents a torrent upload or download.
///
/// This is the main entity responsible for the high-level management of
/// a torrent download or upload. It starts and stops connections with peers
/// ([`PeerSession`](crate::peer::session::PeerSession) instances) and stores
/// metadata about the torrent.
#[derive(Debug)]
pub struct Torrent {
    /// The peers in this torrent, at most one for each address.
    pub peers: Vec<Peer>,
    /// The peers returned by tracker to which we can connect.
    pub available_peers: Vec<Addr>,
    /// The trackers we can announce to.
    pub trackers: Vec<TrackerEntry>,
    /// The port on which torrent should listen for new peers.
    pub listen_port: u16,
    /// The time the torrent was first started.
    pub start_time: Option<Instant>,
    /// The total time the torrent has been running.
    ///
    /// This is a separate field as `Instant::now() - start_time` cannot be
    /// relied upon due to the fact that it is possible to pause a torrent, in
    /// which case we don't want to record the run time.
    pub run_duration: Duration,
    /// Counts the total downloaded block bytes in torrent.
    pub downloaded_payload_counter: Counter,
    /// Counts the total uploaded block bytes in torrent.
    pub uploaded_payload_counter: Counter,
    /// Counts the total bytes received during protocol chatter in torrent.
    pub downloaded_protocol_counter: Counter,
    /// Counts the total bytes sent during protocol chatter in torrent.
    pub uploaded_protocol_counter: Counter,
}

/// The peers by their addresses.
pub open spec fn peer_map(peers: Seq<Peer>) -> Map<Addr, Peer> {
    Map::new(
        |addr: Addr| exists|i: int| 0 <= i < peers.len() && (#[trigger] peers[i]).addr == addr,
        |addr: Addr|
            peers[choose|i: int| 0 <= i < peers.len() && (#[trigger] peers[i]).addr == addr],
    )
}

/// Whether no two peers have the same address.
pub open spec fn distinct_peers(peers: Seq<Peer>) -> bool {
    forall|i: int, j: int|
        0 <= i < peers.len() && 0 <= j < peers.len() && i != j ==> (#[trigger] peers[i]).addr != (
        #[trigger] peers[j]).addr
}

/// The peers after those at the addresses were connected to.
pub open spec fn with_connecting(peers: Map<Addr, Peer>, addrs: Seq<Addr>) -> Map<Addr, Peer>
    decreases addrs.len(),
{
    if addrs.len() == 0 {
        peers
    } else {
        with_connecting(peers, addrs.drop_last()).insert(
            addrs.last(),
            Peer { addr: addrs.last(), state: State::Connecting, side: Side::Leech },
        )
    }
}

proof fn lemma_peer_map(peers: Seq<Peer>, i: int)
    requires
        distinct_peers(peers),
        0 <= i < peers.len(),
    ensures
        peer_map(peers).dom().contains(peers[i].addr),
        peer_map(peers)[peers[i].addr] == peers[i],
{
    let addr = peers[i].addr;
    let j = choose|j: int| 0 <= j < peers.len() && (#[trigger] peers[j]).addr == addr;
    assert(peers[i].addr == addr);
    assert(peers[j].addr == addr);
}

proof fn lemma_peer_map_update(peers: Seq<Peer>, i: int, peer: Peer)
    requires
        distinct_peers(peers),
        0 <= i < peers.len(),
        peer.addr == peers[i].addr,
    ensures
        distinct_peers(peers.update(i, peer)),
        peer_map(peers.update(i, peer)) == peer_map(peers).insert(peer.addr, peer),
{
    let after = peers.update(i, peer);
    assert(distinct_peers(after)) by {
        assert forall|a: int, b: int|
            0 <= a < after.len() && 0 <= b < after.len() && a != b implies (
        #[trigger] after[a]).addr != (#[trigger] after[b]).addr by {
            assert(peers[a].addr != peers[b].addr);
        }
    }
    assert forall|addr: Addr|
        #![trigger peer_map(after).dom().contains(addr)]
        peer_map(after).dom().contains(addr) <==> peer_map(peers).insert(
            peer.addr,
            peer,
        ).dom().contains(addr) by {
        if peer_map(after).dom().contains(addr) {
            let k = choose|k: int| 0 <= k < after.len() && (#[trigger] after[k]).addr == addr;
            assert(peers[k].addr == addr);
        }
        if peer_map(peers).dom().contains(addr) {
            let k = choose|k: int| 0 <= k < peers.len() && (#[trigger] peers[k]).addr == addr;
            assert(after[k].addr == addr);
        }
        assert(after[i].addr == peer.addr);
    }
    assert forall|addr: Addr| #[trigger]
        peer_map(after).dom().contains(addr) implies peer_map(after)[addr] == peer_map(
        peers,
    ).insert(peer.addr, peer)[addr] by {
        let k = choose|k: int| 0 <= k < after.len() && (#[trigger] after[k]).addr == addr;
        lemma_peer_map(after, k);
        lemma_peer_map(peers, k);
        assert(peers[k].addr == addr);
        if k != i {
            assert(after[k].addr != after[i].addr);
        }
    }
    assert(peer_map(after) =~= peer_map(peers).insert(peer.addr, peer));
}

proof fn lemma_peer_map_push(peers: Seq<Peer>, peer: Peer)
    requires
        distinct_peers(peers),
        !peer_map(peers).dom().contains(peer.addr),
    ensures
        distinct_peers(peers.push(peer)),
        peer_map(peers.push(peer)) == peer_map(peers).insert(peer.addr, peer),
{
    let after = peers.push(peer);
    assert(distinct_peers(after)) by {
        assert forall|a: int, b: int|
            0 <= a < after.len() && 0 <= b < after.len() && a != b implies (
        #[trigger] after[a]).addr != (#[trigger] after[b]).addr by {
            if a < peers.len() && b < peers.len() {
                assert(peers[a].addr != peers[b].addr);
            } else if a < peers.len() {
                assert(peers[a].addr == after[a].addr);
            } else {
                assert(peers[b].addr == after[b].addr);
            }
        }
    }
    assert forall|addr: Addr|
        #![trigger peer_map(after).dom().contains(addr)]
        peer_map(after).dom().contains(addr) <==> peer_map(peers).insert(
            peer.addr,
            peer,
        ).dom().contains(addr) by {
        if peer_map(after).dom().contains(addr) {
            let k = choose|k: int| 0 <= k < after.len() && (#[trigger] after[k]).addr == addr;
            if k < peers.len() {
                assert(peers[k].addr == addr);
            }
        }
        if peer_map(peers).dom().contains(addr) {
            let k = choose|k: int| 0 <= k < peers.len() && (#[trigger] peers[k]).addr == addr;
            assert(after[k].addr == addr);
        }
        assert(after[peers.len() as int].addr == peer.addr);
    }
    assert forall|addr: Addr| #[trigger]
        peer_map(after).dom().contains(addr) implies peer_map(after)[addr] == peer_map(
        peers,
    ).insert(peer.addr, peer)[addr] by {
        let k = choose|k: int| 0 <= k < after.len() && (#[trigger] after[k]).addr == addr;
        lemma_peer_map(after, k);
        if k < peers.len() {
            lemma_peer_map(peers, k);
            assert(after[k].addr != after[peers.len() as int].addr);
        }
    }
    assert(peer_map(after) =~= peer_map(peers).insert(peer.addr, peer));
}

proof fn lemma_peer_map_remove(peers: Seq<Peer>, i: int)
    requires
        distinct_peers(peers),
        0 <= i < peers.len(),
    ensures
        distinct_peers(peers.remove(i)),
        peer_map(peers.remove(i)) == peer_map(peers).remove(peers[i].addr),
{
    let after = peers.remove(i);
    let gone = peers[i].addr;
    assert(distinct_peers(after)) by {
        assert forall|a: int, b: int|
            0 <= a < after.len() && 0 <= b < after.len() && a != b implies (
        #[trigger] after[a]).addr != (#[trigger] after[b]).addr by {
            let p = if a < i {
                a
            } else {
                a + 1
            };
            let q = if b < i {
                b
            } else {
                b + 1
            };
            assert(peers[p].addr != peers[q].addr);
        }
    }
    assert forall|addr: Addr|
        #![trigger peer_map(after).dom().contains(addr)]
        peer_map(after).dom().contains(addr) <==> peer_map(peers).remove(gone).dom().contains(
            addr,
        ) by {
        if peer_map(after).dom().contains(addr) {
            let k = choose|k: int| 0 <= k < after.len() && (#[trigger] after[k]).addr == addr;
            let p = if k < i {
                k
            } else {
                k + 1
            };
            assert(peers[p].addr == addr);
            assert(peers[p].addr != peers[i].addr);
        }
        if peer_map(peers).dom().contains(addr) && addr != gone {
            let k = choose|k: int| 0 <= k < peers.len() && (#[trigger] peers[k]).addr == addr;
            let p = if k < i {
                k
            } else {
                k - 1
            };
            assert(after[p].addr == addr);
        }
    }
    assert forall|addr: Addr| #[trigger]
        peer_map(after).dom().contains(addr) implies peer_map(after)[addr] == peer_map(
        peers,
    ).remove(gone)[addr] by {
        let k = choose|k: int| 0 <= k < after.len() && (#[trigger] after[k]).addr == addr;
        let p = if k < i {
            k
        } else {
            k + 1
        };
        lemma_peer_map(after, k);
        lemma_peer_map(peers, p);
        assert(peers[p].addr != peers[i].addr);
    }
    assert(peer_map(after) =~= peer_map(peers).remove(gone));
}

impl Torrent {
    /// Whether the torrent is consistent: no two of its peers have the same
    /// address.
    pub open spec fn wf(&self) -> bool {
        &&& distinct_peers(self.peers@)
        &&& self.downloaded_payload_counter.has_room(0)
        &&& self.uploaded_payload_counter.has_room(0)
        &&& self.downloaded_protocol_counter.has_room(0)
        &&& self.uploaded_protocol_counter.has_room(0)
    }

    /// The number of peers that we are connected to or can connect to.
    pub open spec fn peer_count(&self) -> int {
        self.peers@.len() + self.available_peers@.len() as int
    }

    /// Whether everything but the peers is the same.
    pub open spec fn same_but_peers(&self, other: &Torrent) -> bool {
        &&& self.trackers == other.trackers
        &&& self.listen_port == other.listen_port
        &&& self.start_time == other.start_time
        &&& self.run_duration == other.run_duration
        &&& self.same_counters(other)
    }

    /// Whether the counters are the same.
    pub open spec fn same_counters(&self, other: &Torrent) -> bool {
        &&& self.downloaded_payload_counter == other.downloaded_payload_counter
        &&& self.uploaded_payload_counter == other.uploaded_payload_counter
        &&& self.downloaded_protocol_counter == other.downloaded_protocol_counter
        &&& self.uploaded_protocol_counter == other.uploaded_protocol_counter
    }

    /// Creates a new `Torrent` instance for downloading or seeding a torrent.
    ///
    /// # Important
    ///
    /// This constructor only initializes the torrent components but does not
    /// actually start it. See [`Self::start`].
    pub fn new(tracker_count: usize, listen_port: u16) -> (torrent: Self)
        ensures
            torrent.wf(),
            torrent.peers@ == Seq::<Peer>::empty(),
            torrent.available_peers@ == Seq::<Addr>::empty(),
            torrent.trackers@.len() == tracker_count,
            forall|i: int|
                0 <= i < tracker_count ==> {
                    &&& (#[trigger] torrent.trackers@[i]).id is None
                    &&& torrent.trackers@[i].last_announce_time is None
                    &&& torrent.trackers@[i].interval is None
                    &&& torrent.trackers@[i].min_interval is None
                    &&& torrent.trackers@[i].error_count == 0
                },
            torrent.listen_port == listen_port,
            torrent.start_time is None,
            torrent.run_duration.nanos == 0,
            torrent.downloaded_payload_counter == (Counter { total: 0, round: 0, avg: 0, peak: 0 }),
            torrent.uploaded_payload_counter == (Counter { total: 0, round: 0, avg: 0, peak: 0 }),
            torrent.downloaded_protocol_counter == (Counter { total: 0, round: 0, avg: 0, peak: 0 }),
            torrent.uploaded_protocol_counter == (Counter { total: 0, round: 0, avg: 0, peak: 0 }),
    {
        let mut trackers: Vec<TrackerEntry> = Vec::new();
        let mut i: usize = 0;
        while i < tracker_count
            invariant
                i <= tracker_count,
                trackers@.len() == i,
                forall|k: int|
                    0 <= k < i ==> {
                        &&& (#[trigger] trackers@[k]).id is None
                        &&& trackers@[k].last_announce_time is None
                        &&& trackers@[k].interval is None
                        &&& trackers@[k].min_interval is None
                        &&& trackers@[k].error_count == 0
                    },
            decreases tracker_count - i,
        {
            trackers.push(TrackerEntry::new());
            i = i + 1;
        }
        Torrent {
            peers: Vec::new(),
            available_peers: Vec::new(),
            trackers,
            listen_port,
            start_time: None,
            run_duration: Duration { nanos: 0 },
            downloaded_payload_counter: Counter::default(),
            uploaded_payload_counter: Counter::default(),
            downloaded_protocol_counter: Counter::default(),
            uploaded_protocol_counter: Counter::default(),
        }
    }

    /// Starts the torrent, with the given peers to connect to.
    pub fn start(&mut self, peers: &Vec<Addr>, now: Instant)
        requires
            old(self).wf(),
        ensures
            final(self).wf(),
            final(self).available_peers@ == old(self).available_peers@ + peers@,
            final(self).start_time == Some(now),
            final(self).peers@ == old(self).peers@,
            final(self).trackers == old(self).trackers,
            final(self).run_duration == old(self).run_duration,
            final(self).listen_port == old(self).listen_port,
            final(self).same_counters(&*old(self)),
    {
        add_addrs(&mut self.available_peers, peers);
        // record the torrent starttime
        self.start_time = Some(now);
    }

    /// Returns the position of the peer with the address.
    fn position(&self, addr: Addr) -> (pos: Option<usize>)
        requires
            distinct_peers(self.peers@),
        ensures
            match pos {
                Some(pos) => pos < self.peers@.len() && self.peers@[pos as int].addr == addr,
                None => !peer_map(self.peers@).dom().contains(addr),
            },
    {
        let mut i: usize = 0;
        while i < self.peers.len()
            invariant
                i <= self.peers@.len(),
                forall|k: int| 0 <= k < i ==> (#[trigger] self.peers@[k]).addr != addr,
            decreases self.peers@.len() - i,
        {
            if self.peers[i].addr == addr {
                return Some(i);
            }
            i = i + 1;
        }
        None
    }

    /// Adds a peer, in place of another one with the same address.
    fn insert_peer(&mut self, peer: Peer)
        requires
            old(self).wf(),
        ensures
            final(self).wf(),
            peer_map(final(self).peers@) == peer_map(old(self).peers@).insert(peer.addr, peer),
            old(self).peers@.len() <= final(self).peers@.len() <= old(self).peers@.len() + 1,
            final(self).available_peers == old(self).available_peers,
            final(self).same_but_peers(&*old(self)),
    {
        match self.position(peer.addr) {
            Some(pos) => {
                proof {
                    lemma_peer_map_update(self.peers@, pos as int, peer);
                }
                self.peers[pos] = peer;
            },
            None => {
                proof {
                    lemma_peer_map_push(self.peers@, peer);
                }
                self.peers.push(peer);
            },
        }
    }

    /// Adds a peer that has connected to us.
    pub fn accept_peer(&mut self, addr: Addr)
        requires
            old(self).wf(),
        ensures
            final(self).wf(),
            peer_map(final(self).peers@) == peer_map(old(self).peers@).insert(
                addr,
                Peer { addr, state: State::Handshaking, side: Side::Leech },
            ),
            final(self).available_peers == old(self).available_peers,
            final(self).same_but_peers(&*old(self)),
    {
        self.insert_peer(Peer { addr, state: State::Handshaking, side: Side::default() });
    }

    /// The number of peers that can be connected to now.
    pub open spec fn connect_count(&self) -> int {
        let free = MAX_CONNECTED_PEER_COUNT - self.peers@.len();
        if free <= 0 {
            0
        } else if free < self.available_peers@.len() {
            free
        } else {
            self.available_peers@.len() as int
        }
    }

    /// Attempts to connect available peers, if we have any. Returns the addresses
    /// to connect to.
    pub fn connect_peers(&mut self) -> (addrs: Vec<Addr>)
        requires
            old(self).wf(),
        ensures
            final(self).wf(),
            addrs@ == old(self).available_peers@.take(old(self).connect_count()),
            final(self).available_peers@ == old(self).available_peers@.skip(
                old(self).connect_count(),
            ),
            peer_map(final(self).peers@) == with_connecting(peer_map(old(self).peers@), addrs@),
            old(self).peers@.len() <= MAX_CONNECTED_PEER_COUNT ==> final(self).peers@.len()
                <= MAX_CONNECTED_PEER_COUNT,
            final(self).same_but_peers(&*old(self)),
    {
        let connected: usize = self.peers.len();
        let free: usize = if connected < MAX_CONNECTED_PEER_COUNT {
            MAX_CONNECTED_PEER_COUNT - connected
        } else {
            0
        };
        let available: usize = self.available_peers.len();
        let connect_count: usize = if free < available {
            free
        } else {
            available
        };
        let ghost before = self.peers@;
        let ghost waiting = self.available_peers@;
        let mut addrs: Vec<Addr> = Vec::new();
        let mut rest: Vec<Addr> = Vec::new();
        let mut i: usize = 0;
        assert(addrs@ =~= waiting.take(0));
        while i < connect_count
            invariant
                i <= connect_count,
                connect_count <= waiting.len(),
                waiting == self.available_peers@,
                self.wf(),
                addrs@ == waiting.take(i as int),
                peer_map(self.peers@) == with_connecting(peer_map(before), addrs@),
                self.peers@.len() <= before.len() + i,
                self.same_but_peers(&*old(self)),
            decreases connect_count - i,
        {
            let addr: Addr = self.available_peers[i];
            let ghost done = addrs@;
            self.insert_peer(Peer { addr, state: State::Connecting, side: Side::default() });
            addrs.push(addr);
            proof {
                assert(addrs@.drop_last() =~= done);
                assert(addrs@ =~= waiting.take(i + 1));
            }
            i = i + 1;
        }
        while i < available
            invariant
                connect_count <= i <= available,
                available == waiting.len(),
                waiting == self.available_peers@,
                rest@ == waiting.subrange(connect_count as int, i as int),
            decreases available - i,
        {
            rest.push(self.available_peers[i]);
            i = i + 1;
            assert(rest@ =~= waiting.subrange(connect_count as int, i as int));
        }
        self.available_peers = rest;
        assert(rest@ =~= waiting.skip(connect_count as int));
        addrs
    }
}

/// Appends the addresses.
fn add_addrs(to: &mut Vec<Addr>, addrs: &Vec<Addr>)
    ensures
        final(to)@ == old(to)@ + addrs@,
{
    let ghost before = to@;
    let mut i: usize = 0;
    assert(to@ =~= before + addrs@.take(0));
    while i < addrs.len()
        invariant
            i <= addrs@.len(),
            to@ == before + addrs@.take(i as int),
        decreases addrs@.len() - i,
    {
        to.push(addrs[i]);
        i = i + 1;
        assert(to@ =~= before + addrs@.take(i as int));
    }
    assert(addrs@.take(i as int) =~= addrs@);
}

/// The number of peers to ask a tracker for: none if the torrent has enough of them,
/// or is about to stop.
pub open spec fn needed_peers(peer_count: int, event: Option<Event>) -> Option<usize> {
    if peer_count >= MIN_REQUESTED_PEER_COUNT || event == Some(Event::Stopped) {
        None
    } else {
        let needed = MAX_CONNECTED_PEER_COUNT - peer_count;
        Some(
            if needed < MIN_REQUESTED_PEER_COUNT {
                needed as usize
            } else {
                MIN_REQUESTED_PEER_COUNT
            },
        )
    }
}

impl Torrent {
    /// Whether the tracker is announced to now: it hasn't failed too often, and
    /// there is an event to announce, or we need peers and may ask for them, or it
    /// is time.
    pub open spec fn announces_to(&self, i: int, now: Instant, event: Option<Event>) -> bool {
        let tracker = self.trackers@[i];
        &&& tracker.error_count < TRACKER_ERROR_THRESHOLD
        &&& {
            ||| event is Some
            ||| needed_peers(self.peer_count(), event) matches Some(n) && n > 0 && is_due(
                tracker.last_announce_time,
                tracker.min_interval,
                now,
            )
            ||| is_due(tracker.last_announce_time, tracker.interval, now)
        }
    }

    /// What is announced to the tracker.
    pub open spec fn is_announce(
        &self,
        i: int,
        ctx: &TorrentContext,
        event: Option<Event>,
        params: Announce,
    ) -> bool {
        &&& params.tracker_id == self.trackers@[i].id
        &&& params.info_hash == ctx.info_hash
        &&& params.peer_id == ctx.client_id
        &&& params.port == self.listen_port
        &&& params.peer_count == needed_peers(self.peer_count(), event)
        &&& params.uploaded == self.uploaded_payload_counter.total
        &&& params.downloaded == self.downloaded_payload_counter.total
        &&& params.left == ctx.storage.download_len - self.downloaded_payload_counter.total
        &&& params.event == event
    }

    /// Checks whether we need to announce to any trackers or if we need to request
    /// peers.
    ///
    /// Returns the first tracker at or after the position that is announced to, and
    /// what is announced. When the tracker has answered,
    /// [`Self::handle_announce_result`] is called, and then the trackers after it
    /// are checked.
    pub fn announce_to_trackers(
        &self,
        from: usize,
        ctx: &TorrentContext,
        now: Instant,
        event: Option<Event>,
    ) -> (announce: Option<(usize, Announce)>)
        requires
            self.downloaded_payload_counter.total <= ctx.storage.download_len,
        ensures
            match announce {
                Some((i, params)) => {
                    &&& from <= i < self.trackers@.len()
                    &&& self.announces_to(i as int, now, event)
                    &&& forall|k: int| from <= k < i ==> !self.announces_to(k, now, event)
                    &&& self.is_announce(i as int, ctx, event, params)
                },
                None => forall|k: int|
                    from <= k < self.trackers@.len() ==> !self.announces_to(k, now, event),
            },
    {
        // calculate transfer statistics in advance
        let uploaded: u64 = self.uploaded_payload_counter.total();
        let downloaded: u64 = self.downloaded_payload_counter.total();
        let left: u64 = ctx.storage.download_len - downloaded;
        let needed_peer_count: Option<usize> = self.needed_peer_count(event);
        let mut i: usize = from;
        while i < self.trackers.len()
            invariant
                from <= i,
                needed_peer_count == needed_peers(self.peer_count(), event),
                uploaded == self.uploaded_payload_counter.total,
                downloaded == self.downloaded_payload_counter.total,
                left == ctx.storage.download_len - downloaded,
                forall|k: int| from <= k < i ==> !self.announces_to(k, now, event),
            decreases self.trackers@.len() - i,
        {
            let tracker: &TrackerEntry = &self.trackers[i];
            let need_peers: bool = match needed_peer_count {
                Some(count) => count > 0,
                None => false,
            };
            // skip trackers that errored too often
            //
            // we can override the normal announce interval if we need peers or
            // if we have an event to announce
            if tracker.error_count < TRACKER_ERROR_THRESHOLD && (event.is_some() || (need_peers
                && tracker.can_announce(now)) || tracker.should_announce(now)) {
                let params = Announce {
                    tracker_id: match &tracker.id {
                        Some(id) => Some(id.clone()),
                        None => None,
                    },
                    info_hash: ctx.info_hash,
                    peer_id: ctx.client_id,
                    port: self.listen_port,
                    peer_count: needed_peer_count,
                    uploaded,
                    downloaded,
                    left,
                    event,
                };
                return Some((i, params));
            }
            i = i + 1;
        }
        None
    }

    /// Returns the number of peers to ask a tracker for.
    fn needed_peer_count(&self, event: Option<Event>) -> (count: Option<usize>)
        ensures
            count == needed_peers(self.peer_count(), event),
    {
        let stopped: bool = match event {
            Some(Event::Stopped) => true,
            _ => false,
        };
        // Check if the torrent's peer count has fallen below the minimum.
        // But don't request new peers otherwise or if we're about to stop
        // torrent.
        if stopped || self.peers.len() >= MIN_REQUESTED_PEER_COUNT || self.available_peers.len()
            >= MIN_REQUESTED_PEER_COUNT - self.peers.len() {
            None
        } else {
            let needed: usize = MAX_CONNECTED_PEER_COUNT - self.peers.len()
                - self.available_peers.len();
            // Download at least this many peers, even if we don't need as
            // much. This is because later we may be able to connect to more
            // peers and in that case we don't want to wait till the next
            // tracker request.
            if needed < MIN_REQUESTED_PEER_COUNT {
                Some(needed)
            } else {
                Some(MIN_REQUESTED_PEER_COUNT)
            }
        }
    }

    /// Handles what came of an announce to the tracker at the position: its
    /// response, or nothing if it could not be announced to.
    pub fn handle_announce_result(&mut self, i: usize, now: Instant, response: Option<Response>)
        requires
            old(self).wf(),
            i < old(self).trackers@.len(),
            old(self).trackers@[i as int].error_count < TRACKER_ERROR_THRESHOLD,
        ensures
            final(self).wf(),
            final(self).peers == old(self).peers,
            final(self).start_time == old(self).start_time,
            final(self).run_duration == old(self).run_duration,
            final(self).listen_port == old(self).listen_port,
            final(self).same_counters(&*old(self)),
            final(self).available_peers@ == match response {
                Some(response) => old(self).available_peers@ + response.peers@,
                None => old(self).available_peers@,
            },
            final(self).trackers@.len() == old(self).trackers@.len(),
            forall|k: int|
                0 <= k < old(self).trackers@.len() && k != i ==> #[trigger] final(self).trackers@[k]
                    == old(self).trackers@[k],
            final(self).trackers@[i as int].last_announce_time == Some(now),
            match response {
                Some(response) => {
                    let before = old(self).trackers@[i as int];
                    let after = final(self).trackers@[i as int];
                    &&& after.id == if response.tracker_id is Some {
                        response.tracker_id
                    } else {
                        before.id
                    }
                    &&& after.interval == if response.interval is Some {
                        response.interval
                    } else {
                        before.interval
                    }
                    &&& after.min_interval == if response.min_interval is Some {
                        response.min_interval
                    } else {
                        before.min_interval
                    }
                    &&& after.error_count == before.error_count
                },
                None => {
                    let before = old(self).trackers@[i as int];
                    let after = final(self).trackers@[i as int];
                    &&& after.id == before.id
                    &&& after.interval == before.interval
                    &&& after.min_interval == before.min_interval
                    &&& after.error_count == before.error_count + 1
                },
            },
    {
        match response {
            Some(response) => {
                if response.tracker_id.is_some() {
                    self.trackers[i].id = response.tracker_id;
                }
                if response.interval.is_some() {
                    self.trackers[i].interval = response.interval;
                }
                if response.min_interval.is_some() {
                    self.trackers[i].min_interval = response.min_interval;
                }
                add_addrs(&mut self.available_peers, &response.peers);
            },
            None => {
                let error_count: usize = self.trackers[i].error_count;
                self.trackers[i].error_count = error_count + 1;
            },
        }
        self.trackers[i].last_announce_time = Some(now);
    }
}

/// The type returned on completing a piece.
#[derive(Clone, Copy, Debug, PartialEq, Eq, Structural)]
pub struct PieceCompletion {
    /// The index of the piece.
    pub index: PieceIndex,
    /// Whether the piece is valid.
    ///
    /// If the piece is invalid, it is not written to disk.
    pub is_valid: bool,
}

/// The bytes that a session has transferred since its last report.
#[derive(Clone, Copy, Debug, PartialEq, Eq, Structural)]
pub struct Throughput {
    pub downloaded_payload_count: u64,
    pub uploaded_payload_count: u64,
    pub downloaded_protocol_count: u64,
    pub uploaded_protocol_count: u64,
}

/// What a session reports to its torrent.
#[derive(Clone, Copy, Debug, PartialEq, Eq, Structural)]
pub struct SessionInfo {
    pub state: State,
    pub throughput: Throughput,
}

/// The types of messages that the torrent can receive from other parts of the
/// engine.
#[derive(Debug)]
pub enum Message {
    /// Sent when some blocks were written to disk or an error occurred while
    /// writing.
    PieceCompletion(Result<PieceCompletion, WriteError>),
    /// There was an error reading a block.
    ReadError { block_info: BlockInfo, error: ReadError },
    /// Peer sessions periodically send this message when they have a state
    /// change.
    PeerState { addr: Addr, info: SessionInfo },
}

/// What a torrent does on a message.
#[derive(Clone, Copy, Debug, PartialEq, Eq, Structural)]
pub struct Reaction {
    /// If set, all peers are told that we got this piece.
    pub new_piece: Option<PieceIndex>,
    /// Whether the download is complete. If so, the trackers are told, and the
    /// torrent event loop exits.
    pub stop: bool,
}

impl Torrent {
    /// Whether what a session reports can be recorded.
    pub open spec fn can_record(&self, throughput: Throughput) -> bool {
        &&& self.downloaded_payload_counter.has_room(throughput.downloaded_payload_count as int)
        &&& self.uploaded_payload_counter.has_room(throughput.uploaded_payload_count as int)
        &&& self.downloaded_protocol_counter.has_room(throughput.downloaded_protocol_count as int)
        &&& self.uploaded_protocol_counter.has_room(throughput.uploaded_protocol_count as int)
    }

    /// Handles a message from another task in the engine.
    ///
    /// The message may result in the torrent scheduled to be shut down. This
    /// is indicated by the result value.
    pub fn handle_msg(&mut self, ctx: &TorrentContext, msg: Message) -> (reaction: Reaction)
        requires
            old(self).wf(),
            msg matches Message::PeerState { info, .. } ==> old(self).can_record(info.throughput),
        ensures
            final(self).wf(),
            final(self).available_peers == old(self).available_peers,
            final(self).trackers == old(self).trackers,
            final(self).start_time == old(self).start_time,
            final(self).run_duration == old(self).run_duration,
            final(self).listen_port == old(self).listen_port,
            // a valid piece is announced, and if it was the last one we are done
            reaction == match msg {
                Message::PieceCompletion(Ok(piece)) if piece.is_valid => Reaction {
                    new_piece: Some(piece.index),
                    stop: count_unset(ctx.piece_picker@.own) == 0,
                },
                _ => Reaction { new_piece: None, stop: false },
            },
            // the report of a peer that we know is recorded, and the peer is removed
            // if it is disconnected
            match msg {
                Message::PeerState { addr, info } if peer_map(
                    old(self).peers@,
                ).dom().contains(addr) => {
                    &&& peer_map(final(self).peers@) == if info.state == State::Disconnected {
                        peer_map(old(self).peers@).remove(addr)
                    } else {
                        peer_map(old(self).peers@).insert(
                            addr,
                            Peer { state: info.state, ..peer_map(old(self).peers@)[addr] },
                        )
                    }
                    &&& final(self).downloaded_payload_counter
                        == old(self).downloaded_payload_counter.plus(
                        info.throughput.downloaded_payload_count as int,
                    )
                    &&& final(self).uploaded_payload_counter
                        == old(self).uploaded_payload_counter.plus(
                        info.throughput.uploaded_payload_count as int,
                    )
                    &&& final(self).downloaded_protocol_counter
                        == old(self).downloaded_protocol_counter.plus(
                        info.throughput.downloaded_protocol_count as int,
                    )
                    &&& final(self).uploaded_protocol_counter
                        == old(self).uploaded_protocol_counter.plus(
                        info.throughput.uploaded_protocol_count as int,
                    )
                },
                _ => {
                    &&& final(self).peers == old(self).peers
                    &&& final(self).same_counters(&*old(self))
                },
            },
    {
        match msg {
            Message::PeerState { addr, info } => {
                match self.position(addr) {
                    Some(pos) => {
                        let ghost before = self.peers@;
                        let peer = Peer {
                            addr,
                            state: info.state,
                            side: self.peers[pos].side,
                        };
                        proof {
                            lemma_peer_map(before, pos as int);
                            lemma_peer_map_update(before, pos as int, peer);
                            lemma_peer_map_remove(before, pos as int);
                        }
                        self.downloaded_payload_counter.add(
                            info.throughput.downloaded_payload_count,
                        );
                        self.uploaded_payload_counter.add(info.throughput.uploaded_payload_count);
                        self.downloaded_protocol_counter.add(
                            info.throughput.downloaded_protocol_count,
                        );
                        self.uploaded_protocol_counter.add(info.throughput.uploaded_protocol_count);
                        // if we disconnected peer, remove it
                        if info.state == State::Disconnected {
                            self.peers.remove(pos);
                        } else {
                            self.peers[pos] = peer;
                        }
                    },
                    None => {},
                }
                Reaction { new_piece: None, stop: false }
            },
            Message::PieceCompletion(write_result) => match write_result {
                Ok(piece) => {
                    // if this write completed a piece, check torrent
                    // completion
                    if piece.is_valid {
                        // note that this piece picker is set as complete by
                        // peer sessions
                        let missing_piece_count: usize = ctx.piece_picker.count_missing_pieces();
                        Reaction { new_piece: Some(piece.index), stop: missing_piece_count == 0 }
                    } else {
                        Reaction { new_piece: None, stop: false }
                    }
                },
                Err(_) => Reaction { new_piece: None, stop: false },
            },
            Message::ReadError { .. } => Reaction { new_piece: None, stop: false },
        }
    }

    /// The time that has passed since the last tick, or the start of the torrent.
    pub open spec fn elapsed(&self, prev_tick_time: Option<Instant>, now: Instant) -> int {
        match prev_tick_time {
            Some(t) => nanos_between(t, now),
            None => match self.start_time {
                Some(t) => nanos_between(t, now),
                None => 0,
            },
        }
    }

    /// Updates the torrent at the end of a round, which lasts a second. Returns the
    /// addresses to connect to. After this the trackers are announced to, if
    /// necessary.
    pub fn tick(
        &mut self,
        prev_tick_time: &mut Option<Instant>,
        now: Instant,
        rates: Rates,
    ) -> (addrs: Vec<Addr>)
        requires
            old(self).wf(),
            old(self).run_duration.nanos + old(self).elapsed(*old(prev_tick_time), now)
                <= u128::MAX,
        ensures
            final(self).wf(),
            *final(prev_tick_time) == Some(now),
            final(self).run_duration.nanos == old(self).run_duration.nanos + old(self).elapsed(
                *old(prev_tick_time),
                now,
            ),
            addrs@ == old(self).available_peers@.take(old(self).connect_count()),
            final(self).available_peers@ == old(self).available_peers@.skip(
                old(self).connect_count(),
            ),
            peer_map(final(self).peers@) == with_connecting(peer_map(old(self).peers@), addrs@),
            final(self).downloaded_payload_counter
                == old(self).downloaded_payload_counter.next_round(rates.downloaded_payload),
            final(self).uploaded_payload_counter == old(self).uploaded_payload_counter.next_round(
                rates.uploaded_payload,
            ),
            final(self).downloaded_protocol_counter
                == old(self).downloaded_protocol_counter.next_round(rates.downloaded_protocol),
            final(self).uploaded_protocol_counter == old(self).uploaded_protocol_counter.next_round(
                rates.uploaded_protocol,
            ),
            final(self).trackers == old(self).trackers,
            final(self).start_time == old(self).start_time,
            final(self).listen_port == old(self).listen_port,
    {
        // calculate how long torrent has been running
        let since: Option<Instant> = match *prev_tick_time {
            Some(t) => Some(t),
            None => self.start_time,
        };
        if let Some(t) = since {
            let elapsed: Duration = now.saturating_duration_since(t);
            self.run_duration = Duration { nanos: self.run_duration.nanos + elapsed.nanos };
        }
        *prev_tick_time = Some(now);
        // check if we can connect some peers
        let addrs: Vec<Addr> = self.connect_peers();
        self.downloaded_payload_counter.reset(rates.downloaded_payload);
        self.uploaded_payload_counter.reset(rates.uploaded_payload);
        self.downloaded_protocol_counter.reset(rates.downloaded_protocol);
        self.uploaded_protocol_counter.reset(rates.uploaded_protocol);
        addrs
    }
}

/// A tracker that has failed as often as the threshold is never announced to again,
/// not even with an event.
pub proof fn law_failing_tracker_is_given_up(
    torrent: Torrent,
    i: int,
    now: Instant,
    event: Option<Event>,
)
    requires
        0 <= i < torrent.trackers@.len(),
        torrent.trackers@[i].error_count >= TRACKER_ERROR_THRESHOLD,
    ensures
        !torrent.announces_to(i, now, event),
{
}

/// An event is announced to every tracker that hasn't failed too often.
pub proof fn law_events_are_always_announced(torrent: Torrent, i: int, now: Instant, event: Event)
    requires
        0 <= i < torrent.trackers@.len(),
        torrent.trackers@[i].error_count < TRACKER_ERROR_THRESHOLD,
    ensures
        torrent.announces_to(i, now, Some(event)),
{
}

/// Without an event, a tracker is not announced to again within the lesser of its
/// interval and its minimum interval, and if we need no peers, not within its
/// interval.
pub proof fn law_announces_keep_the_interval(
    torrent: Torrent,
    i: int,
    now: Instant,
    last: Instant,
    interval: Duration,
    min_interval: Duration,
)
    requires
        0 <= i < torrent.trackers@.len(),
        torrent.trackers@[i].last_announce_time == Some(last),
        torrent.trackers@[i].interval == Some(interval),
        torrent.trackers@[i].min_interval == Some(min_interval),
    ensures
        now.nanos <= last.nanos + interval.nanos && now.nanos <= last.nanos + min_interval.nanos
            ==> !torrent.announces_to(i, now, None),
        now.nanos <= last.nanos + interval.nanos && torrent.peer_count()
            >= MIN_REQUESTED_PEER_COUNT ==> !torrent.announces_to(i, now, None),
{
}

/// No peers are asked for when the torrent stops.
pub proof fn law_stopping_torrent_needs_no_peers(peer_count: int)
    ensures
        needed_peers(peer_count, Some(Event::Stopped)) is None,
{
}

/// As long as the torrent has fewer than ten peers, connected and available together,
/// each announce other than that it stops asks for ten. With ten peers or more, none
/// are asked for.
pub proof fn law_peers_are_asked_for_below_the_minimum(peer_count: int, event: Option<Event>)
    requires
        0 <= peer_count,
    ensures
        peer_count < 10 && event != Some(Event::Stopped) ==> needed_peers(peer_count, event)
            == Some(10usize),
        peer_count >= 10 || event == Some(Event::Stopped) ==> needed_peers(peer_count, event)
            is None,
{
}

/// A tracker that has not failed ten times is announced to when there is an event, when
/// more than the interval has passed since the last announce, and when the torrent has
/// fewer than ten peers and more than the minimum interval has passed. In no other case
/// it is. An interval that the tracker did not give counts as none.
pub proof fn law_trackers_are_announced_to_when_due(
    torrent: Torrent,
    i: int,
    now: Instant,
    event: Option<Event>,
)
    requires
        0 <= i < torrent.trackers@.len(),
    ensures
        ({
            let tracker = torrent.trackers@[i];
            let peers = torrent.peers@.len() + torrent.available_peers@.len();
            let interval = if tracker.interval is Some {
                tracker.interval->0.nanos as int
            } else {
                0
            };
            let min_interval = if tracker.min_interval is Some {
                tracker.min_interval->0.nanos as int
            } else {
                0
            };
            let waited = now.nanos - tracker.last_announce_time->0.nanos;
            &&& tracker.error_count >= 10 ==> !torrent.announces_to(i, now, event)
            &&& tracker.error_count < 10 && event is Some ==> torrent.announces_to(i, now, event)
            &&& tracker.error_count < 10 && tracker.last_announce_time is None
                ==> torrent.announces_to(i, now, event)
            &&& tracker.error_count < 10 && tracker.last_announce_time is Some && event is None ==> {
                &&& waited > interval ==> torrent.announces_to(i, now, event)
                &&& peers < 10 && waited > min_interval ==> torrent.announces_to(i, now, event)
                &&& waited <= interval && (peers >= 10 || waited <= min_interval)
                    ==> !torrent.announces_to(i, now, event)
            }
        }),
{
}

/// What is announced tells the tracker who we are, how much we have transferred and how
/// much is left, so that what was downloaded and what is left make up the torrent.
pub proof fn law_announce_tells_the_progress(
    torrent: Torrent,
    i: int,
    ctx: TorrentContext,
    event: Option<Event>,
    params: Announce,
)
    requires
        torrent.is_announce(i, &ctx, event, params),
    ensures
        params.downloaded == torrent.downloaded_payload_counter.total,
        params.uploaded == torrent.uploaded_payload_counter.total,
        params.downloaded + params.left == ctx.storage.download_len,
        params.port == torrent.listen_port,
        params.info_hash == ctx.info_hash,
        params.peer_id == ctx.client_id,
        params.tracker_id == torrent.trackers@[i].id,
        params.event == event,
        torrent.peers@.len() + torrent.available_peers@.len() < 10 && event != Some(
            Event::Stopped,
        ) ==> params.peer_count == Some(10usize),
        torrent.peers@.len() + torrent.available_peers@.len() >= 10 || event == Some(
            Event::Stopped,
        ) ==> params.peer_count is None,
{
}

/// As many of the available peers are connected to as there are, but not so many that
/// there would be more than fifty.
pub proof fn law_free_slots_are_filled(torrent: Torrent)
    ensures
        0 <= torrent.connect_count() <= torrent.available_peers@.len(),
        torrent.connect_count() > 0 ==> torrent.peers@.len() + torrent.connect_count() <= 50,
        torrent.connect_count() == torrent.available_peers@.len() || torrent.peers@.len()
            + torrent.connect_count() >= 50,
{
}

/// Each of the peers that are connected to is known afterwards as connecting, and what
/// is known of the other peers stays.
pub proof fn law_connecting_peers_are_known(peers: Map<Addr, Peer>, addrs: Seq<Addr>, addr: Addr)
    ensures
        addrs.contains(addr) ==> {
            &&& with_connecting(peers, addrs).dom().contains(addr)
            &&& with_connecting(peers, addrs)[addr].addr == addr
            &&& with_connecting(peers, addrs)[addr].state == State::Connecting
            &&& with_connecting(peers, addrs)[addr].side == Side::Leech
        },
        !addrs.contains(addr) ==> {
            &&& with_connecting(peers, addrs).dom().contains(addr) == peers.dom().contains(addr)
            &&& with_connecting(peers, addrs)[addr] == peers[addr]
        },
    decreases addrs.len(),
{
    if addrs.len() > 0 {
        let front = addrs.drop_last();
        law_connecting_peers_are_known(peers, front, addr);
        assert(addrs =~= front.push(addrs.last()));
        if front.contains(addr) {
            let k = choose|k: int| 0 <= k < front.len() && front[k] == addr;
            assert(addrs[k] == addr);
        }
        if addrs.contains(addr) && addrs.last() != addr {
            let k = choose|k: int| 0 <= k < addrs.len() && addrs[k] == addr;
            assert(front[k] == addr);
        }
        assert(addrs.contains(addrs[addrs.len() - 1]));
    }
}

/// The time since the last tick is counted, or at the first tick since the start. It is
/// never negative.
pub proof fn law_run_time_is_counted(
    torrent: Torrent,
    prev_tick_time: Option<Instant>,
    now: Instant,
    since: Instant,
)
    requires
        prev_tick_time == Some(since) || (prev_tick_time is None && torrent.start_time == Some(
            since,
        )),
    ensures
        now.nanos >= since.nanos ==> torrent.elapsed(prev_tick_time, now) == now.nanos
            - since.nanos,
        now.nanos < since.nanos ==> torrent.elapsed(prev_tick_time, now) == 0,
{
}

/// The peers of a torrent are known by their addresses.
pub proof fn law_peers_are_found_by_address(peers: Seq<Peer>, i: int, addr: Addr)
    requires
        0 <= i < peers.len(),
        forall|j: int, k: int|
            0 <= j < peers.len() && 0 <= k < peers.len() && j != k ==> (#[trigger] peers[j]).addr
                != (#[trigger] peers[k]).addr,
        forall|j: int| 0 <= j < peers.len() ==> (#[trigger] peers[j]).addr != addr,
    ensures
        peer_map(peers).dom().contains(peers[i].addr),
        peer_map(peers)[peers[i].addr] == peers[i],
        !peer_map(peers).dom().contains(addr),
{
}

} // verus!
