//! What is exchanged with trackers.

use vstd::prelude::*;
use vstd::string::StringExecFns;
use vstd::utf8::encode_utf8;

use crate::block::{PeerId, Sha1Hash};
use crate::text::{decimal, percent_encoded, push_decimal, push_percent_encoded};
use crate::time::Duration;

verus! {

/// The address of a peer.
#[derive(Clone, Copy, Debug, PartialEq, Eq, PartialOrd, Ord, Hash, Structural)]
pub struct Addr {
    /// Whether this is an IPv6 address, rather than an IPv4 one.
    pub is_v6: bool,
    /// The IP address as a number.
    pub ip: u128,
    /// The port.
    pub port: u16,
    /// The flow information of an IPv6 address.
    pub flowinfo: u32,
    /// The scope id of an IPv6 address.
    pub scope_id: u32,
}

/// The event that is announced to a tracker.
#[derive(Clone, Copy, Debug, PartialEq, Eq, Structural)]
pub enum Event {
    /// The first request to tracker must include this value.
    Started,
    /// Must be sent to the tracker when the client becomes a seeder.
    Completed,
    /// Must be sent to tracker if the client is shutting down gracefully.
    Stopped,
}

/// The parameters of an announce.
#[derive(Debug)]
pub struct Announce {
    /// If a previous announce contained a tracker id, it is included.
    pub tracker_id: Option<String>,
    /// The torrent's info hash.
    pub info_hash: Sha1Hash,
    /// Our id.
    pub peer_id: PeerId,
    /// The port on which we are listening.
    pub port: u16,
    /// The number of peers that we want, if any.
    pub peer_count: Option<usize>,
    /// The number of bytes downloaded so far.
    pub downloaded: u64,
    /// The number of bytes uploaded so far.
    pub uploaded: u64,
    /// The number of bytes left to download.
    pub left: u64,
    /// The event, if any.
    pub event: Option<Event>,
}

/// What a tracker answers to an announce.
#[derive(Debug)]
pub struct Response {
    /// The tracker's id, which is to be sent along with later announces.
    pub tracker_id: Option<String>,
    /// If set, the announce failed for this reason.
    pub failure_reason: Option<String>,
    /// Similar to the failure reason, but the announce was processed.
    pub warning_message: Option<String>,
    /// The interval at which we should announce.
    pub interval: Option<Duration>,
    /// The least interval at which we may announce.
    pub min_interval: Option<Duration>,
    /// The number of seeds in the swarm.
    pub seeder_count: Option<usize>,
    /// The number of leeches in the swarm.
    pub leecher_count: Option<usize>,
    /// Peers that we can connect to.
    pub peers: Vec<Addr>,
}

/// The address of the peer at the position in a compact list of peers.
pub open spec fn compact_peer(bytes: Seq<u8>, i: int) -> Addr {
    Addr {
        is_v6: false,
        ip: (bytes[6 * i] * 0x100_0000 + bytes[6 * i + 1] * 0x1_0000 + bytes[6 * i + 2] * 0x100
            + bytes[6 * i + 3]) as u128,
        port: (bytes[6 * i + 4] * 0x100 + bytes[6 * i + 5]) as u16,
        flowinfo: 0,
        scope_id: 0,
    }
}

/// Returns the peers of a compact list: each of them is four bytes of an IPv4
/// address and two bytes of a port, the most significant first. Bytes at the end
/// that are not a whole entry are left out.
pub fn compact_peers(bytes: &[u8]) -> (peers: Vec<Addr>)
    ensures
        peers@ == Seq::new((bytes@.len() / 6) as nat, |i: int| compact_peer(bytes@, i)),
{
    let mut peers: Vec<Addr> = Vec::new();
    let mut pos: usize = 0;
    while bytes.len() - pos >= 6
        invariant
            pos <= bytes@.len(),
            pos == 6 * peers@.len(),
            forall|i: int|
                0 <= i < peers@.len() ==> #[trigger] peers@[i] == compact_peer(bytes@, i),
        decreases bytes@.len() - pos,
    {
        let ip: u128 = bytes[pos] as u128 * 0x100_0000 + bytes[pos + 1] as u128 * 0x1_0000
            + bytes[pos + 2] as u128 * 0x100 + bytes[pos + 3] as u128;
        let port: u16 = bytes[pos + 4] as u16 * 0x100 + bytes[pos + 5] as u16;
        peers.push(Addr { is_v6: false, ip, port, flowinfo: 0, scope_id: 0 });
        pos = pos + 6;
    }
    assert(peers@ =~= Seq::new((bytes@.len() / 6) as nat, |i: int| compact_peer(bytes@, i)));
    peers
}

/// The number of peers that we want, as a parameter of the query.
pub open spec fn peer_count_text(peer_count: Option<usize>) -> Seq<char> {
    match peer_count {
        Some(count) => "&numwant="@ + decimal(count as nat),
        None => Seq::empty(),
    }
}

/// The tracker id as a parameter of the query.
pub open spec fn tracker_id_text(tracker_id: Option<String>) -> Seq<char> {
    match tracker_id {
        Some(id) => "&trackerid="@ + percent_encoded(encode_utf8(id@)),
        None => Seq::empty(),
    }
}

/// The event as a parameter of the query.
pub open spec fn event_text(event: Option<Event>) -> Seq<char> {
    match event {
        Some(Event::Started) => "&event=started"@,
        Some(Event::Completed) => "&event=completed"@,
        Some(Event::Stopped) => "&event=stopped"@,
        None => Seq::empty(),
    }
}

impl Announce {
    /// The parameters in the form of an URL's query.
    pub open spec fn query_text(&self) -> Seq<char> {
        "info_hash="@ + percent_encoded(self.info_hash@) + "&peer_id="@ + percent_encoded(
            self.peer_id@,
        ) + "&port="@ + decimal(self.port as nat) + "&uploaded="@ + decimal(self.uploaded as nat)
            + "&downloaded="@ + decimal(self.downloaded as nat) + "&left="@ + decimal(
            self.left as nat,
        ) + "&compact=1"@ + peer_count_text(self.peer_count) + tracker_id_text(self.tracker_id)
            + event_text(self.event)
    }

    /// Returns the parameters in the form of an URL's query, which asks for
    /// a compact list of peers.
    pub fn query(&self) -> (text: String)
        ensures
            text@ == self.query_text(),
    {
        let mut text: String = String::new();
        text.append("info_hash=");
        push_percent_encoded(&mut text, &self.info_hash);
        text.append("&peer_id=");
        push_percent_encoded(&mut text, &self.peer_id);
        text.append("&port=");
        push_decimal(&mut text, self.port as u64);
        text.append("&uploaded=");
        push_decimal(&mut text, self.uploaded);
        text.append("&downloaded=");
        push_decimal(&mut text, self.downloaded);
        text.append("&left=");
        push_decimal(&mut text, self.left);
        text.append("&compact=1");
        match self.peer_count {
            Some(count) => {
                text.append("&numwant=");
                push_decimal(&mut text, count as u64);
            },
            None => {},
        }
        match &self.tracker_id {
            Some(id) => {
                text.append("&trackerid=");
                push_percent_encoded(&mut text, id.as_str().as_bytes());
            },
            None => {},
        }
        match self.event {
            Some(Event::Started) => text.append("&event=started"),
            Some(Event::Completed) => text.append("&event=completed"),
            Some(Event::Stopped) => text.append("&event=stopped"),
            None => {},
        }
        assert(text@ =~= self.query_text());
        text
    }
}

/// A list of compact peers is made of entries of six bytes: four of the address and two
/// of the port, the most significant first.
pub proof fn law_compact_peers_are_six_bytes_each(bytes: Seq<u8>, i: int)
    requires
        0 <= i,
        6 * i + 6 <= bytes.len(),
    ensures
        ({
            let peer = compact_peer(bytes, i);
            &&& !peer.is_v6
            &&& peer.ip == 256 * (256 * (256 * bytes[6 * i] + bytes[6 * i + 1]) + bytes[6 * i + 2])
                + bytes[6 * i + 3]
            &&& peer.port == 256 * bytes[6 * i + 4] + bytes[6 * i + 5]
            &&& peer.flowinfo == 0
            &&& peer.scope_id == 0
        }),
{
}

/// What is optional in an announce is added to the query only if it is given: an announce
/// with it is the one without, followed by the parameter.
pub proof fn law_optional_parameters_are_added(announce: Announce, bare: Announce)
    requires
        bare.tracker_id is None,
        bare.peer_count is None,
        bare.event is None,
        announce.info_hash == bare.info_hash,
        announce.peer_id == bare.peer_id,
        announce.port == bare.port,
        announce.downloaded == bare.downloaded,
        announce.uploaded == bare.uploaded,
        announce.left == bare.left,
    ensures
        announce.query_text() == bare.query_text() + (if announce.peer_count is Some {
            "&numwant="@ + decimal(announce.peer_count->0 as nat)
        } else {
            Seq::empty()
        }) + (if announce.tracker_id is Some {
            "&trackerid="@ + percent_encoded(encode_utf8(announce.tracker_id->0@))
        } else {
            Seq::empty()
        }) + (match announce.event {
            Some(Event::Started) => "&event=started"@,
            Some(Event::Completed) => "&event=completed"@,
            Some(Event::Stopped) => "&event=stopped"@,
            None => Seq::empty(),
        }),
        bare.query_text() == "info_hash="@ + percent_encoded(bare.info_hash@) + "&peer_id="@
            + percent_encoded(bare.peer_id@) + "&port="@ + decimal(bare.port as nat)
            + "&uploaded="@ + decimal(bare.uploaded as nat) + "&downloaded="@ + decimal(
            bare.downloaded as nat,
        ) + "&left="@ + decimal(bare.left as nat) + "&compact=1"@,
{
    assert(bare.query_text() =~= "info_hash="@ + percent_encoded(bare.info_hash@) + "&peer_id="@
        + percent_encoded(bare.peer_id@) + "&port="@ + decimal(bare.port as nat) + "&uploaded="@
        + decimal(bare.uploaded as nat) + "&downloaded="@ + decimal(bare.downloaded as nat)
        + "&left="@ + decimal(bare.left as nat) + "&compact=1"@);
}

} // verus!
