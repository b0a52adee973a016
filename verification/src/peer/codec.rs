//! The binary format of the messages that peers exchange.

use bytes::BytesMut;
use vstd::prelude::*;
use vstd::std_specs::convert::TryFromSpecImpl;
use vstd::string::StringSliceAdditionalSpecFns;

use crate::bitfield::{bits_of, law_stored_bits_read_back, max_bits, resized, stores_bits, Bitfield};
use crate::block::{BlockData, BlockInfo};
use crate::buffer::{be32, contents, from_be32, law_be32_round_trip, lemma_from_be32_prefix};

verus! {

/// The protocol version 1 string included in the handshake.
pub const PROTOCOL_STRING: &'static str = "BitTorrent protocol";

/// The bytes of [`PROTOCOL_STRING`].
pub open spec fn protocol_bytes() -> Seq<u8> {
    seq![
        66u8, 105, 116, 84, 111, 114, 114, 101, 110, 116, 32, 112, 114, 111, 116, 111, 99, 111, 108,
    ]
}

/// The protocol string is made of the protocol bytes.
pub proof fn law_protocol_string()
    ensures
        PROTOCOL_STRING.spec_bytes() == protocol_bytes(),
{
    broadcast use vstd::string::is_ascii_spec_bytes;

    reveal_strlit("BitTorrent protocol");
    assert(vstd::string::is_ascii(PROTOCOL_STRING));
    assert(PROTOCOL_STRING.spec_bytes() =~= protocol_bytes());
}

/// What can be wrong with a message.
#[derive(Clone, Copy, Debug, PartialEq, Eq, Structural)]
pub enum CodecError {
    /// The handshake doesn't have the string "BitTorrent protocol".
    InvalidProtocol,
    /// The id of the message is none of [`MessageId`].
    UnknownMessageId,
    /// The index of a piece does not fit into the four bytes that it has in
    /// a message.
    PieceIndexTooLarge,
}

impl CodecError {
    /// Returns the description of the error.
    pub fn message(&self) -> (text: &'static str)
        ensures
            text@ == match self {
                CodecError::InvalidProtocol =>
                    "Handshake must have the string \"BitTorrent protocol\""@,
                CodecError::UnknownMessageId => "Unknown message id"@,
                CodecError::PieceIndexTooLarge => "Piece index out of range"@,
            },
    {
        match self {
            CodecError::InvalidProtocol => "Handshake must have the string \"BitTorrent protocol\"",
            CodecError::UnknownMessageId => "Unknown message id",
            CodecError::PieceIndexTooLarge => "Piece index out of range",
        }
    }
}

/// The message sent at the beginning of a peer session by both sides of the
/// connection.
#[derive(Clone, Copy, Debug, PartialEq)]
pub struct Handshake {
    /// The protocol string, which must equal "BitTorrent protocol", as
    /// otherwise the connetion is aborted.
    pub prot: [u8; 19],
    /// A reserved field, currently all zeros. This is where the client's
    /// supported extensions are announced.
    pub reserved: [u8; 8],
    /// The torrent's SHA1 info hash, used to identify the torrent in the
    /// handshake and to verify the peer.
    pub info_hash: [u8; 20],
    /// The arbitrary peer id, usually used to identify the torrent client.
    pub peer_id: [u8; 20],
}

/// The fields of a handshake as byte strings.
#[verifier::ext_equal]
pub struct HandshakeView {
    pub prot: Seq<u8>,
    pub reserved: Seq<u8>,
    pub info_hash: Seq<u8>,
    pub peer_id: Seq<u8>,
}

impl HandshakeView {
    /// Whether the fields have the lengths of the format and the protocol string
    /// is the one of the protocol.
    pub open spec fn wf(self) -> bool {
        &&& self.prot == protocol_bytes()
        &&& self.reserved.len() == 8
        &&& self.info_hash.len() == 20
        &&& self.peer_id.len() == 20
    }

    /// The handshake as it is sent: the length of the protocol string and then
    /// the fields.
    pub open spec fn encoding(self) -> Seq<u8> {
        seq![19u8] + self.prot + self.reserved + self.info_hash + self.peer_id
    }
}

/// The protocol version 1 handshake with the given info hash and peer id. The
/// reserved bytes are zero.
pub open spec fn handshake_of(info_hash: Seq<u8>, peer_id: Seq<u8>) -> HandshakeView {
    HandshakeView {
        prot: protocol_bytes(),
        reserved: Seq::new(8, |i: int| 0u8),
        info_hash,
        peer_id,
    }
}

impl View for Handshake {
    type V = HandshakeView;

    open spec fn view(&self) -> HandshakeView {
        HandshakeView {
            prot: self.prot@,
            reserved: self.reserved@,
            info_hash: self.info_hash@,
            peer_id: self.peer_id@,
        }
    }
}

impl Handshake {
    /// Creates a new protocol version 1 handshake with the given info hash and
    /// peer id.
    pub fn new(info_hash: [u8; 20], peer_id: [u8; 20]) -> (handshake: Self)
        ensures
            handshake@.wf(),
            handshake@ == handshake_of(info_hash@, peer_id@),
    {
        let prot: [u8; 19] = [
            66, 105, 116, 84, 111, 114, 114, 101, 110, 116, 32, 112, 114, 111, 116, 111, 99, 111, 108,
        ];
        let reserved: [u8; 8] = [0u8; 8];
        proof {
            assert(prot@ =~= protocol_bytes());
            assert(reserved@ =~= Seq::new(8, |i: int| 0u8));
        }
        Handshake { prot, reserved, info_hash, peer_id }
    }

    /// Returns the length of the handshake, in bytes.
    pub fn len(&self) -> (len: u64)
        ensures
            len == 68,
            self@.wf() ==> self@.encoding().len() == len,
    {
        1 + 19 + 8 + 20 + 20
    }
}

/// What decoding does: what is returned, and what is left in the buffer.
#[verifier::ext_equal]
pub struct Decoded<T> {
    pub result: Result<Option<T>, CodecError>,
    pub rest: Seq<u8>,
}

/// What decoding a handshake from the bytes does.
pub open spec fn decoded_handshake(bytes: Seq<u8>) -> Decoded<HandshakeView> {
    if bytes.len() == 0 {
        Decoded { result: Ok(None), rest: bytes }
    } else if bytes[0] != 19 {
        Decoded { result: Err(CodecError::InvalidProtocol), rest: bytes }
    } else if bytes.len() < 68 {
        // the full handshake is not in the buffer yet
        Decoded { result: Ok(None), rest: bytes }
    } else if bytes.subrange(1, 20) != protocol_bytes() {
        Decoded { result: Err(CodecError::InvalidProtocol), rest: bytes }
    } else {
        Decoded {
            result: Ok(
                Some(
                    HandshakeView {
                        prot: bytes.subrange(1, 20),
                        reserved: bytes.subrange(20, 28),
                        info_hash: bytes.subrange(28, 48),
                        peer_id: bytes.subrange(48, 68),
                    },
                ),
            ),
            rest: bytes.skip(68),
        }
    }
}

/// What decoding a handshake returned, with the handshake's fields as byte
/// strings.
pub open spec fn handshake_result(r: Result<Option<Handshake>, CodecError>) -> Result<
    Option<HandshakeView>,
    CodecError,
> {
    match r {
        Ok(Some(handshake)) => Ok(Some(handshake@)),
        Ok(None) => Ok(None),
        Err(e) => Err(e),
    }
}

/// Codec for encoding and decoding handshakes.
///
/// This has to be a separate codec as the handshake has a different structure
/// than the rest of the messages. Moreover, handshakes may only be sent once at
/// the beginning of a connection, preceding all other messages. Thus, after
/// receiving and sending a handshake the codec should be switched to
/// [`PeerCodec`], but care should be taken not to discard the underlying
/// receive and send buffers.
pub struct HandshakeCodec;

/// Whether the bytes begin with the length of the protocol string and the string
/// itself.
fn has_protocol(bytes: &[u8]) -> (r: bool)
    requires
        bytes@.len() >= 20,
    ensures
        r == (bytes@.subrange(1, 20) == protocol_bytes()),
{
    proof {
        law_protocol_string();
    }
    let prot: &[u8] = PROTOCOL_STRING.as_bytes();
    let mut i: usize = 0;
    while i < 19
        invariant
            i <= 19,
            bytes@.len() >= 20,
            prot@ == protocol_bytes(),
            forall|j: int| 0 <= j < i ==> bytes@.subrange(1, 20)[j] == prot@[j],
        decreases 19 - i,
    {
        if bytes[i + 1] != prot[i] {
            assert(bytes@.subrange(1, 20)[i as int] != protocol_bytes()[i as int]);
            return false;
        }
        i = i + 1;
    }
    assert(bytes@.subrange(1, 20) =~= protocol_bytes());
    true
}

impl HandshakeCodec {
    /// Encodes the handshake and appends it to the buffer.
    pub fn encode(&mut self, handshake: Handshake, buf: &mut BytesMut) -> (r: Result<(), CodecError>)
        requires
            handshake@.wf(),
            contents(*old(buf)).len() + 68 <= isize::MAX,
        ensures
            r is Ok,
            contents(*final(buf)) == contents(*old(buf)) + handshake@.encoding(),
    {
        // protocol length prefix
        crate::buffer::put_u8(buf, 19);
        // payload
        crate::buffer::extend_from_slice(buf, &handshake.prot);
        crate::buffer::extend_from_slice(buf, &handshake.reserved);
        crate::buffer::extend_from_slice(buf, &handshake.info_hash);
        crate::buffer::extend_from_slice(buf, &handshake.peer_id);
        assert(contents(*buf) =~= contents(*old(buf)) + handshake@.encoding());
        Ok(())
    }

    /// Decodes a handshake from the front of the buffer, or returns `None` and
    /// leaves the buffer as it is if the full handshake has not arrived yet.
    pub fn decode(&mut self, buf: &mut BytesMut) -> (r: Result<Option<Handshake>, CodecError>)
        ensures
            contents(*final(buf)) == decoded_handshake(contents(*old(buf))).rest,
            handshake_result(r) == decoded_handshake(contents(*old(buf))).result,
            r matches Ok(Some(handshake)) ==> handshake@.wf(),
    {
        let ghost bytes = contents(*buf);
        let len: usize = crate::buffer::remaining(buf);
        if len == 0 {
            return Ok(None);
        }
        let prot_len: u8 = crate::buffer::peek(buf)[0];
        if prot_len != 19 {
            return Err(CodecError::InvalidProtocol);
        }
        // check that we got the full payload in the buffer (NOTE: the length
        // prefix's byte counts too, since the buffer cursor was not advanced)
        if len <= 67 {
            return Ok(None);
        }
        if !has_protocol(crate::buffer::peek(buf)) {
            return Err(CodecError::InvalidProtocol);
        }
        // we have the full message in the buffer so advance the buffer
        // cursor past the message length header
        crate::buffer::advance(buf, 1);
        // protocol string
        let mut prot: [u8; 19] = [0u8; 19];
        crate::buffer::copy_to_slice(buf, &mut prot);
        // reserved field
        let mut reserved: [u8; 8] = [0u8; 8];
        crate::buffer::copy_to_slice(buf, &mut reserved);
        // info hash
        let mut info_hash: [u8; 20] = [0u8; 20];
        crate::buffer::copy_to_slice(buf, &mut info_hash);
        // peer id
        let mut peer_id: [u8; 20] = [0u8; 20];
        crate::buffer::copy_to_slice(buf, &mut peer_id);
        let handshake = Handshake { prot, reserved, info_hash, peer_id };
        proof {
            assert(prot@ =~= bytes.subrange(1, 20));
            assert(reserved@ =~= bytes.subrange(20, 28));
            assert(info_hash@ =~= bytes.subrange(28, 48));
            assert(peer_id@ =~= bytes.subrange(48, 68));
            assert(contents(*buf) =~= bytes.skip(68));
        }
        Ok(Some(handshake))
    }
}

/// A handshake that was sent is received as it was, whatever follows it, and is
/// not received before it has fully arrived.
pub proof fn law_handshake_round_trip(handshake: HandshakeView, rest: Seq<u8>, arrived: int)
    requires
        handshake.wf(),
        0 <= arrived < 68,
    ensures
        handshake.encoding().len() == 68,
        decoded_handshake(handshake.encoding() + rest) == (Decoded {
            result: Ok::<Option<HandshakeView>, CodecError>(Some(handshake)),
            rest,
        }),
        decoded_handshake(handshake.encoding().take(arrived)) == (Decoded {
            result: Ok::<Option<HandshakeView>, CodecError>(None),
            rest: handshake.encoding().take(arrived),
        }),
{
    let bytes = handshake.encoding() + rest;
    assert(bytes.subrange(1, 20) =~= handshake.prot);
    assert(bytes.subrange(20, 28) =~= handshake.reserved);
    assert(bytes.subrange(28, 48) =~= handshake.info_hash);
    assert(bytes.subrange(48, 68) =~= handshake.peer_id);
    assert(bytes.skip(68) =~= rest);
}

/// The ID of a message, which is included as a prefix in most messages.
///
/// The handshake and keep alive messages don't have explicit IDs.
#[derive(Clone, Copy, Debug, PartialEq, Eq, Structural)]
pub enum MessageId {
    Choke,
    Unchoke,
    Interested,
    NotInterested,
    Have,
    Bitfield,
    Request,
    Block,
    Cancel,
}

impl MessageId {
    /// The byte that stands for the id in a message.
    pub open spec fn code(self) -> u8 {
        match self {
            MessageId::Choke => 0,
            MessageId::Unchoke => 1,
            MessageId::Interested => 2,
            MessageId::NotInterested => 3,
            MessageId::Have => 4,
            MessageId::Bitfield => 5,
            MessageId::Request => 6,
            MessageId::Block => 7,
            MessageId::Cancel => 8,
        }
    }

    /// The number of bytes in the message's fields that have a fixed size.
    pub open spec fn fixed_len(self) -> int {
        match self {
            MessageId::Have => 4,
            MessageId::Request => 12,
            MessageId::Block => 8,
            MessageId::Cancel => 12,
            _ => 0,
        }
    }

    /// Returns the byte that stands for the id in a message.
    pub fn to_u8(&self) -> (code: u8)
        ensures
            code == self.code(),
    {
        match self {
            MessageId::Choke => 0,
            MessageId::Unchoke => 1,
            MessageId::Interested => 2,
            MessageId::NotInterested => 3,
            MessageId::Have => 4,
            MessageId::Bitfield => 5,
            MessageId::Request => 6,
            MessageId::Block => 7,
            MessageId::Cancel => 8,
        }
    }

    /// Returns the header length of the specific message type.
    ///
    /// Since this is fix size for all messages, it can be determined simply
    /// from the message id.
    pub fn header_len(&self) -> (len: u64)
        ensures
            len == 4 + 1 + self.fixed_len(),
    {
        match self {
            MessageId::Choke => 4 + 1,
            MessageId::Unchoke => 4 + 1,
            MessageId::Interested => 4 + 1,
            MessageId::NotInterested => 4 + 1,
            MessageId::Have => 4 + 1 + 4,
            MessageId::Bitfield => 4 + 1,
            MessageId::Request => 4 + 1 + 3 * 4,
            MessageId::Block => 4 + 1 + 2 * 4,
            MessageId::Cancel => 4 + 1 + 3 * 4,
        }
    }
}

impl TryFrom<u8> for MessageId {
    type Error = CodecError;

    fn try_from(k: u8) -> (r: Result<MessageId, CodecError>) {
        match k {
            0 => Ok(MessageId::Choke),
            1 => Ok(MessageId::Unchoke),
            2 => Ok(MessageId::Interested),
            3 => Ok(MessageId::NotInterested),
            4 => Ok(MessageId::Have),
            5 => Ok(MessageId::Bitfield),
            6 => Ok(MessageId::Request),
            7 => Ok(MessageId::Block),
            8 => Ok(MessageId::Cancel),
            _ => Err(CodecError::UnknownMessageId),
        }
    }
}

impl TryFromSpecImpl<u8> for MessageId {
    open spec fn obeys_try_from_spec() -> bool {
        true
    }

    open spec fn try_from_spec(k: u8) -> Result<MessageId, CodecError> {
        message_id(k)
    }
}

/// The id that the byte stands for.
pub open spec fn message_id(k: u8) -> Result<MessageId, CodecError> {
    match k {
        0 => Ok(MessageId::Choke),
        1 => Ok(MessageId::Unchoke),
        2 => Ok(MessageId::Interested),
        3 => Ok(MessageId::NotInterested),
        4 => Ok(MessageId::Have),
        5 => Ok(MessageId::Bitfield),
        6 => Ok(MessageId::Request),
        7 => Ok(MessageId::Block),
        8 => Ok(MessageId::Cancel),
        _ => Err(CodecError::UnknownMessageId),
    }
}

/// The id of a message can be read back from its byte, and a byte that is not
/// the code of an id is rejected.
pub proof fn law_message_id_round_trip(id: MessageId, k: u8)
    ensures
        message_id(id.code()) == Ok::<MessageId, CodecError>(id),
        message_id(k) is Ok <==> k <= 8,
        message_id(k) matches Ok(known) ==> known.code() == k,
{
}

/// The actual messages exchanged by peers.
#[derive(Clone, Debug, PartialEq)]
pub enum Message {
    KeepAlive,
    Bitfield(Bitfield),
    Choke,
    Unchoke,
    Interested,
    NotInterested,
    Have { piece_index: usize },
    Request(BlockInfo),
    Block { piece_index: usize, offset: u32, data: BlockData },
    Cancel(BlockInfo),
}

/// A message with its payload as a mathematical value.
#[verifier::ext_equal]
pub enum MessageView {
    KeepAlive,
    Bitfield(Seq<bool>),
    Choke,
    Unchoke,
    Interested,
    NotInterested,
    Have(usize),
    Request(BlockInfo),
    Block(usize, u32, Seq<u8>),
    Cancel(BlockInfo),
}

impl View for Message {
    type V = MessageView;

    open spec fn view(&self) -> MessageView {
        match self {
            Message::KeepAlive => MessageView::KeepAlive,
            Message::Bitfield(bitfield) => MessageView::Bitfield(bitfield@),
            Message::Choke => MessageView::Choke,
            Message::Unchoke => MessageView::Unchoke,
            Message::Interested => MessageView::Interested,
            Message::NotInterested => MessageView::NotInterested,
            Message::Have { piece_index } => MessageView::Have(*piece_index),
            Message::Request(block) => MessageView::Request(*block),
            Message::Block { piece_index, offset, data } => MessageView::Block(
                *piece_index,
                *offset,
                data@,
            ),
            Message::Cancel(block) => MessageView::Cancel(*block),
        }
    }
}

impl MessageView {
    /// The id of the message, if it has one.
    pub open spec fn id(self) -> Option<MessageId> {
        match self {
            MessageView::KeepAlive => None,
            MessageView::Bitfield(_) => Some(MessageId::Bitfield),
            MessageView::Choke => Some(MessageId::Choke),
            MessageView::Unchoke => Some(MessageId::Unchoke),
            MessageView::Interested => Some(MessageId::Interested),
            MessageView::NotInterested => Some(MessageId::NotInterested),
            MessageView::Have(_) => Some(MessageId::Have),
            MessageView::Request(_) => Some(MessageId::Request),
            MessageView::Block(_, _, _) => Some(MessageId::Block),
            MessageView::Cancel(_) => Some(MessageId::Cancel),
        }
    }

    /// Whether the index of the piece that the message is about, if it is about
    /// one, fits into the four bytes that it has in the message.
    pub open spec fn index_fits(self) -> bool {
        match self {
            MessageView::Have(piece_index) => piece_index <= u32::MAX,
            MessageView::Request(block) => block.piece_index <= u32::MAX,
            MessageView::Block(piece_index, _, _) => piece_index <= u32::MAX,
            MessageView::Cancel(block) => block.piece_index <= u32::MAX,
            _ => true,
        }
    }

    /// The length of the message's payload, which follows the id.
    pub open spec fn payload_len(self) -> int {
        match self {
            MessageView::Bitfield(bits) => (bits.len() + 7) as int / 8,
            MessageView::Block(_, _, data) => 8 + data.len() as int,
            _ => match self.id() {
                Some(id) => id.fixed_len(),
                None => 0,
            },
        }
    }

    /// The length of the encoded message.
    pub open spec fn encoded_len(self) -> int {
        match self.id() {
            Some(_) => 4 + 1 + self.payload_len(),
            None => 4,
        }
    }

    /// Whether the bytes are the payload of the message.
    pub open spec fn is_payload(self, payload: Seq<u8>) -> bool {
        match self {
            MessageView::Bitfield(bits) => stores_bits(payload, bits),
            MessageView::Have(piece_index) => payload == be32(piece_index as u32),
            MessageView::Request(block) => payload == block_info_bytes(block),
            MessageView::Block(piece_index, offset, data) => payload == be32(piece_index as u32)
                + be32(offset) + data,
            MessageView::Cancel(block) => payload == block_info_bytes(block),
            _ => payload == Seq::<u8>::empty(),
        }
    }

    /// Whether the bytes are an encoding of the message. There is exactly one,
    /// except that the spare bits of a bitfield's last byte may have any value.
    pub open spec fn is_encoding(self, bytes: Seq<u8>) -> bool {
        match self.id() {
            Some(id) => exists|payload: Seq<u8>| #[trigger]
                self.is_payload(payload) && bytes == frame(id, payload),
            None => bytes == be32(0),
        }
    }
}

/// The payload of a message about a block: its piece index, offset and length.
pub open spec fn block_info_bytes(block: BlockInfo) -> Seq<u8> {
    be32(block.piece_index as u32) + be32(block.offset) + be32(block.len)
}

/// The header that precedes the payload: the length of the message that follows
/// the length itself, and the id.
pub open spec fn frame_header(id: MessageId, payload_len: int) -> Seq<u8> {
    be32((1 + payload_len) as u32).push(id.code())
}

/// A message with an id: the header and the payload.
pub open spec fn frame(id: MessageId, payload: Seq<u8>) -> Seq<u8> {
    frame_header(id, payload.len() as int) + payload
}

impl Message {
    /// Returns the ID of the message, if it has one (e.g. keep alive doesn't).
    pub fn id(&self) -> (id: Option<MessageId>)
        ensures
            id == self@.id(),
    {
        match self {
            Message::KeepAlive => None,
            Message::Bitfield(_) => Some(MessageId::Bitfield),
            Message::Choke => Some(MessageId::Choke),
            Message::Unchoke => Some(MessageId::Unchoke),
            Message::Interested => Some(MessageId::Interested),
            Message::NotInterested => Some(MessageId::NotInterested),
            Message::Have { .. } => Some(MessageId::Have),
            Message::Request(_) => Some(MessageId::Request),
            Message::Block { .. } => Some(MessageId::Block),
            Message::Cancel(_) => Some(MessageId::Cancel),
        }
    }

    /// Returns the length of the part of the message that constitutes the
    /// message header. For all but the block message this is simply the size of
    /// the message. For the block message this is the message header.
    pub fn protocol_len(&self) -> (len: u64)
        ensures
            !(self is Block) ==> len == self@.encoded_len(),
            self is Block ==> len == 4 + 1 + MessageId::Block.fixed_len(),
            self is Block ==> self@.encoded_len() == len + self->data@.len(),
    {
        match self {
            Message::KeepAlive => 4,
            Message::Bitfield(bitfield) => {
                let bit_count: usize = bitfield.len();
                MessageId::Bitfield.header_len() + bitfield.as_slice().len() as u64
            },
            Message::Choke => MessageId::Choke.header_len(),
            Message::Unchoke => MessageId::Unchoke.header_len(),
            Message::Interested => MessageId::Interested.header_len(),
            Message::NotInterested => MessageId::NotInterested.header_len(),
            Message::Have { .. } => MessageId::Have.header_len(),
            Message::Request(_) => MessageId::Request.header_len(),
            Message::Block { .. } => MessageId::Block.header_len(),
            Message::Cancel(_) => MessageId::Cancel.header_len(),
        }
    }
}

impl BlockInfo {
    /// Encodes the block info in the network binary protocol's format into the
    /// given buffer.
    pub fn encode(&self, buf: &mut BytesMut) -> (r: Result<(), CodecError>)
        requires
            contents(*old(buf)).len() + 12 <= isize::MAX,
        ensures
            self.piece_index <= u32::MAX ==> r is Ok && contents(*final(buf)) == contents(
                *old(buf),
            ) + block_info_bytes(*self),
            self.piece_index > u32::MAX ==> r == Err::<(), CodecError>(
                CodecError::PieceIndexTooLarge,
            ) && contents(*final(buf)) == contents(*old(buf)),
    {
        let piece_index: u32 = match u32_index(self.piece_index) {
            Ok(piece_index) => piece_index,
            Err(e) => return Err(e),
        };
        crate::buffer::put_u32(buf, piece_index);
        crate::buffer::put_u32(buf, self.offset);
        crate::buffer::put_u32(buf, self.len);
        assert(contents(*buf) =~= contents(*old(buf)) + block_info_bytes(*self));
        Ok(())
    }
}

/// Returns the index as it is sent in a message, if it fits.
fn u32_index(index: usize) -> (r: Result<u32, CodecError>)
    ensures
        index <= u32::MAX ==> r == Ok::<u32, CodecError>(index as u32),
        index > u32::MAX ==> r == Err::<u32, CodecError>(CodecError::PieceIndexTooLarge),
{
    if index as u64 <= u32::MAX as u64 {
        Ok(index as u32)
    } else {
        Err(CodecError::PieceIndexTooLarge)
    }
}

/// Appends the length and the id of a message.
fn put_header(buf: &mut BytesMut, id: MessageId, payload_len: usize)
    requires
        contents(*old(buf)).len() + 5 <= isize::MAX,
        payload_len < usize::MAX,
    ensures
        contents(*final(buf)) == contents(*old(buf)) + frame_header(id, payload_len as int),
{
    crate::buffer::put_u32(buf, (1 + payload_len) as u32);
    crate::buffer::put_u8(buf, id.to_u8());
    assert(contents(*buf) =~= contents(*old(buf)) + frame_header(id, payload_len as int));
}

/// What decoding a message from the bytes does. It is defined where
/// [`decodable`] holds.
pub open spec fn decoded_message(bytes: Seq<u8>) -> Decoded<MessageView> {
    if !complete(bytes) {
        // either the length or the message is not fully in the buffer yet
        Decoded { result: Ok(None), rest: bytes }
    } else if message_len(bytes) == 0 {
        Decoded { result: Ok(Some(MessageView::KeepAlive)), rest: bytes.skip(4) }
    } else {
        match message_id(bytes[4]) {
            Err(e) => Decoded { result: Err(e), rest: bytes.skip(5) },
            Ok(id) => Decoded {
                result: Ok(Some(read_payload(id, message_len(bytes), bytes.skip(5)))),
                rest: bytes.skip(5 + read_len(id, message_len(bytes))),
            },
        }
    }
}

/// The length of the first message in the buffer, which precedes it.
pub open spec fn message_len(bytes: Seq<u8>) -> int {
    from_be32(bytes) as int
}

/// Whether the first message is fully in the buffer.
pub open spec fn complete(bytes: Seq<u8>) -> bool {
    bytes.len() >= 4 && bytes.len() - 4 >= message_len(bytes)
}

/// The number of bytes that are read of the payload of a message.
pub open spec fn read_len(id: MessageId, msg_len: int) -> int {
    match id {
        MessageId::Bitfield => msg_len - 1,
        MessageId::Block => msg_len - 1,
        _ => id.fixed_len(),
    }
}

/// The message that the bytes after the id stand for.
pub open spec fn read_payload(id: MessageId, msg_len: int, bytes: Seq<u8>) -> MessageView {
    match id {
        MessageId::Choke => MessageView::Choke,
        MessageId::Unchoke => MessageView::Unchoke,
        MessageId::Interested => MessageView::Interested,
        MessageId::NotInterested => MessageView::NotInterested,
        MessageId::Have => MessageView::Have(from_be32(bytes) as usize),
        MessageId::Bitfield => MessageView::Bitfield(bits_of(bytes.take(msg_len - 1))),
        MessageId::Request => MessageView::Request(read_block_info(bytes)),
        MessageId::Block => MessageView::Block(
            from_be32(bytes) as usize,
            from_be32(bytes.skip(4)),
            bytes.subrange(8, msg_len - 1),
        ),
        MessageId::Cancel => MessageView::Cancel(read_block_info(bytes)),
    }
}

/// The block that the bytes stand for.
pub open spec fn read_block_info(bytes: Seq<u8>) -> BlockInfo {
    BlockInfo {
        piece_index: from_be32(bytes) as usize,
        offset: from_be32(bytes.skip(4)),
        len: from_be32(bytes.skip(8)),
    }
}

/// Whether the bytes can be decoded: if the first message is complete, then its
/// fields are all in the buffer, a block is not empty, and a bitfield is not
/// larger than what a [`Bitfield`] can hold.
pub open spec fn decodable(bytes: Seq<u8>) -> bool {
    complete(bytes) && message_len(bytes) > 0 ==> match message_id(bytes[4]) {
        Err(_) => true,
        Ok(MessageId::Block) => message_len(bytes) > 9,
        Ok(MessageId::Bitfield) => 8 * (message_len(bytes) - 1) <= max_bits(),
        Ok(id) => bytes.len() >= 5 + id.fixed_len(),
    }
}

/// What decoding a message returned, with the payload as a mathematical value.
pub open spec fn message_result(r: Result<Option<Message>, CodecError>) -> Result<
    Option<MessageView>,
    CodecError,
> {
    match r {
        Ok(Some(msg)) => Ok(Some(msg@)),
        Ok(None) => Ok(None),
        Err(e) => Err(e),
    }
}

/// Returns the integer at the front of the bytes without reading it off.
fn peek_u32(bytes: &[u8]) -> (n: u32)
    requires
        bytes@.len() >= 4,
    ensures
        n == from_be32(bytes@),
{
    bytes[0] as u32 * 0x100_0000 + bytes[1] as u32 * 0x1_0000 + bytes[2] as u32 * 0x100
        + bytes[3] as u32
}

/// Reads a block info off the buffer.
fn get_block_info(buf: &mut BytesMut) -> (block: BlockInfo)
    requires
        contents(*old(buf)).len() >= 12,
    ensures
        block == read_block_info(contents(*old(buf))),
        contents(*final(buf)) == contents(*old(buf)).skip(12),
{
    let ghost bytes = contents(*buf);
    let piece_index: u32 = crate::buffer::get_u32(buf);
    let offset: u32 = crate::buffer::get_u32(buf);
    assert(contents(*buf) =~= bytes.skip(8));
    let len: u32 = crate::buffer::get_u32(buf);
    assert(contents(*buf) =~= bytes.skip(12));
    BlockInfo { piece_index: piece_index as usize, offset, len }
}

/// Reads that many bytes off the buffer.
fn get_bytes(buf: &mut BytesMut, len: usize) -> (bytes: Vec<u8>)
    requires
        contents(*old(buf)).len() >= len,
    ensures
        bytes@ == contents(*old(buf)).take(len as int),
        contents(*final(buf)) == contents(*old(buf)).skip(len as int),
{
    let mut bytes: Vec<u8> = vec![0u8; len];
    crate::buffer::copy_to_slice(buf, bytes.as_mut_slice());
    bytes
}

/// Codec for encoding and decoding messages exchanged by peers (other than the
/// handshake).
pub struct PeerCodec;

impl PeerCodec {
    /// Encodes the message and appends it to the buffer.
    ///
    /// If the index of a piece doesn't fit into the message, only the message's
    /// header is written.
    pub fn encode(&mut self, msg: Message, buf: &mut BytesMut) -> (r: Result<(), CodecError>)
        requires
            msg is Block ==> msg@.encoded_len() - 4 <= u32::MAX,
            contents(*old(buf)).len() + msg@.encoded_len() <= isize::MAX,
        ensures
            msg@.index_fits() ==> r is Ok && exists|bytes: Seq<u8>| #[trigger]
                msg@.is_encoding(bytes) && contents(*final(buf)) == contents(*old(buf)) + bytes,
            !msg@.index_fits() ==> r == Err::<(), CodecError>(CodecError::PieceIndexTooLarge)
                && contents(*final(buf)) == contents(*old(buf)) + frame_header(
                msg@.id()->0,
                msg@.payload_len(),
            ),
    {
        let ghost before = contents(*buf);
        let ghost mut payload: Seq<u8> = Seq::empty();
        match &msg {
            Message::KeepAlive => {
                // message length prefix, no payload
                crate::buffer::put_u32(buf, 0);
                assert(msg@.is_encoding(be32(0)));
                return Ok(());
            },
            Message::Bitfield(bitfield) => {
                // NOTE: take the length of the underlying storage to get the number
                // of _bytes_, as `bitfield.len()` returns the number of _bits_
                let bytes: &[u8] = bitfield.as_slice();
                put_header(buf, MessageId::Bitfield, bytes.len());
                crate::buffer::extend_from_slice(buf, bytes);
                proof {
                    payload = bytes@;
                }
            },
            Message::Choke => {
                put_header(buf, MessageId::Choke, 0);
            },
            Message::Unchoke => {
                put_header(buf, MessageId::Unchoke, 0);
            },
            Message::Interested => {
                put_header(buf, MessageId::Interested, 0);
            },
            Message::NotInterested => {
                put_header(buf, MessageId::NotInterested, 0);
            },
            Message::Have { piece_index } => {
                put_header(buf, MessageId::Have, 4);
                let piece_index: u32 = match u32_index(*piece_index) {
                    Ok(piece_index) => piece_index,
                    Err(e) => return Err(e),
                };
                crate::buffer::put_u32(buf, piece_index);
                proof {
                    payload = be32(piece_index);
                }
            },
            Message::Request(block) => {
                put_header(buf, MessageId::Request, 12);
                match block.encode(buf) {
                    Ok(()) => {},
                    Err(e) => return Err(e),
                }
                proof {
                    payload = block_info_bytes(*block);
                }
            },
            Message::Block { piece_index, offset, data } => {
                put_header(buf, MessageId::Block, 8 + data.len());
                let piece_index: u32 = match u32_index(*piece_index) {
                    Ok(piece_index) => piece_index,
                    Err(e) => return Err(e),
                };
                crate::buffer::put_u32(buf, piece_index);
                crate::buffer::put_u32(buf, *offset);
                crate::buffer::extend_from_slice(buf, data.as_slice());
                proof {
                    payload = be32(piece_index) + be32(*offset) + data@;
                }
            },
            Message::Cancel(block) => {
                put_header(buf, MessageId::Cancel, 12);
                match block.encode(buf) {
                    Ok(()) => {},
                    Err(e) => return Err(e),
                }
                proof {
                    payload = block_info_bytes(*block);
                }
            },
        }
        proof {
            let id = msg@.id()->0;
            assert(msg@.is_payload(payload));
            assert(contents(*buf) =~= before + frame(id, payload));
            assert(msg@.is_encoding(frame(id, payload)));
        }
        Ok(())
    }

    /// Tells whether the buffer can be decoded from: the first message in it, if
    /// it is complete, is not shorter than its fields, nor larger than what can
    /// be held.
    pub fn can_decode(&self, buf: &BytesMut) -> (r: bool)
        ensures
            r == decodable(contents(*buf)),
    {
        let len: usize = crate::buffer::remaining(buf);
        if len < 4 {
            return true;
        }
        let msg_len: usize = peek_u32(crate::buffer::peek(buf)) as usize;
        if len - 4 < msg_len || msg_len == 0 {
            return true;
        }
        match MessageId::try_from(crate::buffer::peek(buf)[4]) {
            Err(_) => true,
            Ok(MessageId::Block) => msg_len > 9,
            Ok(MessageId::Bitfield) => msg_len - 1 <= usize::MAX / 8 / 8,
            Ok(id) => len as u64 >= id.header_len(),
        }
    }

    /// Decodes a message from the front of the buffer, or returns `None` and
    /// leaves the buffer as it is if the full message has not arrived yet.
    pub fn decode(&mut self, buf: &mut BytesMut) -> (r: Result<Option<Message>, CodecError>)
        requires
            decodable(contents(*old(buf))),
        ensures
            contents(*final(buf)) == decoded_message(contents(*old(buf))).rest,
            message_result(r) == decoded_message(contents(*old(buf))).result,
            r matches Ok(Some(Message::Block { data, .. })) ==> data is Owned,
    {
        let ghost bytes = contents(*buf);
        let len: usize = crate::buffer::remaining(buf);
        // the message length header must be present at the minimum, otherwise
        // we can't determine the message type
        if len < 4 {
            return Ok(None);
        }
        let msg_len: usize = peek_u32(crate::buffer::peek(buf)) as usize;
        // check that we got the full payload in the buffer (NOTE: the length
        // prefix's bytes count too, since the buffer cursor was not advanced)
        if len - 4 < msg_len {
            return Ok(None);
        }
        // we have the full message in the buffer so advance the buffer
        // cursor past the message length header
        crate::buffer::advance(buf, 4);
        // the message length is only 0 if this is a keep alive message (all
        // other message types have at least one more field, the message id)
        if msg_len == 0 {
            return Ok(Some(Message::KeepAlive));
        }
        let id: MessageId = match MessageId::try_from(crate::buffer::get_u8(buf)) {
            Ok(id) => id,
            Err(e) => {
                assert(contents(*buf) =~= bytes.skip(5));
                return Err(e);
            },
        };
        assert(contents(*buf) =~= bytes.skip(5));
        let msg: Message = match id {
            MessageId::Choke => Message::Choke,
            MessageId::Unchoke => Message::Unchoke,
            MessageId::Interested => Message::Interested,
            MessageId::NotInterested => Message::NotInterested,
            MessageId::Have => {
                let piece_index: u32 = crate::buffer::get_u32(buf);
                Message::Have { piece_index: piece_index as usize }
            },
            MessageId::Bitfield => {
                let bitfield: Vec<u8> = get_bytes(buf, msg_len - 1);
                Message::Bitfield(Bitfield::from_vec(bitfield))
            },
            MessageId::Request => Message::Request(get_block_info(buf)),
            MessageId::Block => {
                let piece_index: u32 = crate::buffer::get_u32(buf);
                let offset: u32 = crate::buffer::get_u32(buf);
                let data: Vec<u8> = get_bytes(buf, msg_len - 9);
                assert(data@ =~= bytes.skip(5).subrange(8, msg_len - 1));
                Message::Block {
                    piece_index: piece_index as usize,
                    offset,
                    data: BlockData::Owned(data),
                }
            },
            MessageId::Cancel => Message::Cancel(get_block_info(buf)),
        };
        assert(contents(*buf) =~= bytes.skip(5 + read_len(id, msg_len as int)));
        Ok(Some(msg))
    }
}

impl MessageView {
    /// Whether the message is one that can be sent and received: its fields fit
    /// into the format, and a block is not empty.
    pub open spec fn sendable(self) -> bool {
        &&& self.index_fits()
        &&& self.payload_len() + 1 <= u32::MAX
        &&& self matches MessageView::Block(_, _, data) ==> data.len() > 0
        &&& self is Bitfield ==> 8 * self.payload_len() <= max_bits()
    }

    /// Whether the received message is the one that was sent. It is the same
    /// message, except that a bitfield is received with the spare bits of its last
    /// byte.
    pub open spec fn reads_back(self, received: MessageView) -> bool {
        match self {
            MessageView::Bitfield(bits) => {
                &&& received matches MessageView::Bitfield(read)
                &&& bits.len() <= read.len() < bits.len() + 8
                &&& resized(read, bits.len(), false) == bits
            },
            _ => received == self,
        }
    }
}

/// A message that was sent is received as it was, whatever follows it, and
/// receiving it consumes exactly its bytes.
pub proof fn law_message_round_trip(msg: MessageView, bytes: Seq<u8>, rest: Seq<u8>) -> (received:
    MessageView)
    requires
        msg.sendable(),
        msg.is_encoding(bytes),
    ensures
        decodable(bytes + rest),
        decoded_message(bytes + rest) == (Decoded {
            result: Ok::<Option<MessageView>, CodecError>(Some(received)),
            rest,
        }),
        msg.reads_back(received),
{
    if msg is KeepAlive {
        lemma_from_be32_prefix(0, rest);
        assert((bytes + rest).skip(4) =~= rest);
        MessageView::KeepAlive
    } else {
        let id = msg.id()->0;
        let payload = choose|payload: Seq<u8>| #[trigger]
            msg.is_payload(payload) && bytes == frame(id, payload);
        lemma_payload_reads_back(msg, payload, rest);
        lemma_frame(id, payload, rest);
        law_message_id_round_trip(id, id.code());
        read_payload(id, 1 + payload.len() as int, payload + rest)
    }
}

/// A frame at the front of a buffer is taken apart into its parts.
proof fn lemma_frame(id: MessageId, payload: Seq<u8>, rest: Seq<u8>)
    requires
        payload.len() + 1 <= u32::MAX,
    ensures
        message_len(frame(id, payload) + rest) == 1 + payload.len(),
        (frame(id, payload) + rest)[4] == id.code(),
        (frame(id, payload) + rest).skip(5) == payload + rest,
        (frame(id, payload) + rest).skip(5 + payload.len() as int) == rest,
        (frame(id, payload) + rest).len() == 5 + payload.len() + rest.len(),
{
    let all = frame(id, payload) + rest;
    let msg_len = (1 + payload.len()) as u32;
    assert(all =~= be32(msg_len) + (seq![id.code()] + payload + rest));
    lemma_from_be32_prefix(msg_len, seq![id.code()] + payload + rest);
    assert(all.skip(5) =~= payload + rest);
    assert(all.skip(5 + payload.len() as int) =~= rest);
}

/// The payload of a message is read as the message.
proof fn lemma_payload_reads_back(msg: MessageView, payload: Seq<u8>, rest: Seq<u8>)
    requires
        msg.sendable(),
        msg.id() is Some,
        msg.is_payload(payload),
    ensures
        payload.len() == msg.payload_len(),
        read_len(msg.id()->0, 1 + payload.len() as int) == payload.len(),
        msg.reads_back(read_payload(msg.id()->0, 1 + payload.len() as int, payload + rest)),
{
    let body = payload + rest;
    match msg {
        MessageView::Bitfield(bits) => {
            assert(body.take(payload.len() as int) =~= payload);
            law_stored_bits_read_back(payload, bits);
            assert(resized(bits_of(payload), bits.len(), false) =~= bits_of(payload).take(
                bits.len() as int,
            ));
        },
        MessageView::Have(piece_index) => {
            lemma_from_be32_prefix(piece_index as u32, rest);
        },
        MessageView::Request(block) => {
            lemma_read_block_info(block, rest);
        },
        MessageView::Block(piece_index, offset, data) => {
            assert(body =~= be32(piece_index as u32) + (be32(offset) + data + rest));
            lemma_from_be32_prefix(piece_index as u32, be32(offset) + data + rest);
            assert(body.skip(4) =~= be32(offset) + (data + rest));
            lemma_from_be32_prefix(offset, data + rest);
            assert(body.subrange(8, payload.len() as int) =~= data);
        },
        MessageView::Cancel(block) => {
            lemma_read_block_info(block, rest);
        },
        _ => {},
    }
}

proof fn lemma_read_block_info(block: BlockInfo, rest: Seq<u8>)
    requires
        block.piece_index <= u32::MAX,
    ensures
        read_block_info(block_info_bytes(block) + rest) == block,
{
    let bytes = block_info_bytes(block) + rest;
    assert(bytes =~= be32(block.piece_index as u32) + (be32(block.offset) + be32(block.len)
        + rest));
    lemma_from_be32_prefix(
        block.piece_index as u32,
        be32(block.offset) + be32(block.len) + rest,
    );
    assert(bytes.skip(4) =~= be32(block.offset) + (be32(block.len) + rest));
    lemma_from_be32_prefix(block.offset, be32(block.len) + rest);
    assert(bytes.skip(8) =~= be32(block.len) + rest);
    lemma_from_be32_prefix(block.len, rest);
}

/// A message of which only a part has arrived is not received, and the part stays
/// in the buffer until the rest arrives.
pub proof fn law_partial_message_waits(msg: MessageView, bytes: Seq<u8>, arrived: int)
    requires
        msg.sendable(),
        msg.is_encoding(bytes),
        0 <= arrived < bytes.len(),
    ensures
        bytes.len() == msg.encoded_len(),
        decodable(bytes.take(arrived)),
        decoded_message(bytes.take(arrived)) == (Decoded {
            result: Ok::<Option<MessageView>, CodecError>(None),
            rest: bytes.take(arrived),
        }),
{
    if msg.id() is Some {
        let id = msg.id()->0;
        let payload = choose|payload: Seq<u8>| #[trigger]
            msg.is_payload(payload) && bytes == frame(id, payload);
        let part = bytes.take(arrived);
        if arrived >= 4 {
            let msg_len = (1 + payload.len()) as u32;
            assert(part =~= be32(msg_len) + part.skip(4));
            lemma_from_be32_prefix(msg_len, part.skip(4));
        }
    }
}

/// Decoding never leaves anything in the buffer but a tail of what was there.
pub proof fn law_decoding_leaves_a_tail(bytes: Seq<u8>)
    requires
        decodable(bytes),
    ensures
        exists|n: int|
            0 <= n <= bytes.len() && decoded_message(bytes).rest == #[trigger] bytes.skip(n),
        decoded_message(bytes).result == Ok::<Option<MessageView>, CodecError>(None)
            ==> decoded_message(bytes).rest == bytes,
{
    assert(bytes.skip(0) =~= bytes);
    if complete(bytes) && message_len(bytes) > 0 && message_id(bytes[4]) is Ok {
        let n = 5 + read_len(message_id(bytes[4])->Ok_0, message_len(bytes));
        assert(decoded_message(bytes).rest == bytes.skip(n));
    }
}

/// Whether the bytes are encodings of the messages, one after the other.
pub open spec fn is_stream(msgs: Seq<MessageView>, bytes: Seq<u8>) -> bool
    decreases msgs.len(),
{
    if msgs.len() == 0 {
        bytes.len() == 0
    } else {
        exists|n: int| #[trigger]
            stream_splits(bytes, n) && msgs[0].is_encoding(bytes.take(n)) && is_stream(
                msgs.drop_first(),
                bytes.skip(n),
            )
    }
}

/// Whether the bytes can be split at the position.
pub open spec fn stream_splits(bytes: Seq<u8>, n: int) -> bool {
    0 <= n <= bytes.len()
}

/// Whether decoding again and again gives the messages and then leaves the rest.
pub open spec fn decodes_to(bytes: Seq<u8>, msgs: Seq<MessageView>, rest: Seq<u8>) -> bool
    decreases msgs.len(),
{
    if msgs.len() == 0 {
        bytes == rest
    } else {
        &&& decodable(bytes)
        &&& decoded_message(bytes).result == Ok::<Option<MessageView>, CodecError>(Some(msgs[0]))
        &&& decodes_to(decoded_message(bytes).rest, msgs.drop_first(), rest)
    }
}

/// A stream of messages is received message by message, in order, and the buffer
/// is advanced past each of them.
pub proof fn law_stream_round_trip(msgs: Seq<MessageView>, bytes: Seq<u8>, rest: Seq<u8>) -> (
received: Seq<MessageView>)
    requires
        is_stream(msgs, bytes),
        forall|i: int| 0 <= i < msgs.len() ==> (#[trigger] msgs[i]).sendable(),
    ensures
        received.len() == msgs.len(),
        forall|i: int| 0 <= i < msgs.len() ==> (#[trigger] msgs[i]).reads_back(received[i]),
        decodes_to(bytes + rest, received, rest),
    decreases msgs.len(),
{
    if msgs.len() == 0 {
        assert(bytes + rest =~= rest);
        Seq::empty()
    } else {
        let n = choose|n: int| #[trigger]
            stream_splits(bytes, n) && msgs[0].is_encoding(bytes.take(n)) && is_stream(
                msgs.drop_first(),
                bytes.skip(n),
            );
        assert(bytes + rest =~= bytes.take(n) + (bytes.skip(n) + rest));
        let first = law_message_round_trip(msgs[0], bytes.take(n), bytes.skip(n) + rest);
        let tail = law_stream_round_trip(msgs.drop_first(), bytes.skip(n), rest);
        let received = seq![first] + tail;
        assert(received.drop_first() =~= tail);
        assert forall|i: int| 0 <= i < msgs.len() implies (#[trigger] msgs[i]).reads_back(
            received[i],
        ) by {
            if i > 0 {
                assert(msgs.drop_first()[i - 1] == msgs[i]);
            }
        }
        received
    }
}

/// A handshake is the length of the protocol string, which is 19, the string, eight
/// reserved bytes, the info hash and the peer id.
pub proof fn law_handshake_layout(handshake: HandshakeView, i: int)
    requires
        handshake.wf(),
        0 <= i < 20,
    ensures
        ({
            let bytes = handshake.encoding();
            &&& bytes.len() == 68
            &&& bytes[0] == 19
            &&& i < 19 ==> bytes[1 + i] == PROTOCOL_STRING.spec_bytes()[i]
            &&& i < 8 ==> bytes[20 + i] == handshake.reserved[i]
            &&& bytes[28 + i] == handshake.info_hash[i]
            &&& bytes[48 + i] == handshake.peer_id[i]
        }),
        handshake_of(handshake.info_hash, handshake.peer_id).wf(),
        handshake_of(handshake.info_hash, handshake.peer_id).info_hash == handshake.info_hash,
        handshake_of(handshake.info_hash, handshake.peer_id).peer_id == handshake.peer_id,
        i < 8 ==> handshake_of(handshake.info_hash, handshake.peer_id).reserved[i] == 0,
{
    law_protocol_string();
}

/// Bytes that begin with another length or hold another protocol string are not
/// a handshake, and only whole ones are read.
pub proof fn law_other_protocols_are_rejected(bytes: Seq<u8>)
    ensures
        bytes.len() > 0 && bytes[0] != 19 ==> decoded_handshake(bytes).result is Err,
        bytes.len() > 0 && bytes[0] == 19 && bytes.len() < 68 ==> decoded_handshake(bytes).result
            == Ok::<Option<HandshakeView>, CodecError>(None),
        bytes.len() == 0 ==> decoded_handshake(bytes).result == Ok::<
            Option<HandshakeView>,
            CodecError,
        >(None),
        bytes.len() >= 68 && bytes[0] == 19 && bytes.subrange(1, 20)
            != PROTOCOL_STRING.spec_bytes() ==> decoded_handshake(bytes).result is Err,
        bytes.len() >= 68 && bytes[0] == 19 && bytes.subrange(1, 20)
            == PROTOCOL_STRING.spec_bytes() ==> {
            &&& decoded_handshake(bytes).result matches Ok(Some(handshake))
            &&& handshake.wf()
            &&& handshake.encoding() == bytes.take(68)
            &&& decoded_handshake(bytes).rest == bytes.skip(68)
        },
{
    law_protocol_string();
    if bytes.len() >= 68 && bytes[0] == 19 && bytes.subrange(1, 20)
        == PROTOCOL_STRING.spec_bytes() {
        let handshake = decoded_handshake(bytes).result->Ok_0->0;
        assert(handshake.encoding() =~= bytes.take(68));
    }
}

/// The messages have the ids that the protocol gives them.
pub proof fn law_messages_have_their_ids(
    bits: Seq<bool>,
    index: usize,
    offset: u32,
    data: Seq<u8>,
    block: BlockInfo,
)
    ensures
        MessageView::KeepAlive.id() is None,
        MessageView::Choke.id()->0.code() == 0,
        MessageView::Unchoke.id()->0.code() == 1,
        MessageView::Interested.id()->0.code() == 2,
        MessageView::NotInterested.id()->0.code() == 3,
        (MessageView::Have(index)).id()->0.code() == 4,
        (MessageView::Bitfield(bits)).id()->0.code() == 5,
        (MessageView::Request(block)).id()->0.code() == 6,
        (MessageView::Block(index, offset, data)).id()->0.code() == 7,
        (MessageView::Cancel(block)).id()->0.code() == 8,
{
}

/// Each message is preceded by its length, of which the four bytes of the length itself
/// are no part, and its id, and is followed by its payload: nothing, a piece index, the
/// bits of a bitfield, or a block's piece index, offset, and length or data.
pub proof fn law_message_layout(msg: MessageView, bytes: Seq<u8>)
    requires
        msg.is_encoding(bytes),
        msg.payload_len() + 1 <= u32::MAX,
    ensures
        bytes.len() >= 4,
        from_be32(bytes) == bytes.len() - 4,
        msg is KeepAlive ==> bytes.len() == 4,
        !(msg is KeepAlive) ==> bytes.len() >= 5 && bytes[4] == msg.id()->0.code(),
        msg is Choke || msg is Unchoke || msg is Interested || msg is NotInterested
            ==> bytes.len() == 5,
        msg matches MessageView::Have(index) ==> bytes.len() == 9 && bytes.skip(5) == be32(
            index as u32,
        ),
        msg matches MessageView::Request(block) ==> bytes.len() == 17 && bytes.skip(5) == be32(
            block.piece_index as u32,
        ) + be32(block.offset) + be32(block.len),
        msg matches MessageView::Cancel(block) ==> bytes.len() == 17 && bytes.skip(5) == be32(
            block.piece_index as u32,
        ) + be32(block.offset) + be32(block.len),
        msg matches MessageView::Block(index, offset, data) ==> bytes.len() == 13 + data.len()
            && bytes.skip(5) == be32(index as u32) + be32(offset) + data,
        msg matches MessageView::Bitfield(bits) ==> bytes.len() == 5 + (bits.len() + 7) / 8
            && stores_bits(bytes.skip(5), bits),
        bytes.len() == msg.encoded_len(),
{
    match msg.id() {
        Some(id) => {
            let payload = choose|payload: Seq<u8>| #[trigger]
                msg.is_payload(payload) && bytes == frame(id, payload);
            let len = (1 + payload.len()) as u32;
            law_be32_round_trip(len);
            assert(bytes =~= be32(len) + (seq![id.code()] + payload));
            lemma_from_be32_prefix(len, seq![id.code()] + payload);
            assert(bytes.skip(5) =~= payload);
            match msg {
                MessageView::Have(index) => {
                    law_be32_round_trip(index as u32);
                },
                MessageView::Request(block) => {
                    assert(payload.len() == 12);
                },
                MessageView::Cancel(block) => {
                    assert(payload.len() == 12);
                },
                MessageView::Block(index, offset, data) => {
                    assert(payload.len() == 8 + data.len());
                },
                _ => {},
            }
        },
        None => {
            law_be32_round_trip(0);
        },
    }
}

/// Every message can be sent whose piece index fits into four bytes, as its length does,
/// and that is not a block without data.
pub proof fn law_ordinary_messages_can_be_sent(msg: MessageView)
    ensures
        msg is KeepAlive || msg is Choke || msg is Unchoke || msg is Interested
            || msg is NotInterested ==> msg.sendable(),
        msg matches MessageView::Have(index) ==> index <= u32::MAX ==> msg.sendable(),
        msg matches MessageView::Request(block) ==> block.piece_index <= u32::MAX
            ==> msg.sendable(),
        msg matches MessageView::Cancel(block) ==> block.piece_index <= u32::MAX
            ==> msg.sendable(),
        msg matches MessageView::Block(index, _, data) ==> index <= u32::MAX && 0 < data.len()
            <= u32::MAX - 9 ==> msg.sendable(),
        msg matches MessageView::Bitfield(bits) ==> bits.len() <= max_bits() - 7 && (bits.len() + 7)
            / 8 < u32::MAX ==> msg.sendable(),
{
}

/// What reads back as a message is the message itself, but for a bitfield, which is
/// filled up to whole bytes.
pub proof fn law_messages_read_back_as_themselves(msg: MessageView, received: MessageView)
    requires
        msg.reads_back(received),
    ensures
        !(msg is Bitfield) ==> received == msg,
        msg matches MessageView::Bitfield(bits) ==> (received matches MessageView::Bitfield(read)
            && bits.len() <= read.len() < bits.len() + 8 && read.take(bits.len() as int) == bits),
{
    match msg {
        MessageView::Bitfield(bits) => {
            let read = received->Bitfield_0;
            assert(read.take(bits.len() as int) =~= resized(read, bits.len(), false));
        },
        _ => {},
    }
}

/// A whole message with an id above eight is unknown, and nothing is read before the
/// whole message is there.
pub proof fn law_unknown_messages_are_rejected(bytes: Seq<u8>)
    ensures
        bytes.len() < 4 ==> decodable(bytes) && decoded_message(bytes) == (Decoded {
            result: Ok::<Option<MessageView>, CodecError>(None),
            rest: bytes,
        }),
        bytes.len() >= 4 && bytes.len() - 4 < from_be32(bytes) ==> decodable(bytes)
            && decoded_message(bytes) == (Decoded {
            result: Ok::<Option<MessageView>, CodecError>(None),
            rest: bytes,
        }),
        bytes.len() >= 5 && 1 <= from_be32(bytes) <= bytes.len() - 4 && bytes[4] > 8 ==> {
            &&& decodable(bytes)
            &&& decoded_message(bytes).result == Err::<Option<MessageView>, CodecError>(
                CodecError::UnknownMessageId,
            )
        },
{
}

/// What a message counts for is its whole length, with the length prefix and the id.
pub proof fn law_message_lengths(
    bits: Seq<bool>,
    index: usize,
    offset: u32,
    data: Seq<u8>,
    block: BlockInfo,
)
    ensures
        MessageView::KeepAlive.encoded_len() == 4,
        MessageView::Choke.encoded_len() == 5,
        MessageView::Unchoke.encoded_len() == 5,
        MessageView::Interested.encoded_len() == 5,
        MessageView::NotInterested.encoded_len() == 5,
        (MessageView::Have(index)).encoded_len() == 9,
        (MessageView::Bitfield(bits)).encoded_len() == 5 + (bits.len() + 7) / 8,
        (MessageView::Request(block)).encoded_len() == 17,
        (MessageView::Block(index, offset, data)).encoded_len() == 13 + data.len(),
        (MessageView::Cancel(block)).encoded_len() == 17,
        MessageId::Choke.fixed_len() == 0,
        MessageId::Unchoke.fixed_len() == 0,
        MessageId::Interested.fixed_len() == 0,
        MessageId::NotInterested.fixed_len() == 0,
        MessageId::Have.fixed_len() == 4,
        MessageId::Bitfield.fixed_len() == 0,
        MessageId::Request.fixed_len() == 12,
        MessageId::Block.fixed_len() == 8,
        MessageId::Cancel.fixed_len() == 12,
{
}

} // verus!
