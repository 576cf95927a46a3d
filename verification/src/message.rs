//! The message envelope and its wire form.
//!
//! A message travels as one datagram of at most [`MAX_PAYLOAD_SIZE`] bytes:
//!
//! | field          | bytes                                   |
//! |----------------|-----------------------------------------|
//! | `from_id`      | 4, little-endian                        |
//! | `ttl`          | 1                                       |
//! | type length    | 2, little-endian                        |
//! | `msg_type`     | as many as the length says, UTF-8       |
//! | payload length | 2, little-endian                        |
//! | `payload`      | as many as the length says              |
//!
//! [`wire_form`] states the encoding and [`parse`] the decoding;
//! [`lemma_round_trip`] and [`lemma_parse_inverts_wire_form`] relate the two.
//! A peer record that travels as a payload has a form of its own,
//! [`node_form`].

use vstd::prelude::*;
use vstd::slice::{slice_subrange, slice_to_vec};
use vstd::utf8::{decode_utf8, encode_utf8, valid_utf8};
use crate::buffer::{
    Buffer, buffer_bytes, buffer_clone, buffer_extend, buffer_new, buffer_push, buffer_slice,
};
use crate::constants::MAX_PAYLOAD_SIZE;
use crate::error::CodecError;
use crate::node::{Address, Ipv4, Node, NodeStatus};
use crate::text::text_from_utf8;

verus! {

/// The message type of a liveness announcement.
pub const HEARTBEAT: &'static str = "heartbeat";

/// The message type of a message that carries a peer record.
pub const UPDATE: &'static str = "update";

/// Length of an encoded peer record.
pub const NODE_SIZE: usize = 19;

/// Hops that a heartbeat may travel when the sender does not say otherwise.
pub const DEFAULT_TTL: u8 = 3;

/// Bytes of the encoded form that are not message type or payload.
pub const HEADER_SIZE: usize = 9;

/// The envelope that peers exchange.
#[derive(Debug, PartialEq, Eq)]
pub struct GossipMessage {
    /// The node that originated the message, not the last hop.
    pub from_id: u32,
    /// Hops that remain.
    pub ttl: u8,
    /// `"heartbeat"`, or a type that only the application knows.
    pub msg_type: String,
    pub payload: Buffer,
}

/// A message as a mathematical value.
#[verifier::ext_equal]
pub struct MessageView {
    pub from_id: u32,
    pub ttl: u8,
    pub msg_type: Seq<char>,
    pub payload: Seq<u8>,
}

impl View for GossipMessage {
    type V = MessageView;

    open spec fn view(&self) -> MessageView {
        MessageView {
            from_id: self.from_id,
            ttl: self.ttl,
            msg_type: self.msg_type@,
            payload: buffer_bytes(self.payload),
        }
    }
}

impl Clone for GossipMessage {
    fn clone(&self) -> (copy: Self)
        ensures
            copy@ == self@,
    {
        GossipMessage {
            from_id: self.from_id,
            ttl: self.ttl,
            msg_type: self.msg_type.clone(),
            payload: buffer_clone(&self.payload),
        }
    }
}

/// The two bytes of `n`, low byte first.
pub open spec fn le16(n: nat) -> Seq<u8> {
    seq![(n % 256) as u8, (n / 256 % 256) as u8]
}

/// The number that two bytes stand for, low byte first.
pub open spec fn from_le16(b0: u8, b1: u8) -> int {
    b0 + 256 * b1
}

/// The four bytes of `v`, low byte first.
pub open spec fn le32(v: u32) -> Seq<u8> {
    seq![
        (v % 256) as u8,
        (v / 256 % 256) as u8,
        (v / 256 / 256 % 256) as u8,
        (v / 256 / 256 / 256) as u8,
    ]
}

/// The number that four bytes stand for, low byte first.
pub open spec fn from_le32(b0: u8, b1: u8, b2: u8, b3: u8) -> u32 {
    (b0 + 256 * b1 + 65536 * b2 + 16777216 * b3) as u32
}

/// The encoded form of a message.
pub open spec fn wire_form(m: MessageView) -> Seq<u8> {
    let text = encode_utf8(m.msg_type);
    le32(m.from_id) + seq![m.ttl] + le16(text.len()) + text + le16(m.payload.len()) + m.payload
}

/// Length of the encoded form.
pub open spec fn wire_len(m: MessageView) -> nat {
    HEADER_SIZE as nat + encode_utf8(m.msg_type).len() + m.payload.len()
}

/// A message is well formed when its encoded form fits in one datagram.
pub open spec fn fits(m: MessageView) -> bool {
    wire_len(m) <= MAX_PAYLOAD_SIZE
}

/// What a byte sequence decodes to. Fields are read in order; bytes after the
/// payload are ignored.
pub open spec fn parse(bytes: Seq<u8>) -> Result<MessageView, CodecError> {
    if bytes.len() < 7 {
        Err(CodecError::Truncated)
    } else {
        let from_id = from_le32(bytes[0], bytes[1], bytes[2], bytes[3]);
        let ttl = bytes[4];
        let text_end = 7 + from_le16(bytes[5], bytes[6]);
        if bytes.len() < text_end {
            Err(CodecError::Truncated)
        } else if !valid_utf8(bytes.subrange(7, text_end)) {
            Err(CodecError::InvalidText)
        } else if bytes.len() < text_end + 2 {
            Err(CodecError::Truncated)
        } else {
            let payload_len = from_le16(bytes[text_end], bytes[text_end + 1]);
            if payload_len > MAX_PAYLOAD_SIZE {
                Err(CodecError::PayloadOverrun)
            } else if bytes.len() < text_end + 2 + payload_len {
                Err(CodecError::Truncated)
            } else {
                Ok(
                    MessageView {
                        from_id,
                        ttl,
                        msg_type: decode_utf8(bytes.subrange(7, text_end)),
                        payload: bytes.subrange(text_end + 2, text_end + 2 + payload_len),
                    },
                )
            }
        }
    }
}

/// Two bytes written low byte first read back as the number written.
pub proof fn lemma_le16_inverse(n: nat)
    requires
        n < 65536,
    ensures
        le16(n).len() == 2,
        from_le16(le16(n)[0], le16(n)[1]) == n,
{
}

/// Four bytes written low byte first read back as the number written.
pub proof fn lemma_le32_inverse(v: u32)
    ensures
        le32(v).len() == 4,
        from_le32(le32(v)[0], le32(v)[1], le32(v)[2], le32(v)[3]) == v,
{
    let q1 = v / 256;
    let q2 = q1 / 256;
    let q3 = q2 / 256;
    assert(v == v % 256 + 256 * q1);
    assert(q1 == q1 % 256 + 256 * q2);
    assert(q2 == q2 % 256 + 256 * q3);
    assert(q3 < 256);
}

/// The encoded form is as long as [`wire_len`] says.
pub proof fn lemma_wire_form_len(m: MessageView)
    ensures
        wire_form(m).len() == wire_len(m),
{
}

/// What can be decoded: the length of the message type fits its prefix, and
/// the payload is no longer than a payload may be.
pub open spec fn decodable(m: MessageView) -> bool {
    encode_utf8(m.msg_type).len() < 65536 && m.payload.len() <= MAX_PAYLOAD_SIZE
}

/// The encoded form of a decodable message decodes to the message, whatever
/// bytes follow it.
pub proof fn lemma_parse_of_wire_form(m: MessageView, tail: Seq<u8>)
    requires
        decodable(m),
    ensures
        parse(wire_form(m) + tail) == Ok::<MessageView, CodecError>(m),
{
    let text = encode_utf8(m.msg_type);
    let text_end = 7 + text.len() as int;
    let bytes = wire_form(m) + tail;
    lemma_le32_inverse(m.from_id);
    lemma_le16_inverse(text.len());
    lemma_le16_inverse(m.payload.len());
    vstd::utf8::encode_utf8_valid_utf8(m.msg_type);
    vstd::utf8::encode_utf8_decode_utf8(m.msg_type);
    assert(bytes.subrange(7, text_end) =~= text);
    assert(bytes.subrange(text_end + 2, text_end + 2 + m.payload.len()) =~= m.payload);
    assert(bytes[text_end] == le16(m.payload.len())[0]);
    assert(bytes[text_end + 1] == le16(m.payload.len())[1]);
}

/// Round trip: a message whose encoded form fits in a datagram decodes from
/// that form to itself.
pub proof fn lemma_round_trip(m: MessageView)
    requires
        fits(m),
    ensures
        parse(wire_form(m)) == Ok::<MessageView, CodecError>(m),
{
    lemma_parse_of_wire_form(m, Seq::empty());
    assert(wire_form(m) + Seq::<u8>::empty() =~= wire_form(m));
}

/// Two bytes read low byte first are written back as the same bytes.
pub proof fn lemma_from_le16_inverse(b0: u8, b1: u8)
    ensures
        le16(from_le16(b0, b1) as nat) == seq![b0, b1],
{
    assert(le16(from_le16(b0, b1) as nat) =~= seq![b0, b1]);
}

/// Four bytes read low byte first are written back as the same bytes.
pub proof fn lemma_from_le32_inverse(b0: u8, b1: u8, b2: u8, b3: u8)
    ensures
        le32(from_le32(b0, b1, b2, b3)) == seq![b0, b1, b2, b3],
{
    let v = from_le32(b0, b1, b2, b3);
    assert(v == b0 + 256 * (b1 + 256 * (b2 + 256 * b3)));
    let q1 = v / 256;
    assert(v % 256 == b0 && q1 == b1 + 256 * (b2 + 256 * b3));
    let q2 = q1 / 256;
    assert(q1 % 256 == b1 && q2 == b2 + 256 * b3);
    assert(q2 % 256 == b2 && q2 / 256 == b3);
    assert(le32(v) =~= seq![b0, b1, b2, b3]);
}

/// Decoding inverts encoding: whatever decodes to a message begins with that
/// message's encoded form. So no two messages share an encoded form, and a
/// datagram of at most [`MAX_PAYLOAD_SIZE`] bytes decodes only to messages
/// that can be encoded again.
pub proof fn lemma_parse_inverts_wire_form(bytes: Seq<u8>, m: MessageView)
    requires
        parse(bytes) == Ok::<MessageView, CodecError>(m),
    ensures
        decodable(m),
        wire_len(m) <= bytes.len(),
        bytes.subrange(0, wire_len(m) as int) == wire_form(m),
        bytes.len() <= MAX_PAYLOAD_SIZE ==> fits(m),
{
    let text_end = 7 + from_le16(bytes[5], bytes[6]);
    let text = bytes.subrange(7, text_end);
    let payload_len = from_le16(bytes[text_end], bytes[text_end + 1]);
    let payload = bytes.subrange(text_end + 2, text_end + 2 + payload_len);
    vstd::utf8::decode_utf8_encode_utf8(text);
    assert(encode_utf8(m.msg_type) == text);
    assert(m.payload == payload);
    lemma_from_le32_inverse(bytes[0], bytes[1], bytes[2], bytes[3]);
    lemma_from_le16_inverse(bytes[5], bytes[6]);
    lemma_from_le16_inverse(bytes[text_end], bytes[text_end + 1]);
    let head = seq![bytes[0], bytes[1], bytes[2], bytes[3]] + seq![bytes[4]] + seq![
        bytes[5],
        bytes[6],
    ];
    assert(head =~= bytes.subrange(0, 7));
    let joined = head + text + seq![bytes[text_end], bytes[text_end + 1]] + payload;
    assert(wire_form(m) == joined);
    assert(joined =~= bytes.subrange(0, wire_len(m) as int));
}

/// The eight bytes of `v`, low byte first.
pub open spec fn le64(v: u64) -> Seq<u8> {
    le32((v % 0x1_0000_0000) as u32) + le32((v / 0x1_0000_0000) as u32)
}

/// The number that eight bytes stand for, low byte first.
pub open spec fn from_le64(low: u32, high: u32) -> u64 {
    (low + 0x1_0000_0000 * high) as u64
}

/// The byte that stands for a status.
pub open spec fn status_tag(status: NodeStatus) -> u8 {
    match status {
        NodeStatus::Online => 0,
        NodeStatus::Offline => 1,
    }
}

/// The encoded form of a peer record: identifier (4 bytes, little-endian),
/// the four octets of the address, port (2, little-endian), status (1: 0 for
/// online, 1 for offline), time last heard from (8, little-endian).
pub open spec fn node_form(node: Node) -> Seq<u8> {
    le32(node.id) + seq![node.addr.ip.a, node.addr.ip.b, node.addr.ip.c, node.addr.ip.d] + le16(
        node.addr.port as nat,
    ) + seq![status_tag(node.status)] + le64(node.last_heartbeat)
}

/// What a payload decodes to as a peer record. Bytes after the record are
/// ignored.
pub open spec fn parse_node(bytes: Seq<u8>) -> Result<Node, CodecError> {
    if bytes.len() < NODE_SIZE {
        Err(CodecError::Truncated)
    } else if bytes[10] > 1 {
        Err(CodecError::UnknownTag)
    } else {
        Ok(
            Node {
                id: from_le32(bytes[0], bytes[1], bytes[2], bytes[3]),
                addr: Address {
                    ip: Ipv4 { a: bytes[4], b: bytes[5], c: bytes[6], d: bytes[7] },
                    port: from_le16(bytes[8], bytes[9]) as u16,
                },
                status: if bytes[10] == 0 {
                    NodeStatus::Online
                } else {
                    NodeStatus::Offline
                },
                last_heartbeat: from_le64(
                    from_le32(bytes[11], bytes[12], bytes[13], bytes[14]),
                    from_le32(bytes[15], bytes[16], bytes[17], bytes[18]),
                ),
            },
        )
    }
}

/// Round trip of peer records: a record decodes from its encoded form to
/// itself, whatever bytes follow.
pub proof fn lemma_node_round_trip(node: Node, tail: Seq<u8>)
    ensures
        node_form(node).len() == NODE_SIZE,
        parse_node(node_form(node) + tail) == Ok::<Node, CodecError>(node),
        parse_node(node_form(node)) == Ok::<Node, CodecError>(node),
{
    let low = (node.last_heartbeat % 0x1_0000_0000) as u32;
    let high = (node.last_heartbeat / 0x1_0000_0000) as u32;
    lemma_le32_inverse(node.id);
    lemma_le16_inverse(node.addr.port as nat);
    lemma_le32_inverse(low);
    lemma_le32_inverse(high);
    assert(from_le64(low, high) == node.last_heartbeat);
    assert forall|rest: Seq<u8>| parse_node(#[trigger] (node_form(node) + rest)) == Ok::<
        Node,
        CodecError,
    >(node) by {
        let bytes = node_form(node) + rest;
        assert(bytes[0] == le32(node.id)[0] && bytes[1] == le32(node.id)[1] && bytes[2] == le32(
            node.id,
        )[2] && bytes[3] == le32(node.id)[3]);
        assert(bytes[8] == le16(node.addr.port as nat)[0] && bytes[9] == le16(
            node.addr.port as nat,
        )[1]);
        assert(bytes[11] == le32(low)[0] && bytes[12] == le32(low)[1] && bytes[13] == le32(low)[2]
            && bytes[14] == le32(low)[3]);
        assert(bytes[15] == le32(high)[0] && bytes[16] == le32(high)[1] && bytes[17] == le32(
            high,
        )[2] && bytes[18] == le32(high)[3]);
    }
    assert(node_form(node) + Seq::<u8>::empty() =~= node_form(node));
}

/// Appends the two bytes of `n` to `buf`.
fn put_le16(buf: &mut Buffer, n: usize)
    requires
        n < 65536,
        buffer_bytes(*old(buf)).len() + 2 <= MAX_PAYLOAD_SIZE,
    ensures
        buffer_bytes(*final(buf)) == buffer_bytes(*old(buf)) + le16(n as nat),
{
    let _ = buffer_push(buf, (n % 256) as u8);
    let _ = buffer_push(buf, (n / 256 % 256) as u8);
    assert(buffer_bytes(*buf) =~= buffer_bytes(*old(buf)) + le16(n as nat));
}

/// Appends the four bytes of `v` to `buf`.
fn put_le32(buf: &mut Buffer, v: u32)
    requires
        buffer_bytes(*old(buf)).len() + 4 <= MAX_PAYLOAD_SIZE,
    ensures
        buffer_bytes(*final(buf)) == buffer_bytes(*old(buf)) + le32(v),
{
    let _ = buffer_push(buf, (v % 256) as u8);
    let _ = buffer_push(buf, (v / 256 % 256) as u8);
    let _ = buffer_push(buf, (v / 256 / 256 % 256) as u8);
    let _ = buffer_push(buf, (v / 256 / 256 / 256) as u8);
    assert(buffer_bytes(*buf) =~= buffer_bytes(*old(buf)) + le32(v));
}

/// Reads two bytes at `at` as a number, low byte first.
fn get_le16(bytes: &[u8], at: usize) -> (n: usize)
    requires
        at + 2 <= bytes@.len(),
    ensures
        n == from_le16(bytes@[at as int], bytes@[at + 1]),
        n < 65536,
{
    bytes[at] as usize + 256 * (bytes[at + 1] as usize)
}

/// Reads four bytes at `at` as a number, low byte first.
fn get_le32(bytes: &[u8], at: usize) -> (v: u32)
    requires
        at + 4 <= bytes@.len(),
    ensures
        v == from_le32(bytes@[at as int], bytes@[at + 1], bytes@[at + 2], bytes@[at + 3]),
{
    bytes[at] as u32 + 256 * (bytes[at + 1] as u32) + 65536 * (bytes[at + 2] as u32) + 16777216 * (
    bytes[at + 3] as u32)
}

/// The liveness announcement of node `from_id` with `ttl` hops to travel.
pub open spec fn heartbeat_view(from_id: u32, ttl: u8) -> MessageView {
    MessageView { from_id, ttl, msg_type: HEARTBEAT@, payload: Seq::empty() }
}

/// A heartbeat is 18 bytes on the wire, so it always fits in a datagram.
pub proof fn lemma_heartbeat_fits(from_id: u32, ttl: u8)
    ensures
        wire_len(heartbeat_view(from_id, ttl)) == 18,
        fits(heartbeat_view(from_id, ttl)),
{
    reveal_strlit("heartbeat");
    vstd::utf8::is_ascii_chars_encode_utf8(HEARTBEAT@);
}

impl GossipMessage {
    /// A heartbeat from `from_id`: no payload, and `ttl` hops to travel, or
    /// [`DEFAULT_TTL`] where none is given.
    pub fn heartbeat(from_id: u32, ttl: Option<u8>) -> (msg: GossipMessage)
        ensures
            msg@ == heartbeat_view(
                from_id,
                match ttl {
                    Some(hops) => hops,
                    None => DEFAULT_TTL,
                },
            ),
    {
        let hops: u8 = match ttl {
            Some(hops) => hops,
            None => DEFAULT_TTL,
        };
        GossipMessage { from_id, ttl: hops, msg_type: HEARTBEAT.to_owned(), payload: buffer_new() }
    }

    /// The message that announces `node` to the next hop only: it comes from
    /// the node, has one hop to live and carries the node's encoded record.
    pub fn update(node: Node) -> (msg: GossipMessage)
        ensures
            msg@ == (MessageView {
                from_id: node.id,
                ttl: 1,
                msg_type: UPDATE@,
                payload: node_form(node),
            }),
    {
        let payload = match GossipMessage::serialize_payload(&node) {
            Ok(payload) => payload,
            Err(_) => buffer_new(),
        };
        GossipMessage { from_id: node.id, ttl: 1, msg_type: UPDATE.to_owned(), payload }
    }

    /// Encodes a peer record as a payload. A record always fits.
    pub fn serialize_payload(node: &Node) -> (encoded: Result<Buffer, CodecError>)
        ensures
            encoded matches Ok(buf) && buffer_bytes(buf) == node_form(*node),
    {
        let mut buf = buffer_new();
        put_le32(&mut buf, node.id);
        let _ = buffer_push(&mut buf, node.addr.ip.a);
        let _ = buffer_push(&mut buf, node.addr.ip.b);
        let _ = buffer_push(&mut buf, node.addr.ip.c);
        let _ = buffer_push(&mut buf, node.addr.ip.d);
        let port: u16 = node.addr.port;
        let _ = buffer_push(&mut buf, (port % 256) as u8);
        let _ = buffer_push(&mut buf, (port / 256 % 256) as u8);
        let _ = buffer_push(
            &mut buf,
            match node.status {
                NodeStatus::Online => 0,
                NodeStatus::Offline => 1,
            },
        );
        put_le32(&mut buf, (node.last_heartbeat % 0x1_0000_0000) as u32);
        put_le32(&mut buf, (node.last_heartbeat / 0x1_0000_0000) as u32);
        assert(buffer_bytes(buf) =~= node_form(*node));
        Ok(buf)
    }

    /// Decodes a payload as a peer record. Fails when fewer than
    /// [`NODE_SIZE`] bytes are given and when the status byte names no
    /// status; bytes after the record are ignored.
    pub fn deserialize_payload(data: &[u8]) -> (decoded: Result<Node, CodecError>)
        ensures
            decoded == parse_node(data@),
    {
        if data.len() < NODE_SIZE {
            return Err(CodecError::Truncated);
        }
        let status = match data[10] {
            0 => NodeStatus::Online,
            1 => NodeStatus::Offline,
            _ => {
                return Err(CodecError::UnknownTag);
            },
        };
        let low: u32 = get_le32(data, 11);
        let high: u32 = get_le32(data, 15);
        Ok(
            Node {
                id: get_le32(data, 0),
                addr: Address {
                    ip: Ipv4 { a: data[4], b: data[5], c: data[6], d: data[7] },
                    port: get_le16(data, 8) as u16,
                },
                status,
                last_heartbeat: low as u64 + 0x1_0000_0000 * (high as u64),
            },
        )
    }

    /// Whether the message is a liveness announcement.
    pub fn is_heartbeat(&self) -> (yes: bool)
        ensures
            yes == (self@.msg_type == HEARTBEAT@),
    {
        let expected = HEARTBEAT.to_owned();
        self.msg_type == expected
    }

    /// Encodes the message into a datagram. Fails exactly when the encoded
    /// form would not fit in [`MAX_PAYLOAD_SIZE`] bytes.
    pub fn serialize(&self) -> (encoded: Result<Buffer, CodecError>)
        ensures
            encoded is Ok <==> fits(self@),
            encoded matches Ok(buf) ==> buffer_bytes(buf) == wire_form(self@) && parse(
                buffer_bytes(buf),
            ) == Ok::<MessageView, CodecError>(self@),
            encoded matches Err(e) ==> e == CodecError::BufferFull,
    {
        let text = self.msg_type.as_str().as_bytes();
        let payload = buffer_slice(&self.payload);
        let room: usize = MAX_PAYLOAD_SIZE - HEADER_SIZE;
        if text.len() > room || payload.len() > room - text.len() {
            return Err(CodecError::BufferFull);
        }
        let mut buf = buffer_new();
        put_le32(&mut buf, self.from_id);
        let _ = buffer_push(&mut buf, self.ttl);
        put_le16(&mut buf, text.len());
        let _ = buffer_extend(&mut buf, text);
        put_le16(&mut buf, payload.len());
        let _ = buffer_extend(&mut buf, payload);
        proof {
            assert(buffer_bytes(buf) =~= wire_form(self@));
            lemma_round_trip(self@);
        }
        Ok(buf)
    }

    /// Decodes a datagram. Fails when the input ends before a field is
    /// complete, when the message type is not UTF-8, or when the payload's
    /// length prefix exceeds [`MAX_PAYLOAD_SIZE`]; bytes after the payload are
    /// ignored.
    pub fn deserialize(data: &[u8]) -> (decoded: Result<GossipMessage, CodecError>)
        ensures
            decoded matches Ok(msg) ==> parse(data@) == Ok::<MessageView, CodecError>(msg@),
            decoded matches Ok(msg) ==> wire_len(msg@) <= data@.len() && data@.subrange(
                0,
                wire_len(msg@) as int,
            ) == wire_form(msg@),
            decoded matches Err(e) ==> parse(data@) == Err::<MessageView, CodecError>(e),
    {
        if data.len() < 7 {
            return Err(CodecError::Truncated);
        }
        let from_id: u32 = get_le32(data, 0);
        let ttl: u8 = data[4];
        let text_len: usize = get_le16(data, 5);
        if data.len() - 7 < text_len {
            return Err(CodecError::Truncated);
        }
        let text_end: usize = 7 + text_len;
        let msg_type = match text_from_utf8(slice_to_vec(slice_subrange(data, 7, text_end))) {
            Some(text) => text,
            None => {
                return Err(CodecError::InvalidText);
            },
        };
        if data.len() - text_end < 2 {
            return Err(CodecError::Truncated);
        }
        let payload_len: usize = get_le16(data, text_end);
        if payload_len > MAX_PAYLOAD_SIZE {
            return Err(CodecError::PayloadOverrun);
        }
        if data.len() - text_end - 2 < payload_len {
            return Err(CodecError::Truncated);
        }
        let mut payload = buffer_new();
        let _ = buffer_extend(
            &mut payload,
            slice_subrange(data, text_end + 2, text_end + 2 + payload_len),
        );
        proof {
            let text = data@.subrange(7, text_end as int);
            vstd::utf8::encode_utf8_decode_utf8(msg_type@);
            assert(msg_type@ == decode_utf8(text));
            assert(buffer_bytes(payload) =~= data@.subrange(
                text_end + 2,
                text_end + 2 + payload_len,
            ));
        }
        let msg = GossipMessage { from_id, ttl, msg_type, payload };
        proof {
            lemma_parse_inverts_wire_form(data@, msg@);
        }
        Ok(msg)
    }
}

} // verus!
