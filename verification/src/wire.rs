//! Byte layout of a datagram, as mathematical functions on byte sequences.
//!
//! A datagram is laid out as follows, all integers little-endian:
//!
//! | bytes        | content                                   |
//! |--------------|-------------------------------------------|
//! | 0            | message type: 0 ping, 1 ack, 2 indirect   |
//! | 1..9         | sequence number                           |
//! | 9..17        | epoch                                     |
//! | 17           | number of alive addresses                 |
//! | ...          | the alive addresses                       |
//! | next byte    | number of dead addresses                  |
//! | ...          | the dead addresses                        |
//!
//! An IPv4 address takes 7 bytes: the byte 4, the IP, the port. An IPv6 address
//! takes 27 bytes: the byte 6, the IP, the port, the flow information and the
//! scope identifier. A datagram is never longer than 64 bytes.

use vstd::prelude::*;
use vstd::bytes::{
    lemma_auto_spec_u128_to_from_le_bytes, lemma_auto_spec_u16_to_from_le_bytes,
    lemma_auto_spec_u32_to_from_le_bytes, lemma_auto_spec_u64_to_from_le_bytes,
    spec_u128_from_le_bytes, spec_u128_to_le_bytes, spec_u16_from_le_bytes, spec_u16_to_le_bytes,
    spec_u32_from_le_bytes, spec_u32_to_le_bytes, spec_u64_from_le_bytes, spec_u64_to_le_bytes,
};
use crate::addr::NodeAddr;

verus! {

/// The largest datagram, in bytes.
pub const DATAGRAM_BUDGET: usize = 64;

/// Bytes taken by the type, the sequence number, the epoch and the two counts.
pub const FIXED_LEN: usize = 19;

/// Kind of a protocol message.
#[derive(Clone, Copy, Debug, PartialEq, Eq, Structural)]
pub enum MessageType {
    /// A probe that asks for an acknowledgement.
    Ping,
    /// The acknowledgement of a probe.
    PingAck,
    /// A request to probe a third node on the sender's behalf.
    PingIndirect,
}

/// What a message says, as mathematical values.
pub struct MessageView {
    pub kind: MessageType,
    pub sequence_number: u64,
    pub epoch: u64,
    pub alive: Seq<NodeAddr>,
    pub dead: Seq<NodeAddr>,
}

/// The byte that stands for a message type.
pub open spec fn type_tag(kind: MessageType) -> u8 {
    match kind {
        MessageType::Ping => 0,
        MessageType::PingAck => 1,
        MessageType::PingIndirect => 2,
    }
}

/// The message type that a byte stands for, if any.
pub open spec fn tag_type(tag: u8) -> Option<MessageType> {
    if tag == 0 {
        Some(MessageType::Ping)
    } else if tag == 1 {
        Some(MessageType::PingAck)
    } else if tag == 2 {
        Some(MessageType::PingIndirect)
    } else {
        None
    }
}

/// Number of bytes that one address takes.
pub open spec fn addr_size(a: NodeAddr) -> nat {
    match a {
        NodeAddr::V4 { .. } => 7,
        NodeAddr::V6 { .. } => 27,
    }
}

/// The bytes of one address.
pub open spec fn addr_encoding(a: NodeAddr) -> Seq<u8> {
    match a {
        NodeAddr::V4 { ip, port } => seq![4u8] + spec_u32_to_le_bytes(ip) + spec_u16_to_le_bytes(
            port,
        ),
        NodeAddr::V6 { ip6, port6, flowinfo, scope_id } => seq![6u8] + spec_u128_to_le_bytes(ip6)
            + spec_u16_to_le_bytes(port6) + spec_u32_to_le_bytes(flowinfo) + spec_u32_to_le_bytes(
            scope_id,
        ),
    }
}

/// Number of bytes that a list of addresses takes, its count byte not included.
pub open spec fn list_size(s: Seq<NodeAddr>) -> nat
    decreases s.len(),
{
    if s.len() == 0 {
        0
    } else {
        list_size(s.drop_last()) + addr_size(s.last())
    }
}

/// The bytes of a list of addresses, one address after the other.
pub open spec fn list_encoding(s: Seq<NodeAddr>) -> Seq<u8>
    decreases s.len(),
{
    if s.len() == 0 {
        Seq::<u8>::empty()
    } else {
        list_encoding(s.drop_last()) + addr_encoding(s.last())
    }
}

impl MessageView {
    /// Number of bytes that the message takes on the wire.
    pub open spec fn size(self) -> nat {
        FIXED_LEN as nat + list_size(self.alive) + list_size(self.dead)
    }

    /// Whether the message fits into one datagram.
    pub open spec fn fits(self) -> bool {
        self.size() <= DATAGRAM_BUDGET
    }
}

/// The datagram that carries `m`.
pub open spec fn encoding(m: MessageView) -> Seq<u8> {
    seq![type_tag(m.kind)] + spec_u64_to_le_bytes(m.sequence_number) + spec_u64_to_le_bytes(
        m.epoch,
    ) + seq![m.alive.len() as u8] + list_encoding(m.alive) + seq![m.dead.len() as u8]
        + list_encoding(m.dead)
}

/// The address that starts at position `p` of `b`, if one does.
pub open spec fn parse_addr(b: Seq<u8>, p: int) -> Option<NodeAddr> {
    if 0 <= p && p + 7 <= b.len() && b[p] == 4 {
        Some(
            NodeAddr::V4 {
                ip: spec_u32_from_le_bytes(b.subrange(p + 1, p + 5)),
                port: spec_u16_from_le_bytes(b.subrange(p + 5, p + 7)),
            },
        )
    } else if 0 <= p && p + 27 <= b.len() && b[p] == 6 {
        Some(
            NodeAddr::V6 {
                ip6: spec_u128_from_le_bytes(b.subrange(p + 1, p + 17)),
                port6: spec_u16_from_le_bytes(b.subrange(p + 17, p + 19)),
                flowinfo: spec_u32_from_le_bytes(b.subrange(p + 19, p + 23)),
                scope_id: spec_u32_from_le_bytes(b.subrange(p + 23, p + 27)),
            },
        )
    } else {
        None
    }
}

/// The `n` addresses that follow one another from position `p` of `b`, with the
/// position behind the last of them, if there are that many.
pub open spec fn parse_list(b: Seq<u8>, p: int, n: nat) -> Option<(Seq<NodeAddr>, int)>
    decreases n,
{
    if n == 0 {
        Some((Seq::<NodeAddr>::empty(), p))
    } else {
        match parse_list(b, p, (n - 1) as nat) {
            None => None,
            Some((front, q)) => match parse_addr(b, q) {
                None => None,
                Some(a) => Some((front.push(a), q + addr_size(a))),
            },
        }
    }
}

/// The message that the datagram `b` carries, if it carries one.
pub open spec fn decoding(b: Seq<u8>) -> Option<MessageView> {
    if b.len() < FIXED_LEN || b.len() > DATAGRAM_BUDGET {
        None
    } else {
        match tag_type(b[0]) {
            None => None,
            Some(kind) => match parse_list(b, 18, b[17] as nat) {
                None => None,
                Some((alive, p)) => if p >= b.len() {
                    None
                } else {
                    match parse_list(b, p + 1, b[p] as nat) {
                        None => None,
                        Some((dead, q)) => if q != b.len() {
                            None
                        } else {
                            Some(
                                MessageView {
                                    kind,
                                    sequence_number: spec_u64_from_le_bytes(b.subrange(1, 9)),
                                    epoch: spec_u64_from_le_bytes(b.subrange(9, 17)),
                                    alive,
                                    dead,
                                },
                            )
                        },
                    }
                },
            },
        }
    }
}

/// An address takes as many bytes as `addr_size` says, and starts with its family byte.
pub proof fn lemma_addr_encoding_len(a: NodeAddr)
    ensures
        addr_encoding(a).len() == addr_size(a),
        addr_encoding(a)[0] == (if a is V4 { 4u8 } else { 6u8 }),
{
    lemma_auto_spec_u16_to_from_le_bytes();
    lemma_auto_spec_u32_to_from_le_bytes();
    lemma_auto_spec_u128_to_from_le_bytes();
}

/// A list takes as many bytes as `list_size` says: at least 7 for each address.
pub proof fn lemma_list_encoding_len(s: Seq<NodeAddr>)
    ensures
        list_encoding(s).len() == list_size(s),
        7 * s.len() <= list_size(s) <= 27 * s.len(),
    decreases s.len(),
{
    if s.len() > 0 {
        lemma_list_encoding_len(s.drop_last());
        lemma_addr_encoding_len(s.last());
    }
}

/// Adding an address at the end of a list adds its bytes at the end.
pub proof fn lemma_list_push(s: Seq<NodeAddr>, a: NodeAddr)
    ensures
        list_encoding(s.push(a)) == list_encoding(s) + addr_encoding(a),
        list_size(s.push(a)) == list_size(s) + addr_size(a),
{
    assert(s.push(a).drop_last() =~= s);
}

/// The size of a message is the length of its datagram.
pub proof fn lemma_encoding_len(m: MessageView)
    ensures
        encoding(m).len() == m.size(),
{
    lemma_auto_spec_u64_to_from_le_bytes();
    lemma_list_encoding_len(m.alive);
    lemma_list_encoding_len(m.dead);
}

/// An address that is read at `p` stands there byte for byte.
pub proof fn lemma_parse_addr_sound(b: Seq<u8>, p: int)
    requires
        parse_addr(b, p) is Some,
    ensures
        0 <= p,
        p + addr_size(parse_addr(b, p).unwrap()) <= b.len(),
        b.subrange(p, p + addr_size(parse_addr(b, p).unwrap())) == addr_encoding(
            parse_addr(b, p).unwrap(),
        ),
{
    lemma_auto_spec_u16_to_from_le_bytes();
    lemma_auto_spec_u32_to_from_le_bytes();
    lemma_auto_spec_u128_to_from_le_bytes();
    let a = parse_addr(b, p).unwrap();
    match a {
        NodeAddr::V4 { ip, port } => {
            let x = b.subrange(p + 1, p + 5);
            let y = b.subrange(p + 5, p + 7);
            assert(spec_u32_to_le_bytes(spec_u32_from_le_bytes(x)) == x);
            assert(spec_u16_to_le_bytes(spec_u16_from_le_bytes(y)) == y);
            assert(b.subrange(p, p + 7) =~= seq![4u8] + x + y);
        },
        NodeAddr::V6 { ip6, port6, flowinfo, scope_id } => {
            let x = b.subrange(p + 1, p + 17);
            let y = b.subrange(p + 17, p + 19);
            let z = b.subrange(p + 19, p + 23);
            let w = b.subrange(p + 23, p + 27);
            assert(spec_u128_to_le_bytes(spec_u128_from_le_bytes(x)) == x);
            assert(spec_u16_to_le_bytes(spec_u16_from_le_bytes(y)) == y);
            assert(spec_u32_to_le_bytes(spec_u32_from_le_bytes(z)) == z);
            assert(spec_u32_to_le_bytes(spec_u32_from_le_bytes(w)) == w);
            assert(b.subrange(p, p + 27) =~= seq![6u8] + x + y + z + w);
        },
    }
}

/// Where the bytes of an address stand at `p`, that address is read there.
pub proof fn lemma_parse_addr_complete(b: Seq<u8>, p: int, a: NodeAddr)
    requires
        0 <= p,
        p + addr_size(a) <= b.len(),
        b.subrange(p, p + addr_size(a)) == addr_encoding(a),
    ensures
        parse_addr(b, p) == Some(a),
{
    lemma_auto_spec_u16_to_from_le_bytes();
    lemma_auto_spec_u32_to_from_le_bytes();
    lemma_auto_spec_u128_to_from_le_bytes();
    let e = addr_encoding(a);
    let n = addr_size(a) as int;
    assert(b[p] == b.subrange(p, p + n)[0]);
    match a {
        NodeAddr::V4 { ip, port } => {
            assert(e[0] == 4u8);
            assert(b.subrange(p + 1, p + 5) =~= b.subrange(p, p + n).subrange(1, 5));
            assert(b.subrange(p + 5, p + 7) =~= b.subrange(p, p + n).subrange(5, 7));
            assert(e.subrange(1, 5) =~= spec_u32_to_le_bytes(ip));
            assert(e.subrange(5, 7) =~= spec_u16_to_le_bytes(port));
        },
        NodeAddr::V6 { ip6, port6, flowinfo, scope_id } => {
            assert(e[0] == 6u8);
            assert(b.subrange(p + 1, p + 17) =~= b.subrange(p, p + n).subrange(1, 17));
            assert(b.subrange(p + 17, p + 19) =~= b.subrange(p, p + n).subrange(17, 19));
            assert(b.subrange(p + 19, p + 23) =~= b.subrange(p, p + n).subrange(19, 23));
            assert(b.subrange(p + 23, p + 27) =~= b.subrange(p, p + n).subrange(23, 27));
            assert(e.subrange(1, 17) =~= spec_u128_to_le_bytes(ip6));
            assert(e.subrange(17, 19) =~= spec_u16_to_le_bytes(port6));
            assert(e.subrange(19, 23) =~= spec_u32_to_le_bytes(flowinfo));
            assert(e.subrange(23, 27) =~= spec_u32_to_le_bytes(scope_id));
        },
    }
}

/// A list that is read from `p` has the asked number of addresses and stands
/// there byte for byte.
pub proof fn lemma_parse_list_sound(b: Seq<u8>, p: int, n: nat)
    requires
        0 <= p <= b.len(),
        parse_list(b, p, n) is Some,
    ensures
        parse_list(b, p, n).unwrap().0.len() == n,
        p <= parse_list(b, p, n).unwrap().1 <= b.len(),
        parse_list(b, p, n).unwrap().1 == p + list_size(parse_list(b, p, n).unwrap().0),
        b.subrange(p, parse_list(b, p, n).unwrap().1) == list_encoding(
            parse_list(b, p, n).unwrap().0,
        ),
    decreases n,
{
    if n == 0 {
        assert(b.subrange(p, p) =~= Seq::<u8>::empty());
    } else {
        lemma_parse_list_sound(b, p, (n - 1) as nat);
        let (front, q) = parse_list(b, p, (n - 1) as nat).unwrap();
        let a = parse_addr(b, q).unwrap();
        lemma_parse_addr_sound(b, q);
        lemma_list_push(front, a);
        assert(b.subrange(p, q + addr_size(a)) =~= b.subrange(p, q) + b.subrange(
            q,
            q + addr_size(a),
        ));
    }
}

/// Where the bytes of a list stand at `p`, that list is read there.
pub proof fn lemma_parse_list_complete(b: Seq<u8>, p: int, s: Seq<NodeAddr>)
    requires
        0 <= p,
        p + list_size(s) <= b.len(),
        b.subrange(p, p + list_size(s)) == list_encoding(s),
    ensures
        parse_list(b, p, s.len()) == Some((s, p + list_size(s))),
    decreases s.len(),
{
    if s.len() == 0 {
        assert(s =~= Seq::<NodeAddr>::empty());
    } else {
        let front = s.drop_last();
        let a = s.last();
        lemma_list_encoding_len(front);
        lemma_addr_encoding_len(a);
        let q: int = p + list_size(front) as int;
        let whole = b.subrange(p, p + list_size(s));
        assert(b.subrange(p, q) =~= whole.subrange(0, list_size(front) as int));
        assert(whole.subrange(0, list_size(front) as int) =~= list_encoding(front));
        assert(b.subrange(q, q + addr_size(a)) =~= whole.subrange(
            list_size(front) as int,
            list_size(s) as int,
        ));
        assert(whole.subrange(list_size(front) as int, list_size(s) as int) =~= addr_encoding(a));
        lemma_parse_list_complete(b, p, front);
        lemma_parse_addr_complete(b, q, a);
        assert(front.push(a) =~= s);
    }
}

/// Once a list cannot be read for some count, it cannot be read for a larger one.
pub proof fn lemma_parse_list_fails_on(b: Seq<u8>, p: int, n: nat, m: nat)
    requires
        parse_list(b, p, n) is None,
        n <= m,
    ensures
        parse_list(b, p, m) is None,
    decreases m,
{
    if n < m {
        lemma_parse_list_fails_on(b, p, n, (m - 1) as nat);
    }
}

/// A datagram that is read as a message is the encoding of that message, and
/// the message fits into a datagram.
pub proof fn lemma_decoding_sound(b: Seq<u8>)
    requires
        decoding(b) is Some,
    ensures
        decoding(b).unwrap().fits(),
        encoding(decoding(b).unwrap()) == b,
{
    lemma_auto_spec_u64_to_from_le_bytes();
    let m = decoding(b).unwrap();
    lemma_parse_list_sound(b, 18, b[17] as nat);
    let (alive, p) = parse_list(b, 18, b[17] as nat).unwrap();
    lemma_parse_list_sound(b, p + 1, b[p] as nat);
    let (dead, q) = parse_list(b, p + 1, b[p] as nat).unwrap();
    let x = b.subrange(1, 9);
    let y = b.subrange(9, 17);
    assert(spec_u64_to_le_bytes(spec_u64_from_le_bytes(x)) == x);
    assert(spec_u64_to_le_bytes(spec_u64_from_le_bytes(y)) == y);
    assert(b =~= seq![b[0]] + x + y + seq![b[17]] + b.subrange(18, p) + seq![b[p]] + b.subrange(
        p + 1,
        q,
    ));
}

/// The datagram of a message that fits is read as that message.
pub proof fn lemma_decoding_complete(m: MessageView)
    requires
        m.fits(),
    ensures
        decoding(encoding(m)) == Some(m),
{
    lemma_auto_spec_u64_to_from_le_bytes();
    lemma_list_encoding_len(m.alive);
    lemma_list_encoding_len(m.dead);
    lemma_encoding_len(m);
    let b = encoding(m);
    let p: int = 18 + list_size(m.alive) as int;
    let q: int = p + 1 + list_size(m.dead) as int;
    assert(b[0] == type_tag(m.kind));
    assert(b.subrange(1, 9) =~= spec_u64_to_le_bytes(m.sequence_number));
    assert(b.subrange(9, 17) =~= spec_u64_to_le_bytes(m.epoch));
    assert(b[17] == m.alive.len() as u8);
    assert(b.subrange(18, p) =~= list_encoding(m.alive));
    assert(b[p] == m.dead.len() as u8);
    assert(b.subrange(p + 1, q) =~= list_encoding(m.dead));
    lemma_parse_list_complete(b, 18, m.alive);
    lemma_parse_list_complete(b, p + 1, m.dead);
    assert(decoding(b).unwrap().alive == m.alive);
    assert(decoding(b).unwrap().dead == m.dead);
}

/// Two messages that fit and have the same datagram are the same message.
pub proof fn lemma_encoding_injective(m1: MessageView, m2: MessageView)
    requires
        m1.fits(),
        m2.fits(),
        encoding(m1) == encoding(m2),
    ensures
        m1 == m2,
{
    lemma_decoding_complete(m1);
    lemma_decoding_complete(m2);
}

} // verus!
