//! Protocol messages and their datagrams.

use vstd::prelude::*;
use vstd::bytes::{
    u128_from_le_bytes, u128_to_le_bytes, u16_from_le_bytes, u16_to_le_bytes, u32_from_le_bytes,
    u32_to_le_bytes, u64_from_le_bytes, u64_to_le_bytes,
};
use vstd::slice::{slice_subrange, slice_to_vec};
use crate::addr::NodeAddr;
use crate::wire::{
    addr_encoding, addr_size, decoding, encoding, lemma_decoding_complete, lemma_decoding_sound,
    lemma_encoding_len, lemma_list_encoding_len, lemma_list_push, lemma_parse_list_fails_on,
    lemma_parse_list_sound, list_encoding, list_size, parse_addr, parse_list, MessageType,
    MessageView, DATAGRAM_BUDGET, FIXED_LEN,
};

verus! {

/// Bytes of a datagram that are left for addresses.
pub const ADDRESS_BUDGET: usize = 45;

/// Whether `kept` is the longest run of leading addresses of `offered` that
/// takes at most `budget` bytes.
pub open spec fn longest_fitting_prefix(
    kept: Seq<NodeAddr>,
    offered: Seq<NodeAddr>,
    budget: int,
) -> bool {
    &&& kept.len() <= offered.len()
    &&& kept == offered.take(kept.len() as int)
    &&& list_size(kept) <= budget
    &&& kept.len() < offered.len() ==> list_size(kept) + addr_size(offered[kept.len() as int])
        > budget
}

/// The longest run of leading addresses of `offered` that takes at most `budget` bytes.
pub open spec fn fitting_prefix(offered: Seq<NodeAddr>, budget: int) -> Seq<NodeAddr> {
    choose|kept: Seq<NodeAddr>| longest_fitting_prefix(kept, offered, budget)
}

/// What a message of the given type, sequence number and epoch says once it was
/// offered `alive` and `dead` to carry: the alive addresses come first, and
/// the dead ones get the room that is left.
pub open spec fn rendered(
    kind: MessageType,
    sequence_number: u64,
    epoch: u64,
    alive: Seq<NodeAddr>,
    dead: Seq<NodeAddr>,
) -> MessageView {
    let kept = fitting_prefix(alive, ADDRESS_BUDGET as int);
    MessageView {
        kind,
        sequence_number,
        epoch,
        alive: kept,
        dead: fitting_prefix(dead, ADDRESS_BUDGET - list_size(kept)),
    }
}

/// A longer run of leading addresses takes at least as many bytes.
pub proof fn lemma_prefix_size_grows(s: Seq<NodeAddr>, i: int, j: int)
    requires
        0 <= i <= j <= s.len(),
    ensures
        list_size(s.take(i)) <= list_size(s.take(j)),
    decreases j - i,
{
    if i < j {
        lemma_prefix_size_grows(s, i, j - 1);
        assert(s.take(j).drop_last() =~= s.take(j - 1));
    }
}

/// There is only one longest run of leading addresses that fits.
pub proof fn lemma_fitting_prefix_unique(
    kept: Seq<NodeAddr>,
    offered: Seq<NodeAddr>,
    budget: int,
)
    requires
        longest_fitting_prefix(kept, offered, budget),
    ensures
        fitting_prefix(offered, budget) == kept,
{
    let other = fitting_prefix(offered, budget);
    assert(longest_fitting_prefix(other, offered, budget));
    let k = kept.len() as int;
    let o = other.len() as int;
    if k < o {
        lemma_prefix_size_grows(offered, k + 1, o);
        lemma_list_push(kept, offered[k]);
        assert(offered.take(k + 1) =~= kept.push(offered[k]));
    } else if o < k {
        lemma_prefix_size_grows(offered, o + 1, k);
        lemma_list_push(other, offered[o]);
        assert(offered.take(o + 1) =~= other.push(offered[o]));
    }
}

/// A list that fits as a whole is its own longest fitting run.
pub proof fn lemma_fitting_prefix_whole(offered: Seq<NodeAddr>, budget: int)
    requires
        list_size(offered) <= budget,
    ensures
        fitting_prefix(offered, budget) == offered,
{
    assert(offered.take(offered.len() as int) =~= offered);
    lemma_fitting_prefix_unique(offered, offered, budget);
}

/// A protocol message: its type, sequence number and epoch, and the alive and
/// dead addresses that ride along with it.
pub struct Message {
    kind: MessageType,
    sequence_number: u64,
    epoch: u64,
    alive: Vec<NodeAddr>,
    dead: Vec<NodeAddr>,
}

impl View for Message {
    type V = MessageView;

    closed spec fn view(&self) -> MessageView {
        MessageView {
            kind: self.kind,
            sequence_number: self.sequence_number,
            epoch: self.epoch,
            alive: self.alive@,
            dead: self.dead@,
        }
    }
}

/// Number of bytes that `a` takes in a datagram.
fn size_of_addr(a: &NodeAddr) -> (size: usize)
    ensures
        size == addr_size(*a),
{
    match a {
        NodeAddr::V4 { .. } => 7,
        NodeAddr::V6 { .. } => 27,
    }
}

/// Copies the longest run of leading addresses of `offered` that takes at most
/// `budget` bytes, and tells how many bytes it takes.
fn take_fitting(offered: &[NodeAddr], budget: usize) -> (kept: (Vec<NodeAddr>, usize))
    requires
        budget <= ADDRESS_BUDGET,
    ensures
        longest_fitting_prefix(kept.0@, offered@, budget as int),
        kept.1 == list_size(kept.0@),
{
    let mut kept: Vec<NodeAddr> = Vec::new();
    let mut used: usize = 0;
    let mut i: usize = 0;
    assert(offered@.take(0) =~= Seq::<NodeAddr>::empty());
    while i < offered.len()
        invariant
            i <= offered@.len(),
            budget <= ADDRESS_BUDGET,
            kept@ == offered@.take(i as int),
            used == list_size(kept@),
            used <= budget,
        decreases offered@.len() - i,
    {
        let size = size_of_addr(&offered[i]);
        if size > budget - used {
            return (kept, used);
        }
        proof {
            lemma_list_push(kept@, offered@[i as int]);
            assert(offered@.take(i + 1) =~= offered@.take(i as int).push(offered@[i as int]));
        }
        kept.push(offered[i]);
        used += size;
        i += 1;
    }
    (kept, used)
}

/// Appends the bytes of `a` to `out`.
fn write_addr(out: &mut Vec<u8>, a: &NodeAddr)
    ensures
        final(out)@ == old(out)@ + addr_encoding(*a),
{
    match a {
        NodeAddr::V4 { ip, port } => {
            let mut ip_bytes = u32_to_le_bytes(*ip);
            let mut port_bytes = u16_to_le_bytes(*port);
            out.push(4);
            out.append(&mut ip_bytes);
            out.append(&mut port_bytes);
            assert(out@ =~= old(out)@ + addr_encoding(*a));
        },
        NodeAddr::V6 { ip6, port6, flowinfo, scope_id } => {
            let mut ip_bytes = u128_to_le_bytes(*ip6);
            let mut port_bytes = u16_to_le_bytes(*port6);
            let mut flow_bytes = u32_to_le_bytes(*flowinfo);
            let mut scope_bytes = u32_to_le_bytes(*scope_id);
            out.push(6);
            out.append(&mut ip_bytes);
            out.append(&mut port_bytes);
            out.append(&mut flow_bytes);
            out.append(&mut scope_bytes);
            assert(out@ =~= old(out)@ + addr_encoding(*a));
        },
    }
}

/// Appends the bytes of every address of `list` to `out`, in order.
fn write_list(out: &mut Vec<u8>, list: &Vec<NodeAddr>)
    ensures
        final(out)@ == old(out)@ + list_encoding(list@),
{
    let mut i: usize = 0;
    assert(list@.take(0) =~= Seq::<NodeAddr>::empty());
    assert(out@ =~= old(out)@ + list_encoding(list@.take(0)));
    while i < list.len()
        invariant
            i <= list@.len(),
            out@ == old(out)@ + list_encoding(list@.take(i as int)),
        decreases list@.len() - i,
    {
        proof {
            lemma_list_push(list@.take(i as int), list@[i as int]);
            assert(list@.take(i + 1) =~= list@.take(i as int).push(list@[i as int]));
        }
        let ghost before = out@;
        write_addr(out, &list[i]);
        assert(out@ =~= old(out)@ + list_encoding(list@.take(i + 1))) by {
            assert(before + addr_encoding(list@[i as int]) =~= old(out)@ + (list_encoding(
                list@.take(i as int),
            ) + addr_encoding(list@[i as int])));
        }
        i += 1;
    }
    assert(list@.take(i as int) =~= list@);
}

/// Reads the address that starts at position `p` of `bytes`.
fn read_addr(bytes: &[u8], p: usize) -> (found: Option<NodeAddr>)
    requires
        bytes@.len() <= DATAGRAM_BUDGET,
    ensures
        found == parse_addr(bytes@, p as int),
{
    if p >= bytes.len() {
        return None;
    }
    let left = bytes.len() - p;
    if left >= 7 && bytes[p] == 4 {
        let ip = u32_from_le_bytes(slice_subrange(bytes, p + 1, p + 5));
        let port = u16_from_le_bytes(slice_subrange(bytes, p + 5, p + 7));
        Some(NodeAddr::V4 { ip, port })
    } else if left >= 27 && bytes[p] == 6 {
        let ip6 = u128_from_le_bytes(slice_subrange(bytes, p + 1, p + 17));
        let port6 = u16_from_le_bytes(slice_subrange(bytes, p + 17, p + 19));
        let flowinfo = u32_from_le_bytes(slice_subrange(bytes, p + 19, p + 23));
        let scope_id = u32_from_le_bytes(slice_subrange(bytes, p + 23, p + 27));
        Some(NodeAddr::V6 { ip6, port6, flowinfo, scope_id })
    } else {
        None
    }
}

/// Reads the `n` addresses that follow one another from position `p` of `bytes`.
fn read_list(bytes: &[u8], p: usize, n: u8) -> (found: Option<(Vec<NodeAddr>, usize)>)
    requires
        p <= bytes@.len() <= DATAGRAM_BUDGET,
    ensures
        match found {
            Some((list, end)) => parse_list(bytes@, p as int, n as nat) == Some((list@, end as int)),
            None => parse_list(bytes@, p as int, n as nat) is None,
        },
{
    let mut list: Vec<NodeAddr> = Vec::new();
    let mut end: usize = p;
    let mut i: u8 = 0;
    while i < n
        invariant
            i <= n,
            p <= bytes@.len() <= DATAGRAM_BUDGET,
            parse_list(bytes@, p as int, i as nat) == Some((list@, end as int)),
            p <= end <= bytes@.len(),
        decreases n - i,
    {
        proof {
            assert(parse_list(bytes@, p as int, (i + 1) as nat) == match parse_addr(
                bytes@,
                end as int,
            ) {
                None => None,
                Some(a) => Some((list@.push(a), end + addr_size(a))),
            });
        }
        match read_addr(bytes, end) {
            None => {
                proof {
                    lemma_parse_list_fails_on(bytes@, p as int, (i + 1) as nat, n as nat);
                }
                return None;
            },
            Some(a) => {
                proof {
                    lemma_parse_list_sound(bytes@, p as int, (i + 1) as nat);
                }
                end += size_of_addr(&a);
                list.push(a);
            },
        }
        i += 1;
    }
    Some((list, end))
}

impl Message {
    /// A message can be sent if it fits into one datagram.
    pub open spec fn wf(&self) -> bool {
        self@.fits()
    }

    /// A message of the given type, sequence number and epoch that carries no address.
    pub fn create(kind: MessageType, sequence_number: u64, epoch: u64) -> (message: Message)
        ensures
            message.wf(),
            message@ == (MessageView {
                kind,
                sequence_number,
                epoch,
                alive: Seq::<NodeAddr>::empty(),
                dead: Seq::<NodeAddr>::empty(),
            }),
    {
        Message { kind, sequence_number, epoch, alive: Vec::new(), dead: Vec::new() }
    }

    /// Sets the addresses that ride along: as many leading addresses of `alive`
    /// as a datagram has room for, then as many leading addresses of `dead` as
    /// still fit behind them. The rest is left out.
    pub fn with_members(&mut self, alive: &[NodeAddr], dead: &[NodeAddr])
        ensures
            final(self).wf(),
            final(self)@.kind == old(self)@.kind,
            final(self)@.sequence_number == old(self)@.sequence_number,
            final(self)@.epoch == old(self)@.epoch,
            longest_fitting_prefix(final(self)@.alive, alive@, ADDRESS_BUDGET as int),
            longest_fitting_prefix(
                final(self)@.dead,
                dead@,
                ADDRESS_BUDGET - list_size(final(self)@.alive),
            ),
            final(self)@ == rendered(
                old(self)@.kind,
                old(self)@.sequence_number,
                old(self)@.epoch,
                alive@,
                dead@,
            ),
    {
        let (kept_alive, used) = take_fitting(alive, ADDRESS_BUDGET);
        let (kept_dead, _) = take_fitting(dead, ADDRESS_BUDGET - used);
        proof {
            lemma_fitting_prefix_unique(kept_alive@, alive@, ADDRESS_BUDGET as int);
            lemma_fitting_prefix_unique(kept_dead@, dead@, ADDRESS_BUDGET - used);
        }
        self.alive = kept_alive;
        self.dead = kept_dead;
    }

    /// The datagram that carries this message.
    pub fn into_inner(self) -> (bytes: Vec<u8>)
        requires
            self.wf(),
        ensures
            bytes@ == encoding(self@),
            bytes@.len() == self@.size(),
            bytes@.len() <= DATAGRAM_BUDGET,
    {
        proof {
            lemma_list_encoding_len(self.alive@);
            lemma_list_encoding_len(self.dead@);
            lemma_encoding_len(self@);
        }
        let mut bytes: Vec<u8> = Vec::with_capacity(DATAGRAM_BUDGET);
        let tag: u8 = match self.kind {
            MessageType::Ping => 0,
            MessageType::PingAck => 1,
            MessageType::PingIndirect => 2,
        };
        bytes.push(tag);
        let mut sequence_bytes = u64_to_le_bytes(self.sequence_number);
        let mut epoch_bytes = u64_to_le_bytes(self.epoch);
        bytes.append(&mut sequence_bytes);
        bytes.append(&mut epoch_bytes);
        bytes.push(self.alive.len() as u8);
        write_list(&mut bytes, &self.alive);
        bytes.push(self.dead.len() as u8);
        write_list(&mut bytes, &self.dead);
        assert(bytes@ =~= encoding(self@));
        bytes
    }

    /// Reads the message that the first `count` bytes of `bytes` carry.
    ///
    /// The result is `None` when `count` exceeds the length of `bytes`, and when
    /// those bytes are not the datagram of any message.
    pub fn from_bytes(bytes: &[u8], count: usize) -> (message: Option<Message>)
        ensures
            count > bytes@.len() ==> message is None,
            message is Some ==> message.unwrap().wf(),
            count <= bytes@.len() ==> match message {
                Some(m) => {
                    &&& decoding(bytes@.take(count as int)) == Some(m@)
                    &&& encoding(m@) == bytes@.take(count as int)
                },
                None => {
                    &&& decoding(bytes@.take(count as int)) is None
                    &&& forall|v: MessageView|
                        v.fits() ==> #[trigger] encoding(v) != bytes@.take(count as int)
                },
            },
    {
        if count > bytes.len() {
            return None;
        }
        let data = slice_subrange(bytes, 0, count);
        proof {
            assert(data@ == bytes@.take(count as int));
            if decoding(data@) is Some {
                lemma_decoding_sound(data@);
            }
            assert forall|v: MessageView| v.fits() && decoding(data@) is None implies #[trigger] encoding(
                v,
            ) != data@ by {
                lemma_decoding_complete(v);
            }
        }
        if count < FIXED_LEN || count > DATAGRAM_BUDGET {
            return None;
        }
        let kind = match data[0] {
            0 => MessageType::Ping,
            1 => MessageType::PingAck,
            2 => MessageType::PingIndirect,
            _ => {
                return None;
            },
        };
        let sequence_number = u64_from_le_bytes(slice_subrange(data, 1, 9));
        let epoch = u64_from_le_bytes(slice_subrange(data, 9, 17));
        let (alive, p) = match read_list(data, 18, data[17]) {
            None => {
                return None;
            },
            Some(found) => found,
        };
        proof {
            lemma_parse_list_sound(data@, 18, data@[17] as nat);
        }
        if p >= count {
            return None;
        }
        let (dead, q) = match read_list(data, p + 1, data[p]) {
            None => {
                return None;
            },
            Some(found) => found,
        };
        if q != count {
            return None;
        }
        Some(Message { kind, sequence_number, epoch, alive, dead })
    }

    /// The type of the message.
    pub fn get_type(&self) -> (kind: MessageType)
        ensures
            kind == self@.kind,
    {
        self.kind
    }

    /// The sequence number of the message.
    pub fn get_sequence_number(&self) -> (sequence_number: u64)
        ensures
            sequence_number == self@.sequence_number,
    {
        self.sequence_number
    }

    /// The epoch in which the message was sent.
    pub fn get_epoch(&self) -> (epoch: u64)
        ensures
            epoch == self@.epoch,
    {
        self.epoch
    }

    /// The first of the alive addresses that ride along, if there is any.
    pub fn first_alive_member(&self) -> (first: Option<NodeAddr>)
        ensures
            first == (if self@.alive.len() > 0 {
                Some(self@.alive[0])
            } else {
                None
            }),
    {
        if self.alive.len() > 0 {
            Some(self.alive[0])
        } else {
            None
        }
    }

    /// The alive addresses that ride along with the message.
    pub fn get_alive_members(&self) -> (alive: Vec<NodeAddr>)
        ensures
            alive@ == self@.alive,
    {
        slice_to_vec(self.alive.as_slice())
    }

    /// The dead addresses that ride along with the message.
    pub fn get_dead_members(&self) -> (dead: Vec<NodeAddr>)
        ensures
            dead@ == self@.dead,
    {
        slice_to_vec(self.dead.as_slice())
    }
}

} // verus!
