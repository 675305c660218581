//! The failure detector of one node: it takes in what arrives, says what to
//! send, and keeps track of the probes that await their acknowledgement.

use vstd::prelude::*;
use vstd::slice::slice_to_vec;
use std::collections::VecDeque;
use crate::addr::NodeAddr;
use crate::config::ProtocolConfig;
use crate::gossip_model::{
    acknowledges, asks_to_probe, is_first_acknowledged, period_over, relay_target, relays,
    reported_alive, timed_out, GossipState, LetterView,
};
use crate::gossip_lemmas::{
    lemma_advance_epoch, lemma_expire, lemma_handle_ack, lemma_handle_indirect_ping,
    lemma_handle_letter, lemma_handle_ping, lemma_handle_timeout_ack, lemma_handle_writable,
    lemma_join, lemma_tick, lemma_update_members_from_letter,
};
use crate::message::Message;
use crate::registry::MemberRegistry;
use crate::request::{Ack, Header, Request};
use crate::seq_lemmas::without;
use crate::wire::MessageType;

verus! {

/// A message to send, with the node it is for.
pub struct OutgoingLetter {
    pub target: NodeAddr,
    pub message: Message,
}

/// A message that arrived, with the node it came from.
pub struct IncomingLetter {
    pub sender: NodeAddr,
    pub message: Message,
}

impl View for OutgoingLetter {
    type V = LetterView;

    open spec fn view(&self) -> LetterView {
        LetterView { target: self.target, message: self.message@ }
    }
}

/// What the letters say and whom they are for, in order.
pub open spec fn letter_views(letters: Seq<OutgoingLetter>) -> Seq<LetterView> {
    Seq::new(letters.len(), |i: int| letters[i]@)
}

/// What the socket reports to the failure detector.
pub enum ProtocolEvent {
    /// The socket is ready: a datagram can be read from it, or written to it, or both.
    Ready { readable: bool, writable: bool },
    /// The datagram that was read carried this message.
    Received(IncomingLetter),
}

/// What the failure detector wants done with the socket.
pub enum Reaction {
    /// Read a datagram, and report the message it carries.
    Receive,
    /// Send these letters.
    Send(Vec<OutgoingLetter>),
    /// Leave the socket alone.
    Nothing,
}

/// The failure detector of one node.
pub struct Gossip {
    config: ProtocolConfig,
    registry: MemberRegistry,
    epoch: u64,
    requests: VecDeque<Request>,
    acks: Vec<Ack>,
    last_epoch_time: u64,
}

impl View for Gossip {
    type V = GossipState;

    closed spec fn view(&self) -> GossipState {
        GossipState {
            config: self.config,
            registry: self.registry@,
            epoch: self.epoch,
            requests: self.requests@,
            acks: self.acks@,
            last_epoch_time: self.last_epoch_time,
        }
    }
}

impl Gossip {
    /// What holds of a node at all times.
    pub open spec fn wf(&self) -> bool {
        self@.wf()
    }

    /// The failure detector of the node at `bind_address`, which knows no peer yet.
    pub fn new(bind_address: NodeAddr, config: ProtocolConfig) -> (gossip: Gossip)
        ensures
            gossip.wf(),
            gossip@ == GossipState::initial(bind_address, config),
            gossip@.excludes_self(),
    {
        Gossip {
            config,
            registry: MemberRegistry::new(bind_address),
            epoch: 0,
            requests: VecDeque::new(),
            acks: Vec::new(),
            last_epoch_time: 0,
        }
    }

    /// The configuration the node runs with.
    pub fn config(&self) -> (config: ProtocolConfig)
        ensures
            config == self@.config,
    {
        self.config
    }

    /// Who is alive, who is dead, whom to probe next.
    pub fn registry(&self) -> (registry: &MemberRegistry)
        ensures
            registry@ == self@.registry,
    {
        &self.registry
    }

    /// The protocol period the node is in.
    pub fn epoch(&self) -> (epoch: u64)
        ensures
            epoch == self@.epoch,
    {
        self.epoch
    }

    /// The time, in milliseconds, at which the current protocol period began.
    pub fn last_epoch_time(&self) -> (time: u64)
        ensures
            time == self@.last_epoch_time,
    {
        self.last_epoch_time
    }

    /// The outbound operations that wait for the socket, next one first.
    pub fn requests(&self) -> (requests: Vec<Request>)
        ensures
            requests@ == self@.requests,
    {
        let mut requests: Vec<Request> = Vec::new();
        let mut i: usize = 0;
        while i < self.requests.len()
            invariant
                i <= self.requests@.len(),
                requests@ == self.requests@.take(i as int),
            decreases self.requests@.len() - i,
        {
            requests.push(self.requests[i]);
            assert(self.requests@.take(i + 1) =~= self.requests@.take(i as int).push(
                self.requests@[i as int],
            ));
            i += 1;
        }
        assert(self.requests@.take(i as int) =~= self.requests@);
        requests
    }

    /// The probes that were sent and are not acknowledged yet.
    pub fn acks(&self) -> (acks: Vec<Ack>)
        ensures
            acks@ == self@.acks,
    {
        slice_to_vec(self.acks.as_slice())
    }

    /// The node and the peers it believes alive.
    pub fn get_members(&self) -> (members: Vec<NodeAddr>)
        ensures
            members@ == self@.members(),
    {
        let mut members: Vec<NodeAddr> = Vec::new();
        members.push(self.registry.myself());
        let mut alive = self.registry.members();
        members.append(&mut alive);
        members
    }

    /// Puts a direct probe of the next peer in front of the queue, if there is a peer.
    fn probe_next(&mut self)
        requires
            old(self).wf(),
            old(self)@.registry.alive.len() > 0 ==> old(self)@.registry.sequence_number < u64::MAX,
        ensures
            final(self).wf(),
            old(self)@.same_node(final(self)@),
            final(self)@ == old(self)@.probe_next(),
    {
        if let Some(target) = self.registry.get_next_member() {
            let sequence_number = self.registry.get_next_sequence_number();
            let ping = Request::Ping(Header { target, epoch: self.epoch, sequence_number });
            self.requests.push_front(ping);
        }
    }

    /// Joins the cluster through `member` at `now`: the member becomes alive to
    /// this node, and a probe of a peer is put in front of the queue.
    pub fn join(&mut self, member: NodeAddr, now: u64)
        requires
            old(self).wf(),
            member != old(self)@.registry.myself,
            old(self)@.registry.sequence_number < u64::MAX,
        ensures
            final(self).wf(),
            old(self)@.same_node(final(self)@),
            final(self)@ == old(self)@.join(member, now),
            final(self)@.registry.alive.contains(member),
            final(self)@.requests.len() == old(self)@.requests.len() + 1,
            final(self)@.requests[0] is Ping,
            old(self)@.excludes_self() ==> final(self)@.excludes_self(),
    {
        proof {
            lemma_join(self@, member, now);
        }
        let mut alive: Vec<NodeAddr> = Vec::new();
        alive.push(member);
        let dead: Vec<NodeAddr> = Vec::new();
        proof {
            assert(alive@ =~= seq![member]);
            assert(dead@ =~= Seq::<NodeAddr>::empty());
            assert(alive@[0] == member);
            assert(alive@.contains(member));
        }
        self.registry.update_members(alive.as_slice(), dead.as_slice());
        self.last_epoch_time = now;
        self.probe_next();
    }

    /// Begins a new epoch: the next peer is to be probed before anything else.
    pub fn advance_epoch(&mut self)
        requires
            old(self).wf(),
            old(self)@.epoch < u64::MAX,
            old(self)@.registry.alive.len() > 0 ==> old(self)@.registry.sequence_number < u64::MAX,
        ensures
            final(self).wf(),
            old(self)@.same_node(final(self)@),
            final(self)@ == old(self)@.advance_epoch(),
            final(self)@.epoch == old(self)@.epoch + 1,
            old(self)@.excludes_self() ==> final(self)@.excludes_self(),
    {
        proof {
            lemma_advance_epoch(self@);
        }
        self.probe_next();
        self.epoch += 1;
    }

    /// Escalates the probe `ack`, which went unanswered for too long.
    pub fn handle_timeout_ack(&mut self, ack: Ack)
        requires
            old(self).wf(),
            ack.request.is_probe(),
        ensures
            final(self).wf(),
            old(self)@.same_node(final(self)@),
            final(self)@ == old(self)@.handle_timeout_ack(ack),
            old(self)@.excludes_self() && ack.request.header().target != old(self)@.registry.myself
                ==> final(self)@.excludes_self(),
    {
        proof {
            lemma_handle_timeout_ack(self@, ack);
        }
        match ack.request {
            Request::Ping(header) => {
                self.requests.push_back(Request::PingIndirect(header));
            },
            Request::PingIndirect(header) => {
                self.kill(header.target);
            },
            Request::PingProxy(header, _) => {
                self.kill(header.target);
            },
            _ => {},
        }
    }

    /// Declares `member` dead.
    fn kill(&mut self, member: NodeAddr)
        requires
            old(self).wf(),
        ensures
            final(self).wf(),
            old(self)@.same_node(final(self)@),
            final(self)@ == (GossipState {
                registry: old(self)@.registry.kill_member(member),
                ..old(self)@
            }),
    {
        let mut members: Vec<NodeAddr> = Vec::new();
        members.push(member);
        proof {
            let list = members@;
            assert(list.drop_last() =~= Seq::<NodeAddr>::empty());
            assert(list.last() == member);
            assert(self@.registry.kill_members(list) == self@.registry.kill_members(
                list.drop_last(),
            ).kill_member(member));
        }
        self.registry.kill_members(members.as_slice());
    }

    /// Whether the probe `ack` has waited long enough at `now`.
    fn is_timed_out(&self, ack: &Ack, now: u64) -> (late: bool)
        ensures
            late == timed_out(*ack, now, self@.config),
    {
        now >= ack.request_time && now - ack.request_time >= (self.config.ack_timeout as u64)
            * 1000
    }

    /// Looks at every unanswered probe: one that has waited long enough at
    /// `now` escalates, the others go on waiting.
    pub fn expire_acks(&mut self, now: u64)
        requires
            old(self).wf(),
        ensures
            final(self).wf(),
            old(self)@.same_node(final(self)@),
            final(self)@ == old(self)@.expire_acks(now),
            old(self)@.excludes_self() ==> final(self)@.excludes_self(),
            forall|i: int|
                0 <= i < final(self)@.acks.len() ==> !timed_out(
                    #[trigger] final(self)@.acks[i],
                    now,
                    old(self)@.config,
                ),
    {
        proof {
            lemma_expire(GossipState { acks: Seq::<Ack>::empty(), ..self@ }, self@.acks, now);
        }
        let mut retained: Vec<Ack> = Vec::new();
        let ghost base = GossipState { acks: Seq::<Ack>::empty(), ..self@ };
        let ghost pending = self@.acks;
        let mut i: usize = 0;
        assert(pending.take(0) =~= Seq::<Ack>::empty());
        while i < self.acks.len()
            invariant
                i <= pending.len(),
                self.wf(),
                self@.acks == pending,
                self@.config == base.config,
                (GossipState { acks: retained@, ..self@ }) == base.expire(
                    pending.take(i as int),
                    now,
                ),
                forall|k: int| 0 <= k < retained@.len() ==> (#[trigger] retained@[k]).request.is_probe(),
            decreases pending.len() - i,
        {
            let ack = self.acks[i];
            proof {
                let next = pending.take(i + 1);
                assert(next.drop_last() =~= pending.take(i as int));
                assert(next.last() == ack);
            }
            if self.is_timed_out(&ack, now) {
                self.handle_timeout_ack(ack);
            } else {
                retained.push(ack);
            }
            i += 1;
        }
        assert(pending.take(i as int) =~= pending);
        self.acks = retained;
    }

    /// Whether the protocol period is over at `now`.
    pub fn is_period_over(&self, now: u64) -> (over: bool)
        ensures
            over == period_over(self@.last_epoch_time, now, self@.config),
    {
        now >= self.last_epoch_time && (now - self.last_epoch_time) as u128 >= (
        self.config.protocol_period as u128) * 1000
    }

    /// Moves time on to `now`: probes that timed out escalate, and if the
    /// protocol period is over, a new epoch begins at `now`.
    pub fn tick(&mut self, now: u64)
        requires
            old(self).wf(),
            period_over(old(self)@.last_epoch_time, now, old(self)@.config) ==> old(self)@.epoch
                < u64::MAX && old(self)@.registry.sequence_number < u64::MAX,
        ensures
            final(self).wf(),
            old(self)@.same_node(final(self)@),
            final(self)@ == old(self)@.tick(now),
            old(self)@.excludes_self() ==> final(self)@.excludes_self(),
            final(self)@.epoch == old(self)@.epoch + (if period_over(
                old(self)@.last_epoch_time,
                now,
                old(self)@.config,
            ) {
                1int
            } else {
                0int
            }),
    {
        let over = self.is_period_over(now);
        proof {
            lemma_tick(self@, now);
            lemma_expire(GossipState { acks: Seq::<Ack>::empty(), ..self@ }, self@.acks, now);
        }
        self.expire_acks(now);
        if over {
            self.advance_epoch();
            self.last_epoch_time = now;
        }
    }

    /// Takes in what the letter reports of alive and dead peers.
    pub fn update_members_from_letter(&mut self, letter: &IncomingLetter)
        requires
            old(self).wf(),
        ensures
            final(self).wf(),
            old(self)@.same_node(final(self)@),
            final(self)@ == old(self)@.update_members_from_letter(
                letter.sender,
                letter.message@,
            ),
            old(self)@.excludes_self() ==> final(self)@.excludes_self(),
            letter.sender != old(self)@.registry.myself ==> final(self)@.registry.alive.contains(
                letter.sender,
            ),
    {
        proof {
            lemma_update_members_from_letter(self@, letter.sender, letter.message@);
        }
        let carried = letter.message.get_alive_members();
        let relayed = matches!(letter.message.get_type(), MessageType::PingIndirect)
            && carried.len() > 0;
        let mut alive: Vec<NodeAddr> = Vec::new();
        let mut i: usize = if relayed {
            1
        } else {
            0
        };
        let ghost start = i as int;
        assert(carried@.subrange(start, start) =~= Seq::<NodeAddr>::empty());
        while i < carried.len()
            invariant
                0 <= start <= i <= carried@.len(),
                alive@ == carried@.subrange(start, i as int),
            decreases carried@.len() - i,
        {
            alive.push(carried[i]);
            assert(carried@.subrange(start, i + 1) =~= carried@.subrange(start, i as int).push(
                carried@[i as int],
            ));
            i += 1;
        }
        alive.push(letter.sender);
        let dead = letter.message.get_dead_members();
        proof {
            assert(carried@.subrange(0, carried@.len() as int) =~= carried@);
            assert(alive@ == reported_alive(letter.sender, letter.message@));
        }
        self.registry.update_members(alive.as_slice(), dead.as_slice());
    }

    /// Puts the acknowledgement of the probe that came with `letter` at the end
    /// of the queue.
    pub fn handle_ping(&mut self, letter: &IncomingLetter)
        requires
            old(self).wf(),
        ensures
            final(self).wf(),
            old(self)@.same_node(final(self)@),
            final(self)@ == old(self)@.handle_ping(letter.sender, letter.message@),
            old(self)@.excludes_self() ==> final(self)@.excludes_self(),
    {
        proof {
            lemma_handle_ping(self@, letter.sender, letter.message@);
        }
        self.requests.push_back(
            Request::Ack(
                Header {
                    target: letter.sender,
                    epoch: letter.message.get_epoch(),
                    sequence_number: letter.message.get_sequence_number(),
                },
            ),
        );
    }

    /// Puts the probe that `letter` asks for at the end of the queue: its target
    /// is the first alive address of the letter. A letter that names no target
    /// is passed over.
    pub fn handle_indirect_ping(&mut self, letter: &IncomingLetter)
        requires
            old(self).wf(),
        ensures
            final(self).wf(),
            old(self)@.same_node(final(self)@),
            final(self)@ == old(self)@.handle_indirect_ping(letter.sender, letter.message@),
            old(self)@.excludes_self() && relay_target(letter.message@) != Some(
                old(self)@.registry.myself,
            ) ==> final(self)@.excludes_self(),
    {
        proof {
            lemma_handle_indirect_ping(self@, letter.sender, letter.message@);
        }
        if let Some(target) = letter.message.first_alive_member() {
            self.requests.push_back(
                Request::PingProxy(
                    Header {
                        target,
                        epoch: letter.message.get_epoch(),
                        sequence_number: letter.message.get_sequence_number(),
                    },
                    letter.sender,
                ),
            );
        }
    }

    /// Whether the acknowledgement `letter` answers the probe `ack`.
    fn answers(ack: &Ack, letter: &IncomingLetter) -> (answered: bool)
        ensures
            answered == acknowledges(*ack, letter.sender, letter.message@),
    {
        let sequence_number = letter.message.get_sequence_number();
        match ack.request {
            Request::Ping(header) => letter.sender == header.target && sequence_number
                == header.sequence_number,
            Request::PingIndirect(header) => match letter.message.first_alive_member() {
                Some(first) => first == header.target && sequence_number == header.sequence_number,
                None => false,
            },
            Request::PingProxy(header, _) => letter.sender == header.target && sequence_number
                == header.sequence_number,
            _ => false,
        }
    }

    /// Discharges the first probe that the acknowledgement `letter` answers. If
    /// that probe was made for another node, the acknowledgement for that node
    /// is put at the end of the queue.
    pub fn handle_ack(&mut self, letter: &IncomingLetter)
        requires
            old(self).wf(),
        ensures
            final(self).wf(),
            old(self)@.same_node(final(self)@),
            final(self)@ == old(self)@.handle_ack(letter.sender, letter.message@),
            forall|i: int|
                is_first_acknowledged(old(self)@.acks, i, letter.sender, letter.message@) ==> final(self)@ == old(self)@.discharge(i, letter.sender, letter.message@),
            (forall|i: int|
                0 <= i < old(self)@.acks.len() ==> !acknowledges(
                    #[trigger] old(self)@.acks[i],
                    letter.sender,
                    letter.message@,
                )) ==> final(self)@ == old(self)@,
            old(self)@.excludes_self() ==> final(self)@.excludes_self(),
    {
        proof {
            lemma_handle_ack(self@, letter.sender, letter.message@);
        }
        let mut i: usize = 0;
        while i < self.acks.len()
            invariant
                i <= self.acks@.len(),
                self.wf(),
                *self == *old(self),
                forall|k: int|
                    0 <= k < i ==> !acknowledges(
                        #[trigger] self@.acks[k],
                        letter.sender,
                        letter.message@,
                    ),
            decreases self.acks@.len() - i,
        {
            if Self::answers(&self.acks[i], letter) {
                assert(is_first_acknowledged(
                    self@.acks,
                    i as int,
                    letter.sender,
                    letter.message@,
                ));
                let ack = self.acks.remove(i);
                if let Request::PingProxy(_, reply_to) = ack.request {
                    self.requests.push_back(
                        Request::AckIndirect(
                            Header {
                                target: reply_to,
                                epoch: letter.message.get_epoch(),
                                sequence_number: letter.message.get_sequence_number(),
                            },
                            letter.sender,
                        ),
                    );
                }
                return ;
            }
            i += 1;
        }
    }

    /// Takes in the letter that arrived: first what it reports of alive and dead
    /// peers, then what its type asks for.
    pub fn handle_letter(&mut self, letter: &IncomingLetter)
        requires
            old(self).wf(),
        ensures
            final(self).wf(),
            old(self)@.same_node(final(self)@),
            final(self)@ == old(self)@.handle_letter(letter.sender, letter.message@),
            old(self)@.excludes_self() && !asks_to_probe(
                letter.message@,
                old(self)@.registry.myself,
            ) ==> final(self)@.excludes_self(),
    {
        proof {
            lemma_handle_letter(self@, letter.sender, letter.message@);
        }
        self.update_members_from_letter(letter);
        match letter.message.get_type() {
            MessageType::Ping => self.handle_ping(letter),
            MessageType::PingAck => self.handle_ack(letter),
            MessageType::PingIndirect => self.handle_indirect_ping(letter),
        }
    }

    /// The message of type `kind` for the request header `header`, offered
    /// `alive` and the recently dead to carry.
    fn message_for(&self, kind: MessageType, header: &Header, alive: &Vec<NodeAddr>) -> (message:
        Message)
        ensures
            message.wf(),
            message@ == self@.message_for(kind, *header, alive@),
    {
        let mut message = Message::create(kind, header.sequence_number, header.epoch);
        let dead = self.registry.dead_members();
        message.with_members(alive.as_slice(), dead.as_slice());
        message
    }

    /// `first` followed by `rest`.
    fn led_by(first: NodeAddr, rest: &Vec<NodeAddr>) -> (list: Vec<NodeAddr>)
        ensures
            list@ == seq![first] + rest@,
    {
        let mut list: Vec<NodeAddr> = Vec::new();
        list.push(first);
        let mut i: usize = 0;
        assert(list@ =~= seq![first] + rest@.take(0));
        while i < rest.len()
            invariant
                i <= rest@.len(),
                list@ == seq![first] + rest@.take(i as int),
            decreases rest@.len() - i,
        {
            list.push(rest[i]);
            assert(list@ =~= seq![first] + rest@.take(i + 1));
            i += 1;
        }
        assert(rest@.take(i as int) =~= rest@);
        list
    }

    /// The letters that carry out `request`.
    fn letters_for(&self, request: &Request) -> (letters: Vec<OutgoingLetter>)
        requires
            self.wf(),
        ensures
            letter_views(letters@) == self@.letters(*request),
            forall|i: int| 0 <= i < letters@.len() ==> (#[trigger] letters@[i]).message.wf(),
    {
        let mut letters: Vec<OutgoingLetter> = Vec::new();
        match request {
            Request::Ping(header) => {
                let alive = self.registry.members_except(&header.target);
                let message = self.message_for(MessageType::Ping, header, &alive);
                letters.push(OutgoingLetter { target: header.target, message });
                assert(letter_views(letters@) =~= self@.letters(*request));
            },
            Request::PingIndirect(header) => {
                let others = self.registry.members_except(&header.target);
                let alive = Self::led_by(header.target, &others);
                let limit = self.config.num_indirect as usize;
                let count = if limit < others.len() {
                    limit
                } else {
                    others.len()
                };
                let ghost to = relays(
                    self@.registry.alive,
                    header.target,
                    self@.config.num_indirect as nat,
                );
                assert(to =~= others@.take(count as int));
                let mut i: usize = 0;
                while i < count
                    invariant
                        i <= count <= others@.len(),
                        self.wf(),
                        alive@ == seq![header.target] + without(
                            self@.registry.alive,
                            header.target,
                        ),
                        to == others@.take(count as int),
                        to == relays(
                            self@.registry.alive,
                            header.target,
                            self@.config.num_indirect as nat,
                        ),
                        letters@.len() == i,
                        forall|k: int|
                            0 <= k < i ==> (#[trigger] letters@[k])@ == (LetterView {
                                target: to[k],
                                message: self@.message_for(
                                    MessageType::PingIndirect,
                                    *header,
                                    alive@,
                                ),
                            }),
                        forall|k: int| 0 <= k < i ==> (#[trigger] letters@[k]).message.wf(),
                    decreases count - i,
                {
                    let message = self.message_for(MessageType::PingIndirect, header, &alive);
                    letters.push(OutgoingLetter { target: others[i], message });
                    i += 1;
                }
                assert(letter_views(letters@) =~= self@.letters(*request));
            },
            Request::PingProxy(header, _) => {
                let alive = self.registry.members_except(&header.target);
                let message = self.message_for(MessageType::Ping, header, &alive);
                letters.push(OutgoingLetter { target: header.target, message });
                assert(letter_views(letters@) =~= self@.letters(*request));
            },
            Request::Ack(header) => {
                let alive = self.registry.members();
                let message = self.message_for(MessageType::PingAck, header, &alive);
                letters.push(OutgoingLetter { target: header.target, message });
                assert(letter_views(letters@) =~= self@.letters(*request));
            },
            Request::AckIndirect(header, member) => {
                let members = self.registry.members();
                let alive = Self::led_by(*member, &members);
                let message = self.message_for(MessageType::PingAck, header, &alive);
                letters.push(OutgoingLetter { target: header.target, message });
                assert(letter_views(letters@) =~= self@.letters(*request));
            },
        }
        letters
    }

    /// Carries out the request that leads the queue, at `now`: the request
    /// leaves the queue, its letters are handed back to be sent, and if it is a
    /// probe, it awaits its acknowledgement from `now` on. With an empty queue
    /// nothing happens.
    pub fn handle_writable(&mut self, now: u64) -> (letters: Vec<OutgoingLetter>)
        requires
            old(self).wf(),
        ensures
            final(self).wf(),
            old(self)@.same_node(final(self)@),
            final(self)@ == old(self)@.handle_writable(now),
            letter_views(letters@) == old(self)@.outgoing(),
            forall|i: int| 0 <= i < letters@.len() ==> (#[trigger] letters@[i]).message.wf(),
            old(self)@.excludes_self() ==> final(self)@.excludes_self(),
    {
        proof {
            lemma_handle_writable(self@, now);
        }
        match self.requests.pop_front() {
            None => {
                let letters: Vec<OutgoingLetter> = Vec::new();
                assert(letter_views(letters@) =~= Seq::<LetterView>::empty());
                letters
            },
            Some(request) => {
                assert(self@.requests =~= old(self)@.requests.drop_first());
                assert(self@.letters(request) == old(self)@.letters(request));
                let letters = self.letters_for(&request);
                match request {
                    Request::Ping(_) | Request::PingIndirect(_) | Request::PingProxy(_, _) => {
                        self.acks.push(Ack::new(request, now));
                    },
                    _ => {},
                }
                letters
            },
        }
    }

    /// Reacts to what the socket reports at `now`.
    ///
    /// A socket that can be read is to be read, whether or not it can be written
    /// to as well. A socket that can only be written to gets the letters of the
    /// request that leads the queue. A message that was read is taken in.
    pub fn handle_protocol_event(&mut self, event: ProtocolEvent, now: u64) -> (reaction: Reaction)
        requires
            old(self).wf(),
        ensures
            final(self).wf(),
            old(self)@.same_node(final(self)@),
            match event {
                ProtocolEvent::Ready { readable, writable } => if readable {
                    &&& final(self)@ == old(self)@
                    &&& reaction is Receive
                } else if writable {
                    &&& final(self)@ == old(self)@.handle_writable(now)
                    &&& reaction matches Reaction::Send(letters) && {
                        &&& letter_views(letters@) == old(self)@.outgoing()
                        &&& forall|i: int|
                            0 <= i < letters@.len() ==> (#[trigger] letters@[i]).message.wf()
                    }
                } else {
                    &&& final(self)@ == old(self)@
                    &&& reaction is Nothing
                },
                ProtocolEvent::Received(letter) => {
                    &&& final(self)@ == old(self)@.handle_letter(letter.sender, letter.message@)
                    &&& reaction is Nothing
                },
            },
            old(self)@.excludes_self() && !(event matches ProtocolEvent::Received(letter)
                && asks_to_probe(letter.message@, old(self)@.registry.myself))
                ==> final(self)@.excludes_self(),
    {
        match event {
            ProtocolEvent::Ready { readable, writable } => {
                if readable {
                    Reaction::Receive
                } else if writable {
                    Reaction::Send(self.handle_writable(now))
                } else {
                    Reaction::Nothing
                }
            },
            ProtocolEvent::Received(letter) => {
                self.handle_letter(&letter);
                Reaction::Nothing
            },
        }
    }
}

} // verus!
