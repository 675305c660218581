//! The failure detector as a mathematical state machine: what a node knows, and
//! what each event makes of it.

use vstd::prelude::*;
use crate::addr::NodeAddr;
use crate::config::ProtocolConfig;
use crate::message::rendered;
use crate::registry_model::RegistryState;
use crate::request::{Ack, Header, Request};
use crate::seq_lemmas::without;
use crate::wire::{MessageType, MessageView};

verus! {

/// A message on its way, with the node it is for.
pub struct LetterView {
    pub target: NodeAddr,
    pub message: MessageView,
}

/// What a node knows and has in hand.
pub struct GossipState {
    pub config: ProtocolConfig,
    /// Who is alive, who is dead, whom to probe next.
    pub registry: RegistryState,
    /// The protocol period the node is in.
    pub epoch: u64,
    /// The outbound operations that wait for the socket, next one first.
    pub requests: Seq<Request>,
    /// The probes that were sent and are not acknowledged yet.
    pub acks: Seq<Ack>,
    /// The time, in milliseconds, at which the current protocol period began.
    pub last_epoch_time: u64,
}

/// Whether, at `now`, the probe has waited for its acknowledgement as long as
/// the configuration allows. Times are in milliseconds, the allowance in seconds.
pub open spec fn timed_out(ack: Ack, now: u64, config: ProtocolConfig) -> bool {
    now - ack.request_time >= config.ack_timeout * 1000
}

/// Whether, at `now`, the protocol period that began at `last` is over.
pub open spec fn period_over(last: u64, now: u64, config: ProtocolConfig) -> bool {
    now - last >= config.protocol_period * 1000
}

/// Whether the acknowledgement `m` that came from `sender` answers the probe `ack`.
///
/// A direct probe, and one made for another node, is answered by its target
/// under its sequence number. An indirect probe is answered through a relay:
/// the first alive address of the acknowledgement names the target.
pub open spec fn acknowledges(ack: Ack, sender: NodeAddr, m: MessageView) -> bool {
    match ack.request {
        Request::Ping(h) => sender == h.target && m.sequence_number == h.sequence_number,
        Request::PingIndirect(h) => m.alive.len() > 0 && m.alive[0] == h.target
            && m.sequence_number == h.sequence_number,
        Request::PingProxy(h, _) => sender == h.target && m.sequence_number == h.sequence_number,
        _ => false,
    }
}

/// Whether `i` is the position of the first probe that `m` from `sender` answers.
pub open spec fn is_first_acknowledged(
    acks: Seq<Ack>,
    i: int,
    sender: NodeAddr,
    m: MessageView,
) -> bool {
    &&& 0 <= i < acks.len()
    &&& acknowledges(acks[i], sender, m)
    &&& forall|k: int| 0 <= k < i ==> !acknowledges(#[trigger] acks[k], sender, m)
}

/// The node that a message names as the target to relay to: the first of its
/// alive addresses, if it carries any.
pub open spec fn relay_target(m: MessageView) -> Option<NodeAddr> {
    if m.alive.len() > 0 {
        Some(m.alive[0])
    } else {
        None
    }
}

/// Whether the message `m` asks the node at `myself` to probe itself.
pub open spec fn asks_to_probe(m: MessageView, myself: NodeAddr) -> bool {
    m.kind == MessageType::PingIndirect && relay_target(m) == Some(myself)
}

/// The alive addresses that a message from `sender` reports: those it carries,
/// but for the relay target that leads an indirect probe, and the sender itself.
pub open spec fn reported_alive(sender: NodeAddr, m: MessageView) -> Seq<NodeAddr> {
    if m.kind == MessageType::PingIndirect && m.alive.len() > 0 {
        m.alive.skip(1).push(sender)
    } else {
        m.alive.push(sender)
    }
}

/// The members asked to probe `target`: the first `n` alive peers other than
/// the target, or all of them if they are fewer.
pub open spec fn relays(alive: Seq<NodeAddr>, target: NodeAddr, n: nat) -> Seq<NodeAddr> {
    let others = without(alive, target);
    if n < others.len() {
        others.take(n as int)
    } else {
        others
    }
}

impl GossipState {
    /// What holds of a node at all times: its registry is sound, and only probes
    /// await an acknowledgement.
    pub open spec fn wf(self) -> bool {
        &&& self.registry.wf()
        &&& forall|i: int| 0 <= i < self.acks.len() ==> (#[trigger] self.acks[i]).request.is_probe()
    }

    /// Whether the node keeps itself out of everything: it is neither alive nor
    /// dead to itself, and no probe of its own, waiting or sent, is aimed at it.
    pub open spec fn excludes_self(self) -> bool {
        &&& self.registry.self_absent()
        &&& forall|i: int|
            0 <= i < self.requests.len() && (#[trigger] self.requests[i]).is_probe()
                ==> self.requests[i].header().target != self.registry.myself
        &&& forall|i: int|
            0 <= i < self.acks.len() ==> (#[trigger] self.acks[i]).request.header().target
                != self.registry.myself
    }

    /// Whether `other` is the same node under the same configuration.
    pub open spec fn same_node(self, other: Self) -> bool {
        &&& other.registry.myself == self.registry.myself
        &&& other.config == self.config
    }

    /// A node that was just created.
    pub open spec fn initial(myself: NodeAddr, config: ProtocolConfig) -> Self {
        GossipState {
            config,
            registry: RegistryState::initial(myself),
            epoch: 0,
            requests: Seq::<Request>::empty(),
            acks: Seq::<Ack>::empty(),
            last_epoch_time: 0,
        }
    }

    /// The node and the peers it believes alive.
    pub open spec fn members(self) -> Seq<NodeAddr> {
        seq![self.registry.myself] + self.registry.alive
    }

    /// The node with a direct probe of the next peer in front of its queue, if
    /// there is a peer.
    pub open spec fn probe_next(self) -> Self {
        match self.registry.next_member() {
            Some(target) => GossipState {
                registry: self.registry.advance().bump_sequence(),
                requests: seq![
                    Request::Ping(
                        Header {
                            target,
                            epoch: self.epoch,
                            sequence_number: self.registry.sequence_number,
                        },
                    ),
                ] + self.requests,
                ..self
            },
            None => self,
        }
    }

    /// The node after it joined the cluster through `member` at `now`: the member
    /// is alive to it, and a probe of a peer leads its queue.
    pub open spec fn join(self, member: NodeAddr, now: u64) -> Self {
        let seeded = GossipState {
            registry: self.registry.update_members(seq![member], Seq::<NodeAddr>::empty()),
            last_epoch_time: now,
            ..self
        };
        seeded.probe_next()
    }

    /// The node after a protocol period ended: the next peer is to be probed
    /// before anything else, and a new epoch begins.
    pub open spec fn advance_epoch(self) -> Self {
        let probing = self.probe_next();
        GossipState { epoch: (self.epoch + 1) as u64, ..probing }
    }

    /// The node after the probe `ack` went unanswered for too long. A direct
    /// probe is followed by an indirect one for the same target and sequence
    /// number, at the end of the queue. After an indirect probe, or one made
    /// for another node, the target is declared dead.
    pub open spec fn handle_timeout_ack(self, ack: Ack) -> Self {
        match ack.request {
            Request::Ping(h) => GossipState {
                requests: self.requests.push(Request::PingIndirect(h)),
                ..self
            },
            Request::PingIndirect(h) => GossipState {
                registry: self.registry.kill_member(h.target),
                ..self
            },
            Request::PingProxy(h, _) => GossipState {
                registry: self.registry.kill_member(h.target),
                ..self
            },
            _ => self,
        }
    }

    /// The node after the probes of `pending` were looked at in turn at `now`:
    /// one that timed out escalates, the others go on waiting.
    pub open spec fn expire(self, pending: Seq<Ack>, now: u64) -> Self
        decreases pending.len(),
    {
        if pending.len() == 0 {
            self
        } else {
            let before = self.expire(pending.drop_last(), now);
            if timed_out(pending.last(), now, self.config) {
                before.handle_timeout_ack(pending.last())
            } else {
                GossipState { acks: before.acks.push(pending.last()), ..before }
            }
        }
    }

    /// The node after all its unanswered probes were looked at at `now`.
    pub open spec fn expire_acks(self, now: u64) -> Self {
        (GossipState { acks: Seq::<Ack>::empty(), ..self }).expire(self.acks, now)
    }

    /// The node after time moved on to `now`: probes that timed out escalate,
    /// and if the protocol period is over, the next one begins at `now`.
    pub open spec fn tick(self, now: u64) -> Self {
        let expired = self.expire_acks(now);
        if period_over(self.last_epoch_time, now, self.config) {
            GossipState { last_epoch_time: now, ..expired.advance_epoch() }
        } else {
            expired
        }
    }

    /// The node after it took in what the message `m` from `sender` reports of
    /// alive and dead peers.
    pub open spec fn update_members_from_letter(self, sender: NodeAddr, m: MessageView) -> Self {
        GossipState {
            registry: self.registry.update_members(reported_alive(sender, m), m.dead),
            ..self
        }
    }

    /// The node after a probe came from `sender`: the acknowledgement waits in
    /// the queue.
    pub open spec fn handle_ping(self, sender: NodeAddr, m: MessageView) -> Self {
        GossipState {
            requests: self.requests.push(
                Request::Ack(
                    Header {
                        target: sender,
                        epoch: m.epoch,
                        sequence_number: m.sequence_number,
                    },
                ),
            ),
            ..self
        }
    }

    /// The node after `sender` asked it to probe the first alive address of `m`:
    /// the probe on the sender's behalf waits in the queue. A request that
    /// names no target is passed over.
    pub open spec fn handle_indirect_ping(self, sender: NodeAddr, m: MessageView) -> Self {
        if m.alive.len() == 0 {
            self
        } else {
            GossipState {
                requests: self.requests.push(
                    Request::PingProxy(
                        Header {
                            target: m.alive[0],
                            epoch: m.epoch,
                            sequence_number: m.sequence_number,
                        },
                        sender,
                    ),
                ),
                ..self
            }
        }
    }

    /// The node after the probe at position `i` was answered by `m` from
    /// `sender`: the probe no longer waits, and if it was made for another
    /// node, the acknowledgement for that node waits in the queue.
    pub open spec fn discharge(self, i: int, sender: NodeAddr, m: MessageView) -> Self {
        GossipState {
            acks: self.acks.remove(i),
            requests: match self.acks[i].request {
                Request::PingProxy(_, reply_to) => self.requests.push(
                    Request::AckIndirect(
                        Header {
                            target: reply_to,
                            epoch: m.epoch,
                            sequence_number: m.sequence_number,
                        },
                        sender,
                    ),
                ),
                _ => self.requests,
            },
            ..self
        }
    }

    /// The node after the acknowledgement `m` came from `sender`: the first
    /// probe that it answers is discharged; if it answers none, nothing changes.
    pub open spec fn handle_ack(self, sender: NodeAddr, m: MessageView) -> Self {
        if exists|i: int| is_first_acknowledged(self.acks, i, sender, m) {
            self.discharge(
                choose|i: int| is_first_acknowledged(self.acks, i, sender, m),
                sender,
                m,
            )
        } else {
            self
        }
    }

    /// The node after the message `m` came from `sender`.
    pub open spec fn handle_letter(self, sender: NodeAddr, m: MessageView) -> Self {
        let updated = self.update_members_from_letter(sender, m);
        match m.kind {
            MessageType::Ping => updated.handle_ping(sender, m),
            MessageType::PingAck => updated.handle_ack(sender, m),
            MessageType::PingIndirect => updated.handle_indirect_ping(sender, m),
        }
    }

    /// The message of type `kind` that goes with the request header `h` and is
    /// offered `alive` and the recently dead to carry.
    pub open spec fn message_for(self, kind: MessageType, h: Header, alive: Seq<NodeAddr>)
        -> MessageView {
        rendered(kind, h.sequence_number, h.epoch, alive, self.registry.dead)
    }

    /// The type of the message that carries out `request`.
    pub open spec fn message_type(request: Request) -> MessageType {
        match request {
            Request::Ping(_) => MessageType::Ping,
            Request::PingIndirect(_) => MessageType::PingIndirect,
            Request::PingProxy(_, _) => MessageType::Ping,
            Request::Ack(_) => MessageType::PingAck,
            Request::AckIndirect(_, _) => MessageType::PingAck,
        }
    }

    /// The nodes that `request` is sent to: the relays for an indirect probe,
    /// else the target of the request.
    pub open spec fn recipients(self, request: Request) -> Seq<NodeAddr> {
        match request {
            Request::PingIndirect(h) => relays(
                self.registry.alive,
                h.target,
                self.config.num_indirect as nat,
            ),
            _ => seq![request.header().target],
        }
    }

    /// The alive addresses that the message of `request` is offered to carry.
    ///
    /// A probe does not report its target alive. An indirect probe leads with
    /// the target to relay to, and an acknowledgement that is handed on leads
    /// with the node that gave it.
    pub open spec fn offered_alive(self, request: Request) -> Seq<NodeAddr> {
        let alive = self.registry.alive;
        match request {
            Request::Ping(h) => without(alive, h.target),
            Request::PingIndirect(h) => seq![h.target] + without(alive, h.target),
            Request::PingProxy(h, _) => without(alive, h.target),
            Request::Ack(_) => alive,
            Request::AckIndirect(_, member) => seq![member] + alive,
        }
    }

    /// The message that carries out `request`.
    pub open spec fn message(self, request: Request) -> MessageView {
        self.message_for(
            Self::message_type(request),
            request.header(),
            self.offered_alive(request),
        )
    }

    /// The letters that carry out `request`: its message, once for each recipient.
    pub open spec fn letters(self, request: Request) -> Seq<LetterView> {
        let to = self.recipients(request);
        Seq::new(to.len(), |i: int| LetterView { target: to[i], message: self.message(request) })
    }

    /// The letters to send once the socket can be written to: those of the
    /// request that leads the queue.
    pub open spec fn outgoing(self) -> Seq<LetterView> {
        if self.requests.len() == 0 {
            Seq::<LetterView>::empty()
        } else {
            self.letters(self.requests[0])
        }
    }

    /// The node after the request that leads the queue was carried out at
    /// `now`: it left the queue, and if it is a probe, it awaits its answer.
    pub open spec fn handle_writable(self, now: u64) -> Self {
        if self.requests.len() == 0 {
            self
        } else {
            let request = self.requests[0];
            GossipState {
                requests: self.requests.drop_first(),
                acks: if request.is_probe() {
                    self.acks.push(Ack { request, request_time: now })
                } else {
                    self.acks
                },
                ..self
            }
        }
    }
}

} // verus!
