//! What holds of the failure detector whatever happens to it.

use vstd::prelude::*;
use crate::addr::NodeAddr;
use crate::gossip_model::{
    asks_to_probe, is_first_acknowledged, period_over, relay_target, reported_alive, timed_out,
    GossipState,
};
use crate::message::{lemma_fitting_prefix_whole, ADDRESS_BUDGET};
use crate::registry_model::{
    lemma_kill_member, lemma_update_members, lemma_wrapped_position,
};
use crate::request::{Ack, Header, Request};
use crate::wire::{list_size, MessageView};

verus! {

/// Whether all of `pending` are probes.
pub open spec fn all_probes(pending: Seq<Ack>) -> bool {
    forall|i: int| 0 <= i < pending.len() ==> (#[trigger] pending[i]).request.is_probe()
}

/// Whether none of `pending` is aimed at `myself`.
pub open spec fn none_aimed_at(pending: Seq<Ack>, myself: NodeAddr) -> bool {
    forall|i: int| 0 <= i < pending.len() ==> (#[trigger] pending[i]).request.header().target != myself
}

/// Putting a probe of the next peer in front of the queue keeps the node sound
/// and out of its own lists. The probe gets the current epoch and sequence
/// number, and the sequence counter moves on by one.
pub proof fn lemma_probe_next(s: GossipState)
    requires
        s.wf(),
    ensures
        s.probe_next().wf(),
        s.same_node(s.probe_next()),
        s.excludes_self() ==> s.probe_next().excludes_self(),
        s.probe_next().epoch == s.epoch,
        s.probe_next().acks == s.acks,
        s.probe_next().registry.alive == s.registry.alive,
        s.probe_next().registry.dead == s.registry.dead,
        s.probe_next().registry.myself == s.registry.myself,
        s.registry.alive.len() == 0 ==> s.probe_next() == s,
        s.registry.alive.len() > 0 ==> {
            &&& s.probe_next().requests.len() == s.requests.len() + 1
            &&& s.probe_next().requests[0] == Request::Ping(
                Header {
                    target: s.registry.alive[s.registry.next_index as int],
                    epoch: s.epoch,
                    sequence_number: s.registry.sequence_number,
                },
            )
            &&& s.probe_next().requests.skip(1) == s.requests
            &&& (s.registry.sequence_number < u64::MAX ==> s.probe_next().registry.sequence_number
                == s.registry.sequence_number + 1)
        },
{
    if s.registry.alive.len() > 0 {
        let n = s.registry.alive.len() as int;
        let c = s.registry.next_index as int;
        lemma_wrapped_position(c, 1, n);
        let r = s.probe_next();
        assert(r.requests.skip(1) =~= s.requests);
        assert(s.registry.alive.contains(s.registry.alive[c]));
        if s.excludes_self() {
            assert forall|i: int| 0 <= i < r.requests.len() && (#[trigger] r.requests[i]).is_probe()
                implies r.requests[i].header().target != r.registry.myself by {
                if i > 0 {
                    assert(r.requests[i] == s.requests[i - 1]);
                }
            }
        }
    }
}

/// Joining through a peer keeps the node sound and out of its own lists; the
/// peer is alive afterwards, and a probe leads the queue.
pub proof fn lemma_join(s: GossipState, member: NodeAddr, now: u64)
    requires
        s.wf(),
        member != s.registry.myself,
    ensures
        s.join(member, now).wf(),
        s.same_node(s.join(member, now)),
        s.excludes_self() ==> s.join(member, now).excludes_self(),
        s.join(member, now).registry.alive.contains(member),
        !s.join(member, now).registry.dead.contains(member),
        s.join(member, now).requests.len() == s.requests.len() + 1,
        s.join(member, now).requests[0] is Ping,
        s.join(member, now).epoch == s.epoch,
        s.join(member, now).last_epoch_time == now,
{
    let list = seq![member];
    assert(list[0] == member);
    assert(list.contains(member));
    lemma_update_members(s.registry, list, Seq::<NodeAddr>::empty());
    let seeded = GossipState {
        registry: s.registry.update_members(list, Seq::<NodeAddr>::empty()),
        last_epoch_time: now,
        ..s
    };
    lemma_probe_next(seeded);
}

/// A new epoch keeps the node sound and out of its own lists, and its number
/// is the old one plus one. If there is a peer, exactly one probe is put in
/// front of the queue; nothing else changes in the queue or the registry's lists.
pub proof fn lemma_advance_epoch(s: GossipState)
    requires
        s.wf(),
        s.epoch < u64::MAX,
    ensures
        s.advance_epoch().wf(),
        s.same_node(s.advance_epoch()),
        s.excludes_self() ==> s.advance_epoch().excludes_self(),
        s.advance_epoch().epoch == s.epoch + 1,
        s.advance_epoch().acks == s.acks,
        s.advance_epoch().registry.alive == s.registry.alive,
        s.advance_epoch().registry.dead == s.registry.dead,
        s.advance_epoch().requests == s.probe_next().requests,
{
    lemma_probe_next(s);
}

/// Epochs and sequence numbers only grow: of two epochs begun one after the
/// other, the second has the larger number, and the probe it puts in the
/// queue has the larger sequence number.
pub proof fn lemma_epochs_and_sequences_increase(s: GossipState)
    requires
        s.wf(),
        s.registry.alive.len() > 0,
        s.epoch + 2 <= u64::MAX,
        s.registry.sequence_number + 2 <= u64::MAX,
    ensures
        s.epoch < s.advance_epoch().epoch < s.advance_epoch().advance_epoch().epoch,
        s.advance_epoch().requests[0] is Ping,
        s.advance_epoch().advance_epoch().requests[0] is Ping,
        s.advance_epoch().requests[0].header().sequence_number
            < s.advance_epoch().advance_epoch().requests[0].header().sequence_number,
        s.advance_epoch().requests[0].header().epoch
            < s.advance_epoch().advance_epoch().requests[0].header().epoch,
{
    lemma_advance_epoch(s);
    lemma_probe_next(s);
    let t = s.advance_epoch();
    lemma_advance_epoch(t);
    lemma_probe_next(t);
}

/// Escalating a probe keeps the node sound. It stays out of its own lists
/// unless the probe was aimed at the node itself.
pub proof fn lemma_handle_timeout_ack(s: GossipState, ack: Ack)
    requires
        s.wf(),
    ensures
        s.handle_timeout_ack(ack).wf(),
        s.same_node(s.handle_timeout_ack(ack)),
        s.excludes_self() && ack.request.header().target != s.registry.myself
            ==> s.handle_timeout_ack(ack).excludes_self(),
        s.handle_timeout_ack(ack).acks == s.acks,
        s.handle_timeout_ack(ack).epoch == s.epoch,
        s.handle_timeout_ack(ack).config == s.config,
        s.handle_timeout_ack(ack).last_epoch_time == s.last_epoch_time,
        s.handle_timeout_ack(ack).registry.myself == s.registry.myself,
        s.handle_timeout_ack(ack).registry.sequence_number == s.registry.sequence_number,
{
    let h = ack.request.header();
    lemma_kill_member(s.registry, h.target);
    let r = s.handle_timeout_ack(ack);
    if s.excludes_self() && h.target != s.registry.myself {
        match ack.request {
            Request::Ping(_) => {
                assert forall|i: int|
                    0 <= i < r.requests.len() && (#[trigger] r.requests[i]).is_probe()
                    implies r.requests[i].header().target != r.registry.myself by {
                    if i < s.requests.len() {
                        assert(r.requests[i] == s.requests[i]);
                    }
                }
            },
            _ => {},
        }
    }
}

/// The escalation of a probe that goes unanswered.
///
/// When a direct probe of `h.target` times out, exactly one indirect probe for
/// the same target, epoch and sequence number joins the end of the queue, and
/// the registry stays as it is. When that indirect probe times out as well,
/// the target is no longer alive and is the newest of the dead; every message
/// that is sent afterwards, and has room for the alive addresses it is offered
/// and for the dead, carries it as dead.
pub proof fn lemma_escalation(s: GossipState, h: Header, sent: u64, next: Request)
    requires
        s.wf(),
    ensures
        s.handle_timeout_ack(Ack { request: Request::Ping(h), request_time: sent }).requests
            == s.requests.push(Request::PingIndirect(h)),
        s.handle_timeout_ack(Ack { request: Request::Ping(h), request_time: sent }).registry
            == s.registry,
        s.handle_timeout_ack(Ack { request: Request::Ping(h), request_time: sent }).acks == s.acks,
        ({
            let d = s.handle_timeout_ack(
                Ack { request: Request::PingIndirect(h), request_time: sent },
            );
            &&& d.requests == s.requests
            &&& !d.registry.alive.contains(h.target)
            &&& d.registry.dead.contains(h.target)
            &&& d.registry.dead.last() == h.target
            &&& (list_size(d.offered_alive(next)) + list_size(d.registry.dead) <= ADDRESS_BUDGET
                ==> d.message(next).dead == d.registry.dead)
            &&& (list_size(d.offered_alive(next)) + list_size(d.registry.dead) <= ADDRESS_BUDGET
                ==> forall|i: int|
                0 <= i < d.letters(next).len() ==> (#[trigger] d.letters(next)[i]).message.dead.contains(
                    h.target,
                ))
        }),
{
    lemma_kill_member(s.registry, h.target);
    let d = s.handle_timeout_ack(Ack { request: Request::PingIndirect(h), request_time: sent });
    if list_size(d.offered_alive(next)) + list_size(d.registry.dead) <= ADDRESS_BUDGET {
        lemma_fitting_prefix_whole(d.offered_alive(next), ADDRESS_BUDGET as int);
        lemma_fitting_prefix_whole(
            d.registry.dead,
            ADDRESS_BUDGET - list_size(d.offered_alive(next)),
        );
    }
}

/// Looking at unanswered probes keeps the node sound. It stays out of its own
/// lists if none of the probes was aimed at the node itself. The probes that
/// go on waiting are among those looked at, and none of them has timed out.
pub proof fn lemma_expire(s: GossipState, pending: Seq<Ack>, now: u64)
    requires
        s.wf(),
        all_probes(pending),
    ensures
        s.expire(pending, now).wf(),
        s.same_node(s.expire(pending, now)),
        s.excludes_self() && none_aimed_at(pending, s.registry.myself) ==> s.expire(
            pending,
            now,
        ).excludes_self(),
        s.expire(pending, now).epoch == s.epoch,
        s.expire(pending, now).config == s.config,
        s.expire(pending, now).last_epoch_time == s.last_epoch_time,
        s.expire(pending, now).registry.myself == s.registry.myself,
        s.expire(pending, now).registry.sequence_number == s.registry.sequence_number,
        s.acks.len() <= s.expire(pending, now).acks.len() <= s.acks.len() + pending.len(),
        forall|i: int|
            s.acks.len() <= i < s.expire(pending, now).acks.len() ==> pending.contains(
                #[trigger] s.expire(pending, now).acks[i],
            ) && !timed_out(s.expire(pending, now).acks[i], now, s.config),
        forall|i: int|
            0 <= i < s.acks.len() ==> #[trigger] s.expire(pending, now).acks[i] == s.acks[i],
    decreases pending.len(),
{
    if pending.len() > 0 {
        let front = pending.drop_last();
        let last = pending.last();
        assert forall|i: int| 0 <= i < front.len() implies (#[trigger] front[i]).request.is_probe() by {
            assert(front[i] == pending[i]);
        }
        lemma_expire(s, front, now);
        let before = s.expire(front, now);
        lemma_handle_timeout_ack(before, last);
        let r = s.expire(pending, now);
        assert(pending[pending.len() - 1] == last);
        assert forall|i: int| s.acks.len() <= i < r.acks.len() implies pending.contains(
            #[trigger] r.acks[i],
        ) && !timed_out(r.acks[i], now, s.config) by {
            if i < before.acks.len() {
                assert(r.acks[i] == before.acks[i]);
                assert(front.contains(before.acks[i]));
                let k = choose|k: int| 0 <= k < front.len() && front[k] == before.acks[i];
                assert(pending[k] == r.acks[i]);
            }
        }
        if s.excludes_self() && none_aimed_at(pending, s.registry.myself) {
            assert forall|i: int| 0 <= i < front.len() implies (
            #[trigger] front[i]).request.header().target != s.registry.myself by {
                assert(front[i] == pending[i]);
            }
            assert(before.excludes_self());
        }
    }
}

/// Moving time on keeps the node sound and out of its own lists. The epoch
/// grows by one when the protocol period is over, and stays as it is when not.
pub proof fn lemma_tick(s: GossipState, now: u64)
    requires
        s.wf(),
        period_over(s.last_epoch_time, now, s.config) ==> s.epoch < u64::MAX,
    ensures
        s.tick(now).wf(),
        s.same_node(s.tick(now)),
        s.excludes_self() ==> s.tick(now).excludes_self(),
        s.tick(now).epoch == s.epoch + (if period_over(s.last_epoch_time, now, s.config) {
            1int
        } else {
            0int
        }),
        period_over(s.last_epoch_time, now, s.config) ==> s.tick(now).last_epoch_time == now,
        forall|i: int|
            0 <= i < s.tick(now).acks.len() ==> !timed_out(
                #[trigger] s.tick(now).acks[i],
                now,
                s.config,
            ),
{
    let base = GossipState { acks: Seq::<Ack>::empty(), ..s };
    lemma_expire(base, s.acks, now);
    let expired = s.expire_acks(now);
    if period_over(s.last_epoch_time, now, s.config) {
        lemma_advance_epoch(expired);
    }
}

/// Taking in what a message reports keeps the node sound and out of its own
/// lists. Whoever sent the message is alive afterwards.
pub proof fn lemma_update_members_from_letter(s: GossipState, sender: NodeAddr, m: MessageView)
    requires
        s.wf(),
    ensures
        s.update_members_from_letter(sender, m).wf(),
        s.same_node(s.update_members_from_letter(sender, m)),
        s.excludes_self() ==> s.update_members_from_letter(sender, m).excludes_self(),
        s.update_members_from_letter(sender, m).registry.myself == s.registry.myself,
        sender != s.registry.myself ==> s.update_members_from_letter(
            sender,
            m,
        ).registry.alive.contains(sender),
        forall|x: NodeAddr|
            #[trigger] reported_alive(sender, m).contains(x) && x != s.registry.myself
                ==> !s.update_members_from_letter(sender, m).registry.dead.contains(x),
{
    let reported = reported_alive(sender, m);
    lemma_update_members(s.registry, reported, m.dead);
    assert(reported[reported.len() - 1] == sender);
    assert(reported.contains(sender));
}

/// Queueing the acknowledgement of a probe keeps the node sound and out of its
/// own lists.
pub proof fn lemma_handle_ping(s: GossipState, sender: NodeAddr, m: MessageView)
    requires
        s.wf(),
    ensures
        s.handle_ping(sender, m).wf(),
        s.same_node(s.handle_ping(sender, m)),
        s.excludes_self() ==> s.handle_ping(sender, m).excludes_self(),
{
    let r = s.handle_ping(sender, m);
    if s.excludes_self() {
        assert forall|i: int| 0 <= i < r.requests.len() && (#[trigger] r.requests[i]).is_probe()
            implies r.requests[i].header().target != r.registry.myself by {
            if i < s.requests.len() {
                assert(r.requests[i] == s.requests[i]);
            }
        }
    }
}

/// Queueing a probe on another node's behalf keeps the node sound. It stays
/// out of its own lists unless it is asked to probe itself.
pub proof fn lemma_handle_indirect_ping(s: GossipState, sender: NodeAddr, m: MessageView)
    requires
        s.wf(),
    ensures
        s.handle_indirect_ping(sender, m).wf(),
        s.same_node(s.handle_indirect_ping(sender, m)),
        s.excludes_self() && relay_target(m) != Some(s.registry.myself) ==> s.handle_indirect_ping(
            sender,
            m,
        ).excludes_self(),
{
    let r = s.handle_indirect_ping(sender, m);
    if s.excludes_self() && !(m.alive.len() > 0 && m.alive[0] == s.registry.myself) {
        assert forall|i: int| 0 <= i < r.requests.len() && (#[trigger] r.requests[i]).is_probe()
            implies r.requests[i].header().target != r.registry.myself by {
            if i < s.requests.len() {
                assert(r.requests[i] == s.requests[i]);
            }
        }
    }
}

/// Taking in a message keeps the node sound. It stays out of its own lists
/// unless the message asks it to probe itself.
pub proof fn lemma_handle_letter(s: GossipState, sender: NodeAddr, m: MessageView)
    requires
        s.wf(),
    ensures
        s.handle_letter(sender, m).wf(),
        s.same_node(s.handle_letter(sender, m)),
        s.excludes_self() && !asks_to_probe(m, s.registry.myself) ==> s.handle_letter(
            sender,
            m,
        ).excludes_self(),
        s.handle_letter(sender, m).epoch == s.epoch,
        s.handle_letter(sender, m).registry == s.registry.update_members(
            reported_alive(sender, m),
            m.dead,
        ),
        sender != s.registry.myself ==> s.handle_letter(sender, m).registry.alive.contains(sender),
{
    lemma_update_members_from_letter(s, sender, m);
    let u = s.update_members_from_letter(sender, m);
    lemma_handle_ping(u, sender, m);
    lemma_handle_indirect_ping(u, sender, m);
    lemma_handle_ack(u, sender, m);
}

/// An acknowledgement discharges one probe at most: the probes that go on
/// waiting are those that waited before, but for the first that it answers.
/// Nothing joins the queue but the acknowledgement to hand on, if the probe
/// was made for another node.
pub proof fn lemma_handle_ack(s: GossipState, sender: NodeAddr, m: MessageView)
    requires
        s.wf(),
    ensures
        s.handle_ack(sender, m).wf(),
        s.same_node(s.handle_ack(sender, m)),
        s.excludes_self() ==> s.handle_ack(sender, m).excludes_self(),
        s.handle_ack(sender, m).registry == s.registry,
        s.handle_ack(sender, m).epoch == s.epoch,
        s.acks.len() - 1 <= s.handle_ack(sender, m).acks.len() <= s.acks.len(),
        s.requests.len() <= s.handle_ack(sender, m).requests.len() <= s.requests.len() + 1,
{
    let r = s.handle_ack(sender, m);
    if exists|i: int| is_first_acknowledged(s.acks, i, sender, m) {
        let i = choose|i: int| is_first_acknowledged(s.acks, i, sender, m);
        assert forall|k: int| 0 <= k < r.acks.len() implies (#[trigger] r.acks[k]).request.is_probe() by {
            if k < i {
                assert(r.acks[k] == s.acks[k]);
            } else {
                assert(r.acks[k] == s.acks[k + 1]);
            }
        }
        if s.excludes_self() {
            assert forall|k: int| 0 <= k < r.acks.len() implies (
            #[trigger] r.acks[k]).request.header().target != r.registry.myself by {
                if k < i {
                    assert(r.acks[k] == s.acks[k]);
                } else {
                    assert(r.acks[k] == s.acks[k + 1]);
                }
            }
            assert forall|k: int| 0 <= k < r.requests.len() && (#[trigger] r.requests[k]).is_probe()
                implies r.requests[k].header().target != r.registry.myself by {
                if k < s.requests.len() {
                    assert(r.requests[k] == s.requests[k]);
                }
            }
        }
    }
}

/// Carrying out the request that leads the queue keeps the node sound and out
/// of its own lists, and leaves the registry, the epoch and the rest of the
/// queue as they are.
pub proof fn lemma_handle_writable(s: GossipState, now: u64)
    requires
        s.wf(),
    ensures
        s.handle_writable(now).wf(),
        s.same_node(s.handle_writable(now)),
        s.excludes_self() ==> s.handle_writable(now).excludes_self(),
        s.handle_writable(now).registry == s.registry,
        s.handle_writable(now).epoch == s.epoch,
{
    let r = s.handle_writable(now);
    if s.requests.len() > 0 {
        let request = s.requests[0];
        assert forall|k: int| 0 <= k < r.acks.len() implies (#[trigger] r.acks[k]).request.is_probe() by {
            if k < s.acks.len() {
                assert(r.acks[k] == s.acks[k]);
            }
        }
        if s.excludes_self() {
            assert forall|k: int| 0 <= k < r.acks.len() implies (
            #[trigger] r.acks[k]).request.header().target != r.registry.myself by {
                if k < s.acks.len() {
                    assert(r.acks[k] == s.acks[k]);
                }
            }
            assert forall|k: int| 0 <= k < r.requests.len() && (#[trigger] r.requests[k]).is_probe()
                implies r.requests[k].header().target != r.registry.myself by {
                assert(r.requests[k] == s.requests[k + 1]);
            }
        }
    }
}

} // verus!
