use membership::addr::NodeAddr;
use membership::ProtocolConfig;
use membership::gossip::{Gossip, IncomingLetter, OutgoingLetter, ProtocolEvent, Reaction};
use membership::message::Message;
use membership::request::{Ack, Header, Request};
use membership::wire::MessageType;

fn v4(last: u32) -> NodeAddr {
    NodeAddr::V4 { ip: 0x7f00_0000 + last, port: 1000 }
}

fn me() -> NodeAddr {
    v4(100)
}

fn header(target: NodeAddr, epoch: u64, sequence_number: u64) -> Header {
    Header { target, epoch, sequence_number }
}

fn letter(
    sender: NodeAddr,
    kind: MessageType,
    sequence_number: u64,
    epoch: u64,
    alive: &[NodeAddr],
    dead: &[NodeAddr],
) -> IncomingLetter {
    let mut message = Message::create(kind, sequence_number, epoch);
    message.with_members(alive, dead);
    IncomingLetter { sender, message }
}

fn writable() -> ProtocolEvent {
    ProtocolEvent::Ready { readable: false, writable: true }
}

/// A node that knows `members`, with an empty queue.
fn node_with(members: &[NodeAddr]) -> Gossip {
    let mut gossip = Gossip::new(me(), ProtocolConfig::default());
    for member in members {
        gossip.update_members_from_letter(&letter(*member, MessageType::PingAck, 0, 0, &[], &[]));
    }
    gossip
}

fn summary(letters: &[OutgoingLetter]) -> Vec<(NodeAddr, MessageType, u64, u64, Vec<NodeAddr>, Vec<NodeAddr>)> {
    letters
        .iter()
        .map(|l| {
            (
                l.target,
                l.message.get_type(),
                l.message.get_sequence_number(),
                l.message.get_epoch(),
                l.message.get_alive_members(),
                l.message.get_dead_members(),
            )
        })
        .collect()
}

#[test]
fn default_configuration() {
    let config = ProtocolConfig::default();
    assert_eq!(config.protocol_period, 5);
    assert_eq!(config.ack_timeout, 1);
    assert_eq!(config.num_indirect, 3);
    assert!(config.is_valid());
}

#[test]
fn configuration_with_slow_acks_is_not_valid() {
    let config = ProtocolConfig { protocol_period: 1, ack_timeout: 1, num_indirect: 3 };
    assert!(!config.is_valid());
    let config = ProtocolConfig { protocol_period: 300, ack_timeout: 255, num_indirect: 0 };
    assert!(config.is_valid());
}

#[test]
fn new_node_knows_only_itself() {
    let gossip = Gossip::new(me(), ProtocolConfig::default());
    assert_eq!(gossip.get_members(), vec![me()]);
    assert_eq!(gossip.epoch(), 0);
    assert_eq!(gossip.requests(), vec![]);
    assert_eq!(gossip.acks(), vec![]);
    assert_eq!(gossip.last_epoch_time(), 0);
    assert_eq!(gossip.config().protocol_period, 5);
    assert_eq!(gossip.registry().myself(), me());
    assert_eq!(gossip.registry().members(), vec![]);
}

#[test]
fn join_seeds_the_member_and_probes_it_first() {
    let mut gossip = Gossip::new(me(), ProtocolConfig::default());
    gossip.join(v4(1), 50);
    assert_eq!(gossip.get_members(), vec![me(), v4(1)]);
    assert_eq!(gossip.requests(), vec![Request::Ping(header(v4(1), 0, 0))]);
    assert_eq!(gossip.acks(), vec![]);
    assert_eq!(gossip.epoch(), 0);
    assert_eq!(gossip.last_epoch_time(), 50);
    assert_eq!(gossip.registry().sequence_number(), 1);
}

#[test]
fn join_puts_its_probe_in_front_of_what_waits() {
    let mut gossip = Gossip::new(me(), ProtocolConfig::default());
    gossip.handle_ping(&letter(v4(2), MessageType::Ping, 8, 9, &[], &[]));
    gossip.join(v4(1), 0);
    assert_eq!(
        gossip.requests(),
        vec![Request::Ping(header(v4(1), 0, 0)), Request::Ack(header(v4(2), 9, 8))]
    );
}

#[test]
fn advance_epoch_probes_the_next_member() {
    let mut gossip = node_with(&[v4(1), v4(2)]);
    gossip.advance_epoch();
    assert_eq!(gossip.epoch(), 1);
    assert_eq!(gossip.requests(), vec![Request::Ping(header(v4(1), 0, 0))]);
    gossip.advance_epoch();
    assert_eq!(gossip.epoch(), 2);
    assert_eq!(
        gossip.requests(),
        vec![Request::Ping(header(v4(2), 1, 1)), Request::Ping(header(v4(1), 0, 0))]
    );
    gossip.advance_epoch();
    assert_eq!(gossip.requests()[0], Request::Ping(header(v4(1), 2, 2)));
}

#[test]
fn advance_epoch_without_members_only_counts() {
    let mut gossip = Gossip::new(me(), ProtocolConfig::default());
    gossip.advance_epoch();
    gossip.advance_epoch();
    assert_eq!(gossip.epoch(), 2);
    assert_eq!(gossip.requests(), vec![]);
    assert_eq!(gossip.registry().sequence_number(), 0);
}

#[test]
fn ping_is_sent_to_its_target_without_the_target_in_the_alive_list() {
    let mut gossip = node_with(&[v4(1), v4(2), v4(3)]);
    gossip.advance_epoch();
    let letters = gossip.handle_writable(70);
    assert_eq!(
        summary(&letters),
        vec![(v4(1), MessageType::Ping, 0, 0, vec![v4(2), v4(3)], vec![])]
    );
    assert_eq!(gossip.requests(), vec![]);
    assert_eq!(
        gossip.acks(),
        vec![Ack { request: Request::Ping(header(v4(1), 0, 0)), request_time: 70 }]
    );
}

#[test]
fn writable_with_empty_queue_sends_nothing() {
    let mut gossip = node_with(&[v4(1)]);
    assert!(gossip.handle_writable(10).is_empty());
    assert_eq!(gossip.acks(), vec![]);
    match gossip.handle_protocol_event(writable(), 10) {
        Reaction::Send(letters) => assert!(letters.is_empty()),
        _ => panic!("a writable socket is written to"),
    }
}

#[test]
fn received_ping_is_acknowledged_with_all_members() {
    let mut gossip = node_with(&[v4(1)]);
    let incoming = letter(v4(2), MessageType::Ping, 5, 7, &[v4(3)], &[]);
    let reaction = gossip.handle_protocol_event(ProtocolEvent::Received(incoming), 10);
    assert!(matches!(reaction, Reaction::Nothing));
    assert_eq!(gossip.get_members(), vec![me(), v4(1), v4(3), v4(2)]);
    assert_eq!(gossip.requests(), vec![Request::Ack(header(v4(2), 7, 5))]);
    let letters = match gossip.handle_protocol_event(writable(), 20) {
        Reaction::Send(letters) => letters,
        _ => panic!("a writable socket is written to"),
    };
    assert_eq!(
        summary(&letters),
        vec![(v4(2), MessageType::PingAck, 5, 7, vec![v4(1), v4(3), v4(2)], vec![])]
    );
    assert_eq!(gossip.acks(), vec![]);
    assert_eq!(gossip.requests(), vec![]);
}

#[test]
fn received_dead_list_removes_from_alive() {
    let mut gossip = node_with(&[v4(1), v4(2), v4(3)]);
    gossip.handle_letter(&letter(v4(1), MessageType::Ping, 0, 0, &[], &[v4(2), me()]));
    assert_eq!(gossip.get_members(), vec![me(), v4(1), v4(3)]);
    assert_eq!(gossip.registry().dead_members(), vec![]);
}

#[test]
fn sender_reported_dead_by_itself_ends_up_alive() {
    let mut gossip = node_with(&[v4(1), v4(2)]);
    gossip.handle_letter(&letter(v4(1), MessageType::Ping, 0, 0, &[], &[v4(1)]));
    assert_eq!(gossip.get_members(), vec![me(), v4(2), v4(1)]);
}

#[test]
fn received_alive_list_purges_from_the_dead() {
    let mut gossip = node_with(&[v4(1), v4(2)]);
    gossip.handle_timeout_ack(Ack { request: Request::PingIndirect(header(v4(2), 0, 0)), request_time: 0 });
    assert_eq!(gossip.registry().dead_members(), vec![v4(2)]);
    gossip.handle_letter(&letter(v4(1), MessageType::PingAck, 0, 0, &[v4(2)], &[]));
    assert_eq!(gossip.registry().dead_members(), vec![]);
    assert_eq!(gossip.get_members(), vec![me(), v4(1), v4(2)]);
}

#[test]
fn indirect_ping_is_relayed_to_its_first_alive_address() {
    let mut gossip = node_with(&[v4(1)]);
    let incoming = letter(v4(2), MessageType::PingIndirect, 5, 7, &[v4(3), v4(4)], &[]);
    gossip.handle_protocol_event(ProtocolEvent::Received(incoming), 10);
    // the relay target is not taken for alive; the rest and the sender are
    assert_eq!(gossip.get_members(), vec![me(), v4(1), v4(4), v4(2)]);
    assert_eq!(gossip.requests(), vec![Request::PingProxy(header(v4(3), 7, 5), v4(2))]);
    let letters = gossip.handle_writable(30);
    assert_eq!(
        summary(&letters),
        vec![(v4(3), MessageType::Ping, 5, 7, vec![v4(1), v4(4), v4(2)], vec![])]
    );
    assert_eq!(
        gossip.acks(),
        vec![Ack { request: Request::PingProxy(header(v4(3), 7, 5), v4(2)), request_time: 30 }]
    );
}

#[test]
fn indirect_ping_for_a_known_member_leaves_it_out_of_the_probe() {
    let mut gossip = node_with(&[v4(1), v4(3)]);
    gossip.handle_letter(&letter(v4(2), MessageType::PingIndirect, 5, 7, &[v4(3)], &[]));
    assert_eq!(gossip.get_members(), vec![me(), v4(1), v4(3), v4(2)]);
    let letters = gossip.handle_writable(30);
    assert_eq!(
        summary(&letters),
        vec![(v4(3), MessageType::Ping, 5, 7, vec![v4(1), v4(2)], vec![])]
    );
}

#[test]
fn indirect_ping_without_target_is_passed_over() {
    let mut gossip = node_with(&[v4(1)]);
    gossip.handle_letter(&letter(v4(2), MessageType::PingIndirect, 5, 7, &[], &[]));
    assert_eq!(gossip.requests(), vec![]);
    assert_eq!(gossip.get_members(), vec![me(), v4(1), v4(2)]);
    gossip.handle_indirect_ping(&letter(v4(2), MessageType::PingIndirect, 5, 7, &[], &[]));
    assert_eq!(gossip.requests(), vec![]);
}

#[test]
fn ack_discharges_the_ping_it_answers() {
    let mut gossip = node_with(&[v4(1), v4(2)]);
    gossip.advance_epoch();
    gossip.handle_writable(0);
    let pending = gossip.acks();
    assert_eq!(pending.len(), 1);
    // wrong sender
    gossip.handle_letter(&letter(v4(2), MessageType::PingAck, 0, 0, &[], &[]));
    assert_eq!(gossip.acks(), pending);
    // wrong sequence number
    gossip.handle_letter(&letter(v4(1), MessageType::PingAck, 1, 0, &[], &[]));
    assert_eq!(gossip.acks(), pending);
    // the relay form does not answer a direct probe
    gossip.handle_letter(&letter(v4(2), MessageType::PingAck, 0, 0, &[v4(1)], &[]));
    assert_eq!(gossip.acks(), pending);
    gossip.handle_letter(&letter(v4(1), MessageType::PingAck, 0, 0, &[], &[]));
    assert_eq!(gossip.acks(), vec![]);
    assert_eq!(gossip.requests(), vec![]);
}

#[test]
fn ack_through_a_relay_discharges_the_indirect_ping() {
    let mut gossip = node_with(&[v4(1), v4(2)]);
    let probe = Request::PingIndirect(header(v4(1), 3, 4));
    gossip.handle_timeout_ack(Ack { request: Request::Ping(header(v4(1), 3, 4)), request_time: 0 });
    assert_eq!(gossip.requests(), vec![probe]);
    gossip.handle_writable(10);
    assert_eq!(gossip.acks(), vec![Ack { request: probe, request_time: 10 }]);
    // from the target itself, but not in the relay form
    gossip.handle_ack(&letter(v4(1), MessageType::PingAck, 4, 3, &[], &[]));
    assert_eq!(gossip.acks().len(), 1);
    gossip.handle_ack(&letter(v4(1), MessageType::PingAck, 4, 3, &[v4(2), v4(1)], &[]));
    assert_eq!(gossip.acks().len(), 1);
    // wrong sequence number
    gossip.handle_ack(&letter(v4(2), MessageType::PingAck, 5, 3, &[v4(1)], &[]));
    assert_eq!(gossip.acks().len(), 1);
    gossip.handle_ack(&letter(v4(2), MessageType::PingAck, 4, 9, &[v4(1), v4(2)], &[]));
    assert_eq!(gossip.acks(), vec![]);
    assert_eq!(gossip.requests(), vec![]);
}

#[test]
fn ack_of_a_proxied_ping_is_handed_on() {
    let mut gossip = node_with(&[v4(1)]);
    gossip.handle_letter(&letter(v4(2), MessageType::PingIndirect, 5, 7, &[v4(3)], &[]));
    gossip.handle_writable(30);
    assert_eq!(gossip.acks().len(), 1);
    // an acknowledgement from someone else changes nothing
    gossip.handle_letter(&letter(v4(1), MessageType::PingAck, 5, 7, &[], &[]));
    assert_eq!(gossip.acks().len(), 1);
    assert_eq!(gossip.requests(), vec![]);
    gossip.handle_letter(&letter(v4(3), MessageType::PingAck, 5, 8, &[], &[]));
    assert_eq!(gossip.acks(), vec![]);
    assert_eq!(gossip.requests(), vec![Request::AckIndirect(header(v4(2), 8, 5), v4(3))]);
    let letters = gossip.handle_writable(40);
    assert_eq!(
        summary(&letters),
        vec![(v4(2), MessageType::PingAck, 5, 8, vec![v4(3), v4(1), v4(2), v4(3)], vec![])]
    );
    assert_eq!(gossip.acks(), vec![]);
}

#[test]
fn ack_discharges_one_probe_at_most() {
    let mut gossip = node_with(&[v4(1)]);
    gossip.handle_letter(&letter(v4(2), MessageType::PingIndirect, 0, 7, &[v4(1)], &[]));
    gossip.handle_letter(&letter(v4(3), MessageType::PingIndirect, 0, 7, &[v4(1)], &[]));
    gossip.handle_writable(10);
    gossip.handle_writable(20);
    let first = Ack { request: Request::PingProxy(header(v4(1), 7, 0), v4(2)), request_time: 10 };
    let second = Ack { request: Request::PingProxy(header(v4(1), 7, 0), v4(3)), request_time: 20 };
    assert_eq!(gossip.acks(), vec![first, second]);
    gossip.handle_letter(&letter(v4(1), MessageType::PingAck, 0, 7, &[], &[]));
    assert_eq!(gossip.acks(), vec![second]);
    assert_eq!(gossip.requests(), vec![Request::AckIndirect(header(v4(2), 7, 0), v4(1))]);
    gossip.handle_letter(&letter(v4(1), MessageType::PingAck, 0, 7, &[], &[]));
    assert_eq!(gossip.acks(), vec![]);
    assert_eq!(
        gossip.requests(),
        vec![
            Request::AckIndirect(header(v4(2), 7, 0), v4(1)),
            Request::AckIndirect(header(v4(3), 7, 0), v4(1)),
        ]
    );
}

#[test]
fn ack_leaves_later_probes_in_order() {
    let mut gossip = node_with(&[v4(1), v4(2), v4(3)]);
    for now in 0..3 {
        gossip.advance_epoch();
        gossip.handle_writable(now);
    }
    assert_eq!(gossip.acks().len(), 3);
    gossip.handle_letter(&letter(v4(2), MessageType::PingAck, 1, 0, &[], &[]));
    assert_eq!(
        gossip.acks(),
        vec![
            Ack { request: Request::Ping(header(v4(1), 0, 0)), request_time: 0 },
            Ack { request: Request::Ping(header(v4(3), 2, 2)), request_time: 2 },
        ]
    );
}

#[test]
fn timed_out_ping_escalates_to_an_indirect_ping() {
    let mut gossip = node_with(&[v4(1), v4(2)]);
    let h = header(v4(1), 3, 4);
    gossip.handle_timeout_ack(Ack { request: Request::Ping(h), request_time: 0 });
    assert_eq!(gossip.requests(), vec![Request::PingIndirect(h)]);
    assert_eq!(gossip.get_members(), vec![me(), v4(1), v4(2)]);
    assert_eq!(gossip.registry().dead_members(), vec![]);
}

#[test]
fn timed_out_indirect_ping_declares_the_target_dead() {
    let mut gossip = node_with(&[v4(1), v4(2)]);
    let h = header(v4(1), 3, 4);
    gossip.handle_timeout_ack(Ack { request: Request::PingIndirect(h), request_time: 0 });
    assert_eq!(gossip.requests(), vec![]);
    assert_eq!(gossip.get_members(), vec![me(), v4(2)]);
    assert_eq!(gossip.registry().dead_members(), vec![v4(1)]);
}

#[test]
fn timed_out_proxied_ping_declares_the_target_dead() {
    let mut gossip = node_with(&[v4(1), v4(2)]);
    let h = header(v4(2), 3, 4);
    gossip.handle_timeout_ack(Ack { request: Request::PingProxy(h, v4(1)), request_time: 0 });
    assert_eq!(gossip.get_members(), vec![me(), v4(1)]);
    assert_eq!(gossip.registry().dead_members(), vec![v4(2)]);
}

#[test]
fn probe_times_out_exactly_at_the_ack_timeout() {
    let mut gossip = node_with(&[v4(1)]);
    gossip.advance_epoch();
    gossip.handle_writable(60);
    gossip.expire_acks(1059);
    assert_eq!(gossip.acks().len(), 1);
    assert_eq!(gossip.requests(), vec![]);
    gossip.expire_acks(1060);
    assert_eq!(gossip.acks(), vec![]);
    assert_eq!(gossip.requests(), vec![Request::PingIndirect(header(v4(1), 0, 0))]);
}

#[test]
fn probe_sent_in_the_future_does_not_time_out() {
    let mut gossip = node_with(&[v4(1)]);
    gossip.advance_epoch();
    gossip.handle_writable(5000);
    gossip.expire_acks(10);
    assert_eq!(gossip.acks().len(), 1);
}

#[test]
fn expire_acks_keeps_the_probes_that_still_wait() {
    let mut gossip = node_with(&[v4(1), v4(2), v4(3)]);
    gossip.advance_epoch();
    gossip.handle_writable(0);
    gossip.advance_epoch();
    gossip.handle_writable(500);
    gossip.advance_epoch();
    gossip.handle_writable(100);
    gossip.expire_acks(1100);
    assert_eq!(
        gossip.acks(),
        vec![Ack { request: Request::Ping(header(v4(2), 1, 1)), request_time: 500 }]
    );
    assert_eq!(
        gossip.requests(),
        vec![
            Request::PingIndirect(header(v4(1), 0, 0)),
            Request::PingIndirect(header(v4(3), 2, 2)),
        ]
    );
}

#[test]
fn zero_ack_timeout_escalates_at_once() {
    let config = ProtocolConfig { protocol_period: 5, ack_timeout: 0, num_indirect: 3 };
    let mut gossip = Gossip::new(me(), config);
    gossip.join(v4(1), 0);
    gossip.handle_writable(7);
    gossip.expire_acks(7);
    assert_eq!(gossip.acks(), vec![]);
    assert_eq!(gossip.requests(), vec![Request::PingIndirect(header(v4(1), 0, 0))]);
}

#[test]
fn tick_begins_an_epoch_exactly_at_the_protocol_period() {
    let mut gossip = Gossip::new(me(), ProtocolConfig::default());
    gossip.join(v4(1), 50);
    gossip.handle_writable(50);
    gossip.handle_letter(&letter(v4(1), MessageType::PingAck, 0, 0, &[], &[]));
    gossip.tick(5049);
    assert_eq!(gossip.epoch(), 0);
    assert_eq!(gossip.requests(), vec![]);
    assert_eq!(gossip.last_epoch_time(), 50);
    gossip.tick(5050);
    assert_eq!(gossip.epoch(), 1);
    assert_eq!(gossip.requests(), vec![Request::Ping(header(v4(1), 0, 1))]);
    assert_eq!(gossip.last_epoch_time(), 5050);
    gossip.tick(5051);
    assert_eq!(gossip.epoch(), 1);
}

#[test]
fn tick_escalates_before_it_begins_the_epoch() {
    let mut gossip = Gossip::new(me(), ProtocolConfig::default());
    gossip.join(v4(1), 0);
    assert_eq!(gossip.handle_writable(4500).len(), 1);
    gossip.tick(5500);
    // the new probe leads, the escalation of the old one follows
    assert_eq!(
        gossip.requests(),
        vec![
            Request::Ping(header(v4(1), 0, 1)),
            Request::PingIndirect(header(v4(1), 0, 0)),
        ]
    );
    assert_eq!(gossip.epoch(), 1);
    assert_eq!(gossip.acks(), vec![]);
}

#[test]
fn tick_with_time_running_backwards_changes_nothing() {
    let mut gossip = Gossip::new(me(), ProtocolConfig::default());
    gossip.join(v4(1), 9000);
    gossip.handle_writable(9000);
    gossip.tick(10);
    assert_eq!(gossip.epoch(), 0);
    assert_eq!(gossip.acks().len(), 1);
    assert_eq!(gossip.last_epoch_time(), 9000);
}

#[test]
fn long_protocol_period_does_not_overflow() {
    let config = ProtocolConfig { protocol_period: u64::MAX, ack_timeout: 255, num_indirect: 3 };
    let mut gossip = Gossip::new(me(), config);
    gossip.join(v4(1), 0);
    gossip.handle_writable(0);
    gossip.tick(254_999);
    assert_eq!(gossip.acks().len(), 1);
    gossip.tick(u64::MAX);
    assert_eq!(gossip.epoch(), 0);
    assert_eq!(gossip.acks(), vec![]);
}

#[test]
fn indirect_ping_goes_to_the_first_members_other_than_the_target() {
    let mut gossip = node_with(&[v4(1), v4(2), v4(3), v4(4), v4(5)]);
    gossip.handle_timeout_ack(Ack { request: Request::PingIndirect(header(v4(9), 0, 0)), request_time: 0 });
    let h = header(v4(2), 6, 7);
    gossip.handle_timeout_ack(Ack { request: Request::Ping(h), request_time: 0 });
    let letters = gossip.handle_writable(90);
    let alive = vec![v4(2), v4(1), v4(3), v4(4), v4(5)];
    assert_eq!(
        summary(&letters),
        vec![
            (v4(1), MessageType::PingIndirect, 7, 6, alive.clone(), vec![v4(9)]),
            (v4(3), MessageType::PingIndirect, 7, 6, alive.clone(), vec![v4(9)]),
            (v4(4), MessageType::PingIndirect, 7, 6, alive.clone(), vec![v4(9)]),
        ]
    );
    assert_eq!(gossip.acks(), vec![Ack { request: Request::PingIndirect(h), request_time: 90 }]);
}

#[test]
fn indirect_ping_with_few_members_asks_them_all() {
    let mut gossip = node_with(&[v4(1), v4(2)]);
    gossip.handle_timeout_ack(Ack { request: Request::Ping(header(v4(1), 0, 0)), request_time: 0 });
    let letters = gossip.handle_writable(0);
    assert_eq!(
        summary(&letters),
        vec![(v4(2), MessageType::PingIndirect, 0, 0, vec![v4(1), v4(2)], vec![])]
    );
}

#[test]
fn indirect_ping_without_relays_still_awaits_its_answer() {
    let mut gossip = node_with(&[v4(1)]);
    let h = header(v4(1), 0, 0);
    gossip.handle_timeout_ack(Ack { request: Request::Ping(h), request_time: 0 });
    assert!(gossip.handle_writable(5).is_empty());
    assert_eq!(gossip.acks(), vec![Ack { request: Request::PingIndirect(h), request_time: 5 }]);
}

#[test]
fn number_of_relays_follows_the_configuration() {
    let config = ProtocolConfig { protocol_period: 5, ack_timeout: 1, num_indirect: 1 };
    let mut gossip = Gossip::new(me(), config);
    for member in [v4(1), v4(2), v4(3)] {
        gossip.update_members_from_letter(&letter(member, MessageType::PingAck, 0, 0, &[], &[]));
    }
    gossip.handle_timeout_ack(Ack { request: Request::Ping(header(v4(1), 0, 0)), request_time: 0 });
    let letters = gossip.handle_writable(0);
    assert_eq!(letters.len(), 1);
    assert_eq!(letters[0].target, v4(2));
}

#[test]
fn dead_member_rides_along_with_the_next_message() {
    let mut gossip = node_with(&[v4(1), v4(2)]);
    gossip.advance_epoch();
    gossip.handle_writable(0);
    gossip.tick(1000);
    let relayed = gossip.handle_writable(1000);
    assert_eq!(
        summary(&relayed),
        vec![(v4(2), MessageType::PingIndirect, 0, 0, vec![v4(1), v4(2)], vec![])]
    );
    gossip.tick(2000);
    assert_eq!(gossip.get_members(), vec![me(), v4(2)]);
    assert_eq!(gossip.registry().dead_members(), vec![v4(1)]);
    gossip.tick(5000);
    let letters = gossip.handle_writable(5000);
    assert_eq!(
        summary(&letters),
        vec![(v4(2), MessageType::Ping, 1, 1, vec![], vec![v4(1)])]
    );
}

#[test]
fn epochs_and_sequence_numbers_only_grow() {
    let mut gossip = node_with(&[v4(1), v4(2), v4(3)]);
    let mut last_epoch = gossip.epoch();
    let mut last_sequence = None;
    for round in 1..=10u64 {
        gossip.tick(round * 5000);
        assert!(gossip.epoch() > last_epoch);
        last_epoch = gossip.epoch();
        let letters = gossip.handle_writable(round * 5000);
        let sequence = letters[0].message.get_sequence_number();
        assert!(last_sequence.map_or(true, |last| sequence > last));
        last_sequence = Some(sequence);
    }
    assert_eq!(gossip.epoch(), 10);
}

#[test]
fn get_members_leads_with_the_node_itself() {
    let gossip = node_with(&[v4(3), v4(1), v4(2)]);
    assert_eq!(gossip.get_members(), vec![me(), v4(3), v4(1), v4(2)]);
}

#[test]
fn node_does_not_take_itself_for_a_member() {
    let mut gossip = node_with(&[v4(1)]);
    gossip.handle_letter(&letter(me(), MessageType::Ping, 0, 0, &[me(), v4(2)], &[me()]));
    assert_eq!(gossip.get_members(), vec![me(), v4(1), v4(2)]);
    assert!(!gossip.registry().is_member(&me()));
    assert!(!gossip.registry().is_dead(&me()));
}

#[test]
fn request_knows_its_header() {
    let h = header(v4(1), 2, 3);
    for request in [
        Request::Ping(h),
        Request::PingIndirect(h),
        Request::PingProxy(h, v4(2)),
        Request::Ack(h),
        Request::AckIndirect(h, v4(2)),
    ] {
        assert_eq!(request.get_header(), h);
    }
    assert_eq!(Ack::new(Request::Ping(h), 12), Ack { request: Request::Ping(h), request_time: 12 });
}

#[test]
fn period_is_over_exactly_at_the_protocol_period() {
    let mut gossip = Gossip::new(me(), ProtocolConfig::default());
    gossip.join(v4(1), 200);
    assert!(!gossip.is_period_over(0));
    assert!(!gossip.is_period_over(5199));
    assert!(gossip.is_period_over(5200));
    assert!(gossip.is_period_over(u64::MAX));
}

#[test]
fn asked_to_probe_itself_a_node_can_end_up_dead_to_itself() {
    let mut gossip = node_with(&[v4(1)]);
    gossip.handle_letter(&letter(v4(1), MessageType::PingIndirect, 5, 7, &[me()], &[]));
    assert_eq!(gossip.requests(), vec![Request::PingProxy(header(me(), 7, 5), v4(1))]);
    let letters = gossip.handle_writable(0);
    assert_eq!(
        summary(&letters),
        vec![(me(), MessageType::Ping, 5, 7, vec![v4(1)], vec![])]
    );
    gossip.tick(1000);
    assert_eq!(gossip.registry().dead_members(), vec![me()]);
    assert_eq!(gossip.get_members(), vec![me(), v4(1)]);
    // its own acknowledgement would have discharged the probe in time
    let mut gossip = node_with(&[v4(1)]);
    gossip.handle_letter(&letter(v4(1), MessageType::PingIndirect, 5, 7, &[me()], &[]));
    gossip.handle_writable(0);
    gossip.handle_letter(&letter(me(), MessageType::PingAck, 5, 7, &[v4(1)], &[]));
    gossip.tick(1000);
    assert_eq!(gossip.registry().dead_members(), vec![]);
    assert_eq!(gossip.acks(), vec![]);
}

#[test]
fn readable_socket_is_read_before_it_is_written_to() {
    let mut gossip = Gossip::new(me(), ProtocolConfig::default());
    gossip.join(v4(1), 0);
    for writable in [false, true] {
        let ready = ProtocolEvent::Ready { readable: true, writable };
        assert!(matches!(gossip.handle_protocol_event(ready, 10), Reaction::Receive));
        assert_eq!(gossip.requests().len(), 1);
        assert_eq!(gossip.acks(), vec![]);
    }
}

#[test]
fn socket_that_is_not_ready_is_left_alone() {
    let mut gossip = Gossip::new(me(), ProtocolConfig::default());
    gossip.join(v4(1), 0);
    let ready = ProtocolEvent::Ready { readable: false, writable: false };
    assert!(matches!(gossip.handle_protocol_event(ready, 10), Reaction::Nothing));
    assert_eq!(gossip.requests().len(), 1);
    assert_eq!(gossip.acks(), vec![]);
}

#[test]
fn writable_socket_gets_the_leading_request() {
    let mut gossip = Gossip::new(me(), ProtocolConfig::default());
    gossip.join(v4(1), 0);
    match gossip.handle_protocol_event(writable(), 10) {
        Reaction::Send(letters) => {
            assert_eq!(summary(&letters), vec![(v4(1), MessageType::Ping, 0, 0, vec![], vec![])]);
        }
        _ => panic!("a writable socket is written to"),
    }
    assert_eq!(gossip.requests(), vec![]);
    assert_eq!(gossip.acks().len(), 1);
}
