//! Pending outbound operations and probes that await their acknowledgement.

use vstd::prelude::*;
use crate::addr::NodeAddr;

verus! {

/// What every request carries: whom it is for, and the epoch and sequence
/// number of the probe it belongs to.
#[derive(Clone, Copy, Debug, PartialEq, Eq, Structural)]
pub struct Header {
    pub target: NodeAddr,
    pub epoch: u64,
    pub sequence_number: u64,
}

/// An outbound operation that waits in the queue for the socket to become writable.
#[derive(Clone, Copy, Debug, PartialEq, Eq, Structural)]
pub enum Request {
    /// Probe the target directly.
    Ping(Header),
    /// Ask other members to probe the target.
    PingIndirect(Header),
    /// Probe the target on behalf of the node given second.
    PingProxy(Header, NodeAddr),
    /// Acknowledge a probe of the target's.
    Ack(Header),
    /// Hand the acknowledgement of the node given second on to the target.
    AckIndirect(Header, NodeAddr),
}

impl Request {
    /// The header of the request.
    pub open spec fn header(self) -> Header {
        match self {
            Request::Ping(h) => h,
            Request::PingIndirect(h) => h,
            Request::PingProxy(h, _) => h,
            Request::Ack(h) => h,
            Request::AckIndirect(h, _) => h,
        }
    }

    /// Whether the request is a probe, which awaits an acknowledgement once sent.
    pub open spec fn is_probe(self) -> bool {
        self is Ping || self is PingIndirect || self is PingProxy
    }

    /// The header of the request.
    pub fn get_header(&self) -> (header: Header)
        ensures
            header == self.header(),
    {
        match self {
            Request::Ping(h) => *h,
            Request::PingIndirect(h) => *h,
            Request::PingProxy(h, _) => *h,
            Request::Ack(h) => *h,
            Request::AckIndirect(h, _) => *h,
        }
    }
}

/// A probe that was sent and not yet acknowledged, with the time in
/// milliseconds at which it was sent.
#[derive(Clone, Copy, Debug, PartialEq, Eq, Structural)]
pub struct Ack {
    pub request: Request,
    pub request_time: u64,
}

impl Ack {
    /// Records that `request` was sent at `now`.
    pub fn new(request: Request, now: u64) -> (ack: Ack)
        ensures
            ack == (Ack { request, request_time: now }),
    {
        Ack { request, request_time: now }
    }
}

} // verus!
