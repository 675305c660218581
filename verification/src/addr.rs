//! Transport endpoints of cluster nodes.

use vstd::prelude::*;

verus! {

/// Address of a node: an IP address together with a UDP port.
///
/// Two addresses are equal exactly when all of their fields are equal.
#[derive(Clone, Copy, Debug, PartialEq, Eq, Hash, Structural)]
pub enum NodeAddr {
    /// An IPv4 endpoint; `ip` holds the four octets, first octet most significant.
    V4 { ip: u32, port: u16 },
    /// An IPv6 endpoint; `ip` holds the sixteen octets, first octet most significant.
    V6 { ip6: u128, port6: u16, flowinfo: u32, scope_id: u32 },
}

} // verus!
