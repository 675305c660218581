//! Protocol timing and fan-out parameters.

use vstd::prelude::*;

verus! {

/// Configuration for the membership protocol.
#[derive(Clone, Copy, Debug)]
pub struct ProtocolConfig {
    /// Number of seconds between two protocol periods.
    pub protocol_period: u64,
    /// Number of seconds to wait for an acknowledgement before a probe escalates.
    /// Must be smaller than `protocol_period`.
    pub ack_timeout: u8,
    /// Maximum number of members selected for indirect probing.
    pub num_indirect: u8,
}

impl ProtocolConfig {
    /// Whether a probe escalates before the protocol period it belongs to is over.
    pub open spec fn valid(self) -> bool {
        self.ack_timeout < self.protocol_period
    }

    /// Whether a probe escalates before the protocol period it belongs to is over.
    pub fn is_valid(&self) -> (valid: bool)
        ensures
            valid == self.valid(),
    {
        (self.ack_timeout as u64) < self.protocol_period
    }
}

impl Default for ProtocolConfig {
    fn default() -> (config: Self)
        ensures
            config.protocol_period == 5,
            config.ack_timeout == 1,
            config.num_indirect == 3,
            config.valid(),
    {
        ProtocolConfig { protocol_period: 5, ack_timeout: 1, num_indirect: 3 }
    }
}

} // verus!
