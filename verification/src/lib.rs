//! Cluster membership based on the SWIM failure detector.
//!
//! A node keeps a registry of the peers it believes alive and of those
//! recently declared dead. Once per protocol period it probes one peer; a probe
//! that goes unanswered is repeated through other peers, and a peer that
//! stays silent is declared dead. What a node knows rides along with every
//! message it sends.
//!
//! The library holds the failure detector as a state machine: it is told what
//! arrived and what time it is, and tells what to send. Sockets, clocks and
//! threads are the caller's.

pub mod addr;
pub mod config;
pub mod gossip;
pub mod gossip_lemmas;
pub mod gossip_model;
pub mod message;
pub mod registry;
pub mod registry_model;
pub mod request;
pub mod ring;
pub mod seq_lemmas;
pub mod wire;

pub use crate::config::ProtocolConfig;
