//! Verified core of a fleet-service Supervisor: a gossip plane with a
//! SWIM-style failure detector, versioned rumors with last-writer-wins merge,
//! per-service-group leader election, a signal-notifier state machine, a
//! supervised-process model, and the binary gossip wire format.

pub mod census;
pub mod config;
pub mod crc;
pub mod detector;
pub mod election;
pub mod fragment;
pub mod gossip;
pub mod gossip_file;
pub mod member;
pub mod oauth;
pub mod rumor;
pub mod sidecar;
pub mod signal;
pub mod supervisor;
pub mod wire;
