//! Verified core of a versatile ping utility.
//!
//! The library holds the logic of the prober: the ICMP Echo packet codec
//! with its Internet checksum, address-literal parsing and protocol
//! detection, the Happy Eyeballs address-selection procedure, the
//! reply-dispatch table, the session scheduler's decisions, and the
//! per-target statistics. The surrounding binary performs the socket,
//! timer and terminal work and feeds plain values into these functions.

pub mod addr;
pub mod cli;
pub mod client;
pub mod config;
pub mod dispatch;
pub mod geoip;
pub mod happy;
pub mod sched;
pub mod session;
pub mod stats;
pub mod utils;
pub mod packet;

pub use packet::{IcmpPacket, IcmpType};
