//! A userspace IPv4 network stack: Ethernet framing, ARP resolution with a
//! pending-send hold, IPv4 send/receive with fragmentation, reassembly and
//! forwarding, ICMP echo and error reporting, and UDP endpoints.
//!
//! The protocol engine is a state machine over plain values: frames come in as
//! byte buffers, and every frame the stack wants on the wire comes back to the
//! caller as a [`stack::TxFrame`] effect. The caller owns the link drivers,
//! threads and clocks; it passes the current time in seconds where an
//! operation needs one.

pub mod arp;
pub mod buffer;
pub mod ethernet;
pub mod icmp;
pub mod ip;
pub mod protocol;
pub mod stack;
pub mod udp;
pub mod util;

pub use util::NetError;
