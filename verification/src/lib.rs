//! A reliable, ordered, multi-channel datagram transport over UDP, in the
//! style of the ENet wire protocol.
//!
//! This crate holds the verified core: the wire codec for protocol commands,
//! packet-time arithmetic, and the host state machine that tracks peers,
//! sequence numbers, acknowledgements and retransmission. All I/O (the UDP
//! socket, the application mailboxes, timers) lives outside; the host is
//! driven by handing it decoded commands, application requests and the
//! current time, and it hands back the datagrams to emit and the messages to
//! deliver.

pub mod channel;
pub mod codec;
pub mod config;
pub mod error;
pub mod events;
pub mod host;
pub mod peer;
pub mod protocol;
pub mod time;
