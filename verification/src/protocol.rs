use vstd::prelude::*;
use crate::channel::ChannelID;
use crate::peer::PeerID;
use crate::time::PacketTime;

verus! {

/// A remote endpoint, held as plain values: an IPv4 or IPv6 address (the ip
/// as its integer value) and a port.
#[derive(Debug, Clone, Copy, PartialEq, Eq, Structural)]
pub struct PeerAddress {
    pub is_ipv6: bool,
    pub ip: u128,
    pub port: u16,
}

/// Flags describing how a packet is to be handled. Only `reliable`,
/// `unsequenced`, `send_time` and `is_compressed` are represented on the
/// wire; the rest are local bookkeeping and decode as `false`.
#[derive(Debug, Clone, Copy, PartialEq, Eq, Structural)]
pub struct PacketFlags {
    pub reliable: bool,
    pub unsequenced: bool,

    pub no_allocate: bool,
    pub unreliable_fragment: bool,
    pub sent: bool,

    pub send_time: bool,
    pub is_compressed: bool,
}

impl Default for PacketFlags {
    /// Default flags: unreliable, with a sent-time stamped into the datagram
    /// header.
    fn default() -> (r: Self)
        ensures
            r == (PacketFlags {
                reliable: false,
                unsequenced: false,
                no_allocate: false,
                unreliable_fragment: false,
                sent: false,
                send_time: true,
                is_compressed: false,
            }),
    {
        PacketFlags {
            reliable: false,
            unsequenced: false,
            no_allocate: false,
            unreliable_fragment: false,
            sent: false,
            send_time: true,
            is_compressed: false,
        }
    }
}

impl PacketFlags {
    /// The default flags with `reliable` set.
    pub fn reliable() -> (r: Self)
        ensures
            r == (PacketFlags { reliable: true, ..PacketFlags::spec_default() }),
    {
        PacketFlags { reliable: true, ..Default::default() }
    }

    /// The value `Default::default` returns, for use in contracts.
    pub open spec fn spec_default() -> PacketFlags {
        PacketFlags {
            reliable: false,
            unsequenced: false,
            no_allocate: false,
            unreliable_fragment: false,
            sent: false,
            send_time: true,
            is_compressed: false,
        }
    }
}

/// A wire command together with its addressing and framing metadata.
#[derive(Debug, Clone, PartialEq, Eq)]
pub struct Command {
    pub info: CommandInfo,
    pub command: ProtocolCommand,
}

/// Addressing and framing metadata for one command: where it goes or came
/// from, the wire peer id stamped in the datagram header, the local peer id
/// used for table lookups, the channel, the 2-bit session id, the reliable
/// sequence number, and the send time in milliseconds since the host epoch.
#[derive(Debug, Clone, Copy, PartialEq, Eq, Structural)]
pub struct CommandInfo {
    pub addr: PeerAddress,
    pub flags: PacketFlags,
    pub internal_peer_id: PeerID,
    pub peer_id: PeerID,
    pub channel_id: u8,
    pub session_id: u16,
    pub reliable_sequence_number: u16,
    pub sent_time: u64,
}

/// The per-datagram header: the wire peer id (with flag and session bits
/// folded in on the wire) and the low 16 bits of the send time.
#[derive(Debug, Clone, Copy, PartialEq, Eq, Structural)]
pub struct ProtocolHeader {
    pub peer_id: u16,
    pub sent_time: u16,
}

/// The per-command header: the command id (with flag bits folded in on the
/// wire), the channel id, and the reliable sequence number.
#[derive(Debug, Clone, Copy, PartialEq, Eq, Structural)]
pub struct ProtocolCommandHeader {
    pub command: u8,
    pub channel_id: u8,
    pub reliable_sequence_number: u16,
}

/// The protocol's command set. Wire command ids run from 0 (`NoCommand`)
/// to 13 (`Count`) in declaration order.
#[derive(Debug, Clone, PartialEq, Eq)]
pub enum ProtocolCommand {
    NoCommand,
    Ack(AcknowledgeCommand),
    Connect(ConnectCommand),
    VerifyConnect(VerifyConnectCommand),
    Disconnect(DisconnectCommand),
    Ping(PingCommand),
    SendReliable(SendReliableCommand),
    SendUnreliable(SendUnreliableCommand),
    SendFragment(SendFragmentCommand),
    SendUnsequenced(SendUnsequencedCommand),
    BandwidthLimit(BandwidthLimitCommand),
    ThrottleConfigure(ThrottleConfigureCommand),
    SendUnreliableFragment(SendUnreliableFragmentCommand),
    Count,
}

/// Acknowledges one reliable command: the sequence number being acked and
/// the low 16 bits of the acked command's send time.
#[derive(Debug, Clone, Copy, PartialEq, Eq, Structural)]
pub struct AcknowledgeCommand {
    pub received_reliable_sequence_number: u16,
    pub received_sent_time: PacketTime,
}

/// Opens a connection: the sender's peer id for this link and its proposed
/// session ids and link parameters.
#[derive(Debug, Clone, Copy, PartialEq, Eq, Structural)]
pub struct ConnectCommand {
    pub outgoing_peer_id: u16,
    pub incoming_session_id: u8,
    pub outgoing_session_id: u8,
    pub mtu: u32,
    pub window_size: u32,
    pub channel_count: u32,
    pub incoming_bandwidth: u32,
    pub outgoing_bandwidth: u32,
    pub packet_throttle_interval: u32,
    pub packet_throttle_acceleration: u32,
    pub packet_throttle_deceleration: u32,
    pub connect_id: u32,
    pub data: u32,
}

/// The reply to a `Connect`: the accepted parameters, echoed back.
#[derive(Debug, Clone, Copy, PartialEq, Eq, Structural)]
pub struct VerifyConnectCommand {
    pub outgoing_peer_id: u16,
    pub incoming_session_id: u8,
    pub outgoing_session_id: u8,
    pub mtu: u32,
    pub window_size: u32,
    pub channel_count: u32,
    pub incoming_bandwidth: u32,
    pub outgoing_bandwidth: u32,
    pub packet_throttle_interval: u32,
    pub packet_throttle_acceleration: u32,
    pub packet_throttle_deceleration: u32,
    pub connect_id: u32,
}

/// Announces new bandwidth limits for the sending peer.
#[derive(Debug, Clone, Copy, PartialEq, Eq, Structural)]
pub struct BandwidthLimitCommand {
    pub incoming_bandwidth: u32,
    pub outgoing_bandwidth: u32,
}

/// Reconfigures packet throttling for the sending peer.
#[derive(Debug, Clone, Copy, PartialEq, Eq, Structural)]
pub struct ThrottleConfigureCommand {
    pub packet_throttle_interval: u32,
    pub packet_throttle_acceleration: u32,
    pub packet_throttle_deceleration: u32,
}

/// Gracefully closes the connection.
#[derive(Debug, Clone, Copy, PartialEq, Eq, Structural)]
pub struct DisconnectCommand {
    pub data: u32,
}

/// A keep-alive probe; carries no payload.
#[derive(Debug, Clone, Copy, PartialEq, Eq, Structural)]
pub struct PingCommand {}

/// Reliable application data.
#[derive(Debug, Clone, PartialEq, Eq)]
pub struct SendReliableCommand {
    pub data: Vec<u8>,
}

/// Unreliable application data with its own unreliable sequence number.
#[derive(Debug, Clone, PartialEq, Eq)]
pub struct SendUnreliableCommand {
    pub unreliable_sequence_number: u16,
    pub data: Vec<u8>,
}

/// Unsequenced application data within an unsequenced group.
#[derive(Debug, Clone, PartialEq, Eq)]
pub struct SendUnsequencedCommand {
    pub unsequenced_group: u16,
    pub data: Vec<u8>,
}

/// One fragment of an oversized reliable packet.
#[derive(Debug, Clone, PartialEq, Eq)]
pub struct SendFragmentCommand {
    pub start_sequence_number: u16,
    pub data_length: u16,
    pub fragment_count: u32,
    pub fragment_number: u32,
    pub total_length: u32,
    pub fragment_offset: u32,
    pub data: Vec<u8>,
}

/// One fragment of an oversized unreliable packet; laid out exactly as
/// `SendFragmentCommand`.
#[derive(Debug, Clone, PartialEq, Eq)]
pub struct SendUnreliableFragmentCommand {
    pub start_sequence_number: u16,
    pub data_length: u16,
    pub fragment_count: u32,
    pub fragment_number: u32,
    pub total_length: u32,
    pub fragment_offset: u32,
    pub data: Vec<u8>,
}

/// A packet as the application sees it: payload bytes, the channel it rides
/// on, and its handling flags.
#[derive(Debug, Clone, PartialEq, Eq)]
pub struct Packet {
    pub data: Vec<u8>,
    pub channel: ChannelID,
    pub flags: PacketFlags,
}

} // verus!
