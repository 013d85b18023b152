use vstd::prelude::*;
use crate::channel::{Channel, ChannelID};
use crate::error::ENetError;
use crate::protocol::{Packet, PeerAddress};

verus! {

/// The id a host uses locally to identify one of its peers.
#[derive(Debug, Clone, Copy, PartialEq, Eq, Hash, Structural)]
pub struct PeerID(pub u16);

/// The id to stamp into datagrams sent to a peer: the id under which the
/// remote side knows us, learned from its `Connect`.
#[derive(Debug, Clone, Copy, PartialEq, Eq, Hash, Structural)]
pub struct OutgoingPeerID(pub u16);

/// Everything a host tracks about one registered peer. All durations are in
/// milliseconds; `last_msg_time` is measured from the host epoch.
#[derive(Debug, Clone, PartialEq, Eq)]
pub struct PeerInfo {
    pub outgoing_peer_id: OutgoingPeerID,
    pub incoming_peer_id: PeerID,
    pub connect_id: u32,
    pub outgoing_session_id: u16,
    pub incoming_session_id: u16,
    pub address: PeerAddress,

    /// The peer's channels, indexed by `ChannelID`.
    pub channels: Vec<Channel>,

    pub incoming_bandwidth: u32,
    pub outgoing_bandwidth: u32,

    pub packet_throttle_interval: u32,
    pub packet_throttle_acceleration: u32,
    pub packet_throttle_deceleration: u32,

    pub mtu: u32,
    pub window_size: u32,

    pub event_data: u32,

    /// Sequence counters for system traffic on channel 0xFF.
    pub outgoing_reliable_sequence_number: u16,
    pub incoming_reliable_sequence_number: u16,

    pub last_msg_time: u64,
    pub round_trip_time: u64,
    pub round_trip_time_variance: u64,
}

impl PeerInfo {
    /// Look up one of the peer's channels; fails exactly when the id is not
    /// one of the allocated channels.
    pub fn get_channel(&self, id: ChannelID) -> (r: Result<Channel, ENetError>)
        ensures
            (id as int) < self.channels@.len() ==> r == Ok::<Channel, ENetError>(
                self.channels@[id as int],
            ),
            (id as int) >= self.channels@.len() ==> r == Err::<Channel, ENetError>(
                ENetError::InvalidChannelId(id),
            ),
    {
        if (id as usize) < self.channels.len() {
            Ok(self.channels[id as usize])
        } else {
            Err(ENetError::InvalidChannelId(id))
        }
    }
}

/// A request a peer handle places on the host's inbound mailbox.
#[derive(Debug, Clone, PartialEq, Eq)]
pub enum PeerSendEvent {
    Send(Packet),
    Broadcast(Packet),
    Ping,
    Disconnect,
}

/// What a peer handle receives from the host: delivered application data,
/// or the end of the connection.
#[derive(Debug, Clone, PartialEq, Eq)]
pub enum PeerRecvEvent {
    Recv(Packet),
    Disconnect,
}

} // verus!
