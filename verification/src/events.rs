use vstd::prelude::*;
use crate::channel::ChannelID;
use crate::peer::{PeerID, PeerRecvEvent, PeerSendEvent};
use crate::protocol::Command;

verus! {

/// What one unit of host work yields to the application.
#[derive(Debug, Clone, PartialEq, Eq)]
pub enum HostPollEvent {
    NoEvent,
    Connect(PeerID),
    Disconnect(PeerID),
}

/// A message the host delivers into one peer's application mailbox.
#[derive(Debug, Clone, PartialEq, Eq)]
pub struct HostSendEvent {
    pub event: PeerRecvEvent,
    pub channel_id: ChannelID,
}

/// A request arriving at the host from a peer handle.
#[derive(Debug, Clone, PartialEq, Eq)]
pub struct HostRecvEvent {
    pub event: PeerSendEvent,
    pub peer_id: PeerID,
    pub channel_id: ChannelID,
}

/// One mailbox delivery: which peer's mailbox, and what to put there.
#[derive(Debug, Clone, PartialEq, Eq)]
pub struct Delivery {
    pub peer_id: PeerID,
    pub message: HostSendEvent,
}

/// Everything one step of the host asks the outside world to do: datagrams
/// to encode and send on the socket, and messages to deliver to peer
/// mailboxes. The caller performs them in order.
#[derive(Debug, Clone, PartialEq, Eq)]
pub struct HostOutputs {
    pub datagrams: Vec<Command>,
    pub deliveries: Vec<Delivery>,
}

impl HostOutputs {
    /// An empty batch.
    pub fn new() -> (r: HostOutputs)
        ensures
            r.datagrams@ == Seq::<Command>::empty(),
            r.deliveries@ == Seq::<Delivery>::empty(),
    {
        HostOutputs { datagrams: Vec::new(), deliveries: Vec::new() }
    }
}

} // verus!
