use vstd::prelude::*;
use crate::error::ENetError;

verus! {

/// Construction parameters for a host. All durations are in milliseconds.
#[derive(Debug, Clone, PartialEq, Eq)]
pub struct HostConfig {
    /// Soft cap on the channels allocated per accepted peer.
    pub peer_count: usize,
    pub channel_limit: Option<usize>,
    pub incoming_bandwidth: Option<u32>,
    pub outgoing_bandwidth: Option<u32>,
    /// How many times an unacknowledged reliable command is retransmitted
    /// before the peer is presumed dead.
    pub retry_count: usize,
    /// Idle time after which an unacknowledged reliable command is resent.
    pub packet_timeout: u64,
    /// Idle time after which a keep-alive ping is sent to a peer.
    pub ping_interval: u64,
    /// Maximum wait inside one poll tick before yielding no event.
    pub poll_duration: u64,
}

impl HostConfig {
    /// A configuration with the given peer cap and the default timings:
    /// a 1 s retransmission timeout, 5 retries, a 500 ms ping interval and
    /// a 100 ms poll duration.
    pub fn new(peer_count: usize) -> (r: Result<HostConfig, ENetError>)
        ensures
            r == Ok::<HostConfig, ENetError>(HostConfig {
                peer_count,
                channel_limit: None,
                incoming_bandwidth: None,
                outgoing_bandwidth: None,
                retry_count: 5,
                packet_timeout: 1000,
                ping_interval: 500,
                poll_duration: 100,
            }),
    {
        Ok(HostConfig {
            peer_count,
            channel_limit: None,
            incoming_bandwidth: None,
            outgoing_bandwidth: None,
            retry_count: 5,
            packet_timeout: 1000,
            ping_interval: 500,
            poll_duration: 100,
        })
    }
}

} // verus!
