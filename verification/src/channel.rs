use vstd::prelude::*;

verus! {

/// An id naming one channel of a peer.
pub type ChannelID = u16;

/// Sequencing state for a single channel of one peer. All counters are
/// 16-bit and wrap modulo 2^16.
#[derive(Debug, Clone, Copy, PartialEq, Eq, Structural)]
pub struct Channel {
    pub outgoing_reliable_sequence_number: u16,
    pub outgoing_unreliable_sequence_number: u16,
    pub incoming_reliable_sequence_number: u16,
    pub incoming_unreliable_sequence_number: u16,
}

impl Default for Channel {
    /// A fresh channel: every counter at zero.
    fn default() -> (r: Self)
        ensures
            r == (Channel {
                outgoing_reliable_sequence_number: 0,
                outgoing_unreliable_sequence_number: 0,
                incoming_reliable_sequence_number: 0,
                incoming_unreliable_sequence_number: 0,
            }),
    {
        Channel {
            outgoing_reliable_sequence_number: 0,
            outgoing_unreliable_sequence_number: 0,
            incoming_reliable_sequence_number: 0,
            incoming_unreliable_sequence_number: 0,
        }
    }
}

} // verus!
