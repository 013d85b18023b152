use vstd::prelude::*;
use crate::channel::ChannelID;
use crate::peer::PeerID;

verus! {

/// An error produced while encoding or decoding wire data.
#[derive(Debug, Clone, PartialEq, Eq, Structural)]
pub enum EncodingError {
    /// Fewer bytes were available than a field required: `(available, required)`.
    NotEnoughData(usize, usize),
    /// String data on the wire was not valid UTF-8.
    BadUtf8,
    /// A length did not fit the integer width its wire field uses.
    IntConversion,
    /// The transport reported the connection reset.
    ConnectionReset,
    /// The transport reported the connection closed.
    ConnectionClose,
    /// Any other serialization failure.
    CustomError,
}

/// An error produced by the protocol core.
#[derive(Debug, Clone, PartialEq, Eq)]
pub enum ENetError {
    /// A wire encoding or decoding failure.
    Encoding(EncodingError),
    /// Invalid construction parameters.
    BadConfig(String),
    /// A numeric value did not fit the width its destination requires.
    IntConversion,
    /// A command had a different variant than the context requires.
    UnexpectedPacketType,
    /// A received packet was rejected (bad command id, sequence mismatch,
    /// or an unusable acknowledgement timestamp).
    InvalidPacket,
    /// No peer is registered under this id.
    InvalidPeerId(PeerID),
    /// The peer has no channel under this id.
    InvalidChannelId(ChannelID),
}

} // verus!
