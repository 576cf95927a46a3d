//! Error values of the library.

use vstd::prelude::*;

verus! {

/// Why a message could not be encoded or decoded.
#[derive(Debug, Clone, Copy, PartialEq, Eq, Structural)]
pub enum CodecError {
    /// The encoded form would be longer than a datagram may be.
    BufferFull,
    /// The input ends before a field is complete.
    Truncated,
    /// The message type is not valid UTF-8.
    InvalidText,
    /// The payload's length prefix is larger than a payload may be.
    PayloadOverrun,
    /// A field that names one of a few cases holds none of them.
    UnknownTag,
}

/// Failures that the gossip engine or its collaborators report.
#[derive(Debug, Clone, PartialEq, Eq)]
pub enum GossipError {
    /// A transport read or write failed.
    Io(String),
    /// A message could not be encoded or decoded.
    Serialization(CodecError),
    /// The datagram backend failed.
    NetworkError(String),
    /// Peer discovery failed.
    PeerError(String),
    /// No IPv4 address could be taken from an address string.
    IpAddressError(String),
}

} // verus!
