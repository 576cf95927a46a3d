//! Limits shared by the codec and the receive path.

use vstd::prelude::*;

verus! {

/// Largest datagram, in bytes, that the protocol sends or accepts. It is also
/// the capacity of a message's payload buffer.
pub const MAX_PAYLOAD_SIZE: usize = 1024;

} // verus!
