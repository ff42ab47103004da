//! What makes a sequence of bytes no WebSocket frame.
use vstd::prelude::*;

verus! {

/// A breach of the framing rules by the peer.
#[derive(Debug, Clone, Copy, PartialEq, Eq, Structural)]
pub enum ProtocolError {
    /// A server received a frame that is not masked.
    UnmaskedFrame,
    /// A client received a frame that is masked.
    MaskedFrame,
    /// The frame bears an opcode that has no meaning.
    InvalidOpcode(u8),
    /// The payload of a control frame is longer than a control frame may carry.
    InvalidLength(usize),
    /// The payload is longer than the receiver is willing to take.
    Overflow,
}

} // verus!
