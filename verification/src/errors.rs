//! Error kinds surfaced by the transfer core.
//!
//! Every kind aborts the transfer it belongs to; the core never retries on
//! its own.

use vstd::prelude::*;

verus! {

/// The failure classes of the transfer core.
#[derive(Clone, Copy, Debug, PartialEq, Eq, Structural)]
pub enum CoreError {
    /// Underlying read or write failure on the transport or the file.
    Io,
    /// The length field of a frame could not be read.
    Framing,
    /// A frame's payload did not decode to a protocol message.
    Deserialize,
    /// An unexpected message arrived in the current state.
    Protocol,
    /// The connection handshake exceeded its budget.
    ConnectTimeout,
    /// The completion acknowledgment did not arrive within its budget.
    AckTimeout,
    /// A chunk's recomputed digest did not match the carried digest.
    ChunkHash,
    /// The save directory's free space is below the offered file size.
    DiskSpace,
    /// The local registry asked this side to abort.
    Cancelled,
    /// The remote peer asked this side to abort.
    CancelledByPeer,
}

impl CoreError {
    /// Whether this kind is a cooperative abort rather than a fault.
    pub open spec fn is_cancellation(&self) -> bool {
        *self is Cancelled || *self is CancelledByPeer
    }

    /// A short stable label for logs and for the history sink: `cancelled`
    /// for the two cooperative aborts, `failed` for every other kind.
    pub fn label(&self) -> (r: &'static str)
        ensures
            self.is_cancellation() ==> r@ == "cancelled"@,
            !self.is_cancellation() ==> r@ == "failed"@,
    {
        match self {
            CoreError::Cancelled => "cancelled",
            CoreError::CancelledByPeer => "cancelled",
            _ => "failed",
        }
    }
}

} // verus!
