//! Why a transfer failed.

use vstd::prelude::*;

verus! {

/// The ways in which one transfer can fail. A failure is never recovered:
/// it ends the exchange, and the sweep that the exchange belongs to.
#[derive(Clone, Copy, Debug, PartialEq, Eq, Structural)]
pub enum TransferError {
    /// The connection could not be established or accepted.
    Connection,
    /// The secure channel could not be negotiated.
    Handshake,
    /// A read, write, flush or shutdown on the channel failed.
    Io,
    /// The peer left the protocol: a wrong acknowledgment, a stream that ended
    /// before the announced size was reached, or a step out of order.
    ProtocolViolation,
}

} // verus!
