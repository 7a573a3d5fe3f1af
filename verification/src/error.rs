//! The error taxonomy of the daemon's core. The variants mirror the failure
//! classes of the connection hub: a broken handshake, transport and framing
//! failures, bad payloads, and a peer channel whose receiving half is gone.
use vstd::prelude::*;

verus! {

/// Why an operation on a peer connection failed.
#[derive(Clone, Copy, PartialEq, Eq, Structural, Debug)]
pub enum DesktopdError {
    ConnectInitError,
    WebSocketError,
    SerializationError,
    IoError,
    ChannelError,
}

} // verus!
