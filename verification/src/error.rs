//! The failures of a ping attempt.

use vstd::prelude::*;

verus! {

/// Why a ping attempt ended without a player list.
#[derive(Debug, Clone, Copy, PartialEq, Eq, Structural)]
pub enum PingError {
    /// The connection could not be opened, or was lost during the exchange.
    ConnectionError,
    /// The peer's bytes are no well-formed packet: a VarInt that runs past
    /// five bytes, or a stream that ends before the announced bytes.
    ProtocolError,
    /// The status document is no JSON text of the expected shape.
    PayloadError,
}

} // verus!
