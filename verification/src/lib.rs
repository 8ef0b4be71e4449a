//! A client for the Minecraft "Server List Ping" exchange: the VarInt codec,
//! the length-prefixed packet framing, the packets of a status query, the
//! decoding of the status document, and the decisions of one ping session.

pub mod error;
pub mod varint;
pub mod frame;
pub mod packets;
pub mod status;
pub mod session;
