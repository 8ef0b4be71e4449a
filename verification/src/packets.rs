//! The packets of a status query: the handshake and the status request that
//! the client sends, and the status response that it reads.

use vstd::prelude::*;
use vstd::slice::slice_subrange;
use vstd::string::StringSliceAdditionalSpecFns;
use crate::error::PingError;
use crate::frame::{decode_frame, frame_bytes, pack_data, read_frame, MAX_PAYLOAD_LEN};
use crate::varint::{
    decode_var_int, encode_var_int, lemma_var_int_bytes_len, pack_var_int, unpack_var_int,
    var_int_bytes,
};

verus! {

/// The id of the status request packet.
pub const PACKET_ID: u8 = 0x00;

/// The protocol version that the handshake announces: none in particular.
pub const PROTOCOL_VERSION: i32 = 0;

/// The state that the handshake asks for: status.
pub const NEXT_STATE_STATUS: u8 = 0x01;

/// The longest host name, in bytes, whose handshake still fits a frame.
pub const MAX_HOST_LEN: usize = 0x7FFF_FFF6;

/// The two bytes of `port`, high byte first.
pub open spec fn port_bytes(port: u16) -> Seq<u8> {
    seq![(port / 0x100) as u8, (port % 0x100) as u8]
}

/// The payload of the handshake: the protocol version as a VarInt, the host
/// name behind its length, the port high byte first, and the state asked
/// for.
pub open spec fn handshake_bytes(host: Seq<u8>, port: u16) -> Seq<u8> {
    encode_var_int(PROTOCOL_VERSION) + frame_bytes(host) + port_bytes(port) + seq![
        NEXT_STATE_STATUS,
    ]
}

/// The payload of the status request: the packet id alone.
pub open spec fn status_request_bytes() -> Seq<u8> {
    seq![PACKET_ID]
}

/// The JSON bytes in the payload of a status response: behind the packet
/// id, a VarInt that is passed over, the text stands behind its length.
/// `None` where either VarInt is malformed, the length is negative, or the
/// payload ends before the announced bytes.
pub open spec fn response_json(payload: Seq<u8>) -> Option<Seq<u8>> {
    match decode_var_int(payload) {
        Some((_, n)) => match decode_frame(payload.skip(n)) {
            Some((json, _)) => Some(json),
            None => None,
        },
        None => None,
    }
}

/// Builds the payload of the handshake for `host` and `port`.
pub fn handshake_payload(host: &str, port: u16) -> (payload: Vec<u8>)
    requires
        host.spec_bytes().len() <= MAX_HOST_LEN,
    ensures
        payload@ == handshake_bytes(host.spec_bytes(), port),
        payload@.len() <= MAX_PAYLOAD_LEN,
{
    let mut payload = pack_var_int(PROTOCOL_VERSION);
    let address = pack_data(host.as_bytes());
    payload.extend_from_slice(address.as_slice());
    proof {
        lemma_var_int_bytes_len(host.spec_bytes().len() as i32 as u32);
        assert(port >> 8u32 < 0x100 && port >> 8u32 == port / 0x100) by (bit_vector);
        assert(port & 0xFF < 0x100 && port & 0xFF == port % 0x100) by (bit_vector);
    }
    let high: u8 = (port >> 8u32) as u8;
    let low: u8 = (port & 0xFF) as u8;
    payload.push(high);
    payload.push(low);
    payload.push(NEXT_STATE_STATUS);
    proof {
        assert(payload@ =~= handshake_bytes(host.spec_bytes(), port));
    }
    payload
}

/// Builds the payload of the status request.
pub fn status_request_payload() -> (payload: Vec<u8>)
    ensures
        payload@ == status_request_bytes(),
{
    let mut payload: Vec<u8> = Vec::new();
    payload.push(PACKET_ID);
    payload
}

/// Takes the JSON bytes out of the payload of a status response.
pub fn status_json(payload: &[u8]) -> (res: Result<Vec<u8>, PingError>)
    ensures
        match response_json(payload@) {
            Some(json) => res matches Ok(found) && found@ == json,
            None => res matches Err(e) && e == PingError::ProtocolError,
        },
{
    match unpack_var_int(payload) {
        Ok((_, n)) => {
            let rest = slice_subrange(payload, n, payload.len());
            assert(rest@ =~= payload@.skip(n as int));
            match read_frame(rest) {
                Ok((json, _)) => Ok(json),
                Err(e) => Err(e),
            }
        },
        Err(e) => Err(e),
    }
}

/// The handshake on the wire: a zero byte for the protocol version, the
/// host name behind its length, the two bytes of the port, and a one for
/// the state asked for.
pub proof fn lemma_handshake_layout(host: Seq<u8>, port: u16)
    ensures
        handshake_bytes(host, port) == seq![0x00u8] + frame_bytes(host) + seq![
            (port / 0x100) as u8,
            (port % 0x100) as u8,
        ] + seq![0x01u8],
{
    reveal_with_fuel(var_int_bytes, 2);
    assert(0i32 as u32 == 0u32) by (bit_vector);
    assert(encode_var_int(PROTOCOL_VERSION) =~= seq![0x00u8]);
}

} // verus!
