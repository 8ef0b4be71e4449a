//! Packet framing: a payload travels behind its own length, written as a
//! VarInt that does not count itself.

use vstd::prelude::*;
use vstd::slice::{slice_subrange, slice_to_vec};
use crate::error::PingError;
use crate::varint::{
    decode_var_int, encode_var_int, lemma_var_int_round_trip, pack_var_int, unpack_var_int,
};

verus! {

/// The longest payload whose length a VarInt can announce.
pub const MAX_PAYLOAD_LEN: usize = 0x7FFF_FFFF;

/// The frame of `payload`: the VarInt of its length, then the payload.
pub open spec fn frame_bytes(payload: Seq<u8>) -> Seq<u8> {
    encode_var_int(payload.len() as i32) + payload
}

/// What reading one frame from the front of `s` gives: the payload and the
/// number of bytes that the frame took. `None` where the length prefix is no
/// VarInt, is negative, or announces more bytes than `s` holds behind it.
pub open spec fn decode_frame(s: Seq<u8>) -> Option<(Seq<u8>, int)> {
    match decode_var_int(s) {
        Some((len, n)) => if 0 <= len && n + len <= s.len() {
            Some((s.subrange(n, n + len), n + len))
        } else {
            None
        },
        None => None,
    }
}

/// Frames `data`: its length as a VarInt, then `data` itself.
pub fn pack_data(data: &[u8]) -> (packet: Vec<u8>)
    requires
        data@.len() <= MAX_PAYLOAD_LEN,
    ensures
        packet@ == frame_bytes(data@),
        decode_frame(packet@) == Some((data@, packet@.len() as int)),
{
    proof {
        lemma_frame_round_trip(data@, Seq::empty());
        assert(frame_bytes(data@) + Seq::<u8>::empty() =~= frame_bytes(data@));
    }
    let mut packet = pack_var_int(data.len() as i32);
    packet.extend_from_slice(data);
    proof {
        assert(packet@ =~= frame_bytes(data@));
    }
    packet
}

/// Reads one frame from the front of `source`: the payload, and the number
/// of bytes of `source` that the frame took. Fails where the length prefix
/// is malformed or negative, or `source` ends before the announced bytes.
pub fn read_frame(source: &[u8]) -> (res: Result<(Vec<u8>, usize), PingError>)
    ensures
        match decode_frame(source@) {
            Some((payload, taken)) => res matches Ok((p, n)) && p@ == payload && n == taken,
            None => res matches Err(e) && e == PingError::ProtocolError,
        },
{
    match unpack_var_int(source) {
        Ok((len, n)) => {
            if len < 0 || len as usize > source.len() - n {
                Err(PingError::ProtocolError)
            } else {
                let end: usize = n + len as usize;
                Ok((slice_to_vec(slice_subrange(source, n, end)), end))
            }
        },
        Err(e) => Err(e),
    }
}

/// Reading a frame gives back the payload that was framed, whatever bytes
/// follow the frame, and takes exactly the frame's bytes.
pub proof fn lemma_frame_round_trip(payload: Seq<u8>, rest: Seq<u8>)
    requires
        payload.len() <= MAX_PAYLOAD_LEN,
    ensures
        decode_frame(frame_bytes(payload) + rest) == Some(
            (payload, frame_bytes(payload).len() as int),
        ),
{
    let len = payload.len() as i32;
    let prefix = encode_var_int(len);
    let s = frame_bytes(payload) + rest;
    assert(s =~= prefix + (payload + rest));
    lemma_var_int_round_trip(len, payload + rest);
    assert(s.subrange(prefix.len() as int, (prefix.len() + payload.len()) as int) =~= payload);
}

} // verus!
