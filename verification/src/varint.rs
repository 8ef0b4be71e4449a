//! The protocol's variable-length integer: a 32-bit value in one to five
//! bytes, seven data bits per byte, low-order group first, the high bit of a
//! byte set when another byte follows.

use vstd::prelude::*;
use crate::error::PingError;

verus! {

/// The seven data bits of a byte.
pub const SEGMENT_BITS: u32 = 0x7F;

/// The flag that says another byte follows.
pub const CONTINUE_BIT: u32 = 0x80;

/// The most bytes a VarInt may take.
pub const MAX_VAR_INT_LEN: usize = 5;

/// The bytes that encode the unsigned 32-bit pattern `v`.
pub open spec fn var_int_bytes(v: u32) -> Seq<u8>
    decreases v,
{
    if v < 0x80 {
        seq![v as u8]
    } else {
        seq![(v % 0x80 + 0x80) as u8] + var_int_bytes(v / 0x80)
    }
}

/// The bytes that encode `value`: those of its two's-complement bit pattern.
pub open spec fn encode_var_int(value: i32) -> Seq<u8> {
    var_int_bytes(value as u32)
}

/// The number of seven-bit groups up to the highest set bit of `v`, and one
/// for zero.
pub open spec fn var_int_len(v: u32) -> nat {
    if v < 0x80 {
        1
    } else if v < 0x4000 {
        2
    } else if v < 0x20_0000 {
        3
    } else if v < 0x1000_0000 {
        4
    } else {
        5
    }
}

/// The number that the seven-bit groups of `s` spell, low-order group first.
pub open spec fn group_sum(s: Seq<u8>) -> nat
    decreases s.len(),
{
    if s.len() == 0 {
        0
    } else {
        (s[0] % 0x80) as nat + 0x80 * group_sum(s.drop_first())
    }
}

/// The weight of the seven-bit group at index `i`: 128 to the power `i`.
pub open spec fn group_weight(i: nat) -> nat
    decreases i,
{
    if i == 0 {
        1
    } else {
        0x80 * group_weight((i - 1) as nat)
    }
}

/// The length of the VarInt that starts at index `from` of `s`, counted from
/// the start of `s`: one past the first byte, among the first five, whose
/// continuation flag is clear. `None` where there is no such byte.
pub open spec fn var_int_end(s: Seq<u8>, from: int) -> Option<int>
    decreases 5 - from,
{
    if from < 0 || from >= 5 || from >= s.len() {
        None
    } else if s[from] < 0x80 {
        Some(from + 1)
    } else {
        var_int_end(s, from + 1)
    }
}

/// The value that a complete VarInt `s` stands for: the groups' sum, cut to
/// 32 bits and read as a signed number.
pub open spec fn var_int_value(s: Seq<u8>) -> i32 {
    ((group_sum(s) % 0x1_0000_0000) as u32) as i32
}

/// What decoding the front of `s` gives: the value and the number of bytes
/// it took, or `None` where `s` ends, or five bytes pass, before a byte with
/// a clear continuation flag.
pub open spec fn decode_var_int(s: Seq<u8>) -> Option<(i32, int)> {
    match var_int_end(s, 0) {
        Some(n) => Some((var_int_value(s.take(n)), n)),
        None => None,
    }
}

/// Encodes `value` in the fewest bytes that hold its 32-bit pattern.
pub fn pack_var_int(value: i32) -> (res: Vec<u8>)
    ensures
        res@ == encode_var_int(value),
        res@.len() == var_int_len(value as u32),
        decode_var_int(res@) == Some((value, res@.len() as int)),
{
    let mut rest: u32 = value as u32;
    let mut res: Vec<u8> = Vec::new();
    proof {
        lemma_var_int_bytes_fewest(rest);
        lemma_var_int_round_trip(value, Seq::empty());
        assert(encode_var_int(value) + Seq::<u8>::empty() =~= encode_var_int(value));
    }
    while rest & !SEGMENT_BITS != 0
        invariant
            res@ + var_int_bytes(rest) == var_int_bytes(value as u32),
        decreases rest,
    {
        proof {
            let r = rest;
            assert(r & !0x7Fu32 != 0 ==> r >= 0x80) by (bit_vector);
            assert(((r & 0x7Fu32) | 0x80u32) as u8 == (r % 0x80 + 0x80) as u8) by (bit_vector);
            assert(r >> 7u32 == r / 0x80) by (bit_vector);
            assert(res@.push((r % 0x80 + 0x80) as u8) + var_int_bytes(r / 0x80) =~= res@
                + var_int_bytes(r));
        }
        res.push(((rest & SEGMENT_BITS) | CONTINUE_BIT) as u8);
        rest = rest >> 7u32;
    }
    proof {
        let r = rest;
        assert(r & !0x7Fu32 == 0 ==> r < 0x80) by (bit_vector);
        assert(res@.push(r as u8) =~= res@ + var_int_bytes(r));
    }
    res.push(rest as u8);
    res
}

/// Decodes the VarInt at the front of `source`: its value and the number of
/// bytes it takes. Fails where `source` ends, or five bytes pass, before a
/// byte whose continuation flag is clear.
pub fn unpack_var_int(source: &[u8]) -> (res: Result<(i32, usize), PingError>)
    ensures
        match decode_var_int(source@) {
            Some((value, n)) => res == Ok::<(i32, usize), PingError>((value, n as usize)) && 1
                <= n <= 5 && n <= source@.len(),
            None => res == Err::<(i32, usize), PingError>(PingError::ProtocolError),
        },
{
    proof {
        lemma_var_int_end_bounds(source@, 0);
    }
    let mut value: u32 = 0;
    let mut shift: u32 = 0;
    let mut i: usize = 0;
    while i < MAX_VAR_INT_LEN && i < source.len()
        invariant
            i <= 5,
            i <= source@.len(),
            shift == 7 * i,
            var_int_end(source@, 0) == var_int_end(source@, i as int),
            i < 5 ==> value == group_sum(source@.take(i as int)),
            i < 5 ==> value < group_weight(i as nat),
        decreases 5 - i,
    {
        let byte: u32 = source[i] as u32;
        let group: u32 = byte & SEGMENT_BITS;
        proof {
            let b = source@[i as int];
            assert(byte == b as u32);
            assert((b as u32) & 0x7Fu32 == (b % 0x80) as u32) by (bit_vector);
            assert(((b as u32) & 0x80u32 == 0) <==> b < 0x80) by (bit_vector);
            assert(group < 0x80);
            lemma_set_group(value, group, i as u32);
            lemma_group_sum_push(source@.take(i as int), b);
            assert(source@.take(i as int).push(b) =~= source@.take(i + 1));
            assert(group as nat * group_weight(i as nat) == (b % 0x80) * group_weight(i as nat));
        }
        value = value | (group << shift);
        if byte & CONTINUE_BIT == 0 {
            return Ok((#[verifier::truncate] (value as i32), i + 1));
        }
        shift = shift + 7;
        i = i + 1;
    }
    Err(PingError::ProtocolError)
}

/// An encoding has between one and five bytes.
pub proof fn lemma_var_int_bytes_len(v: u32)
    ensures
        1 <= var_int_bytes(v).len() <= 5,
{
    reveal_with_fuel(var_int_bytes, 6);
    assert(v / 0x80 / 0x80 / 0x80 / 0x80 < 0x80) by (bit_vector);
}

/// An encoding is as long as the value's highest set bit asks, and no
/// longer.
pub proof fn lemma_var_int_bytes_fewest(v: u32)
    ensures
        var_int_bytes(v).len() == var_int_len(v),
{
    reveal_with_fuel(var_int_bytes, 6);
    assert(v / 0x80 / 0x80 / 0x80 / 0x80 < 0x80) by (bit_vector);
    assert(v / 0x80 < 0x80 <==> v < 0x4000) by (bit_vector);
    assert(v / 0x80 / 0x80 < 0x80 <==> v < 0x20_0000) by (bit_vector);
    assert(v / 0x80 / 0x80 / 0x80 < 0x80 <==> v < 0x1000_0000) by (bit_vector);
}

/// Values from 0 to 127 take one byte; every negative value, and the
/// largest positive one, takes five.
pub proof fn lemma_encoding_length(value: i32)
    ensures
        encode_var_int(value).len() == var_int_len(value as u32),
        0 <= value <= 127 ==> encode_var_int(value).len() == 1,
        value < 0 ==> encode_var_int(value).len() == 5,
        value == i32::MAX ==> encode_var_int(value).len() == 5,
{
    lemma_var_int_bytes_fewest(value as u32);
    assert(0i32 <= value && value <= 127i32 ==> (value as u32) < 0x80u32) by (bit_vector);
    assert(value < 0i32 ==> (value as u32) >= 0x1000_0000u32) by (bit_vector);
    assert(value == 0x7FFF_FFFFi32 ==> (value as u32) >= 0x1000_0000u32) by (bit_vector);
}

/// In an encoding every byte but the last has the continuation flag, the
/// last has not, and the groups spell the value.
pub proof fn lemma_var_int_bytes_shape(v: u32)
    ensures
        1 <= var_int_bytes(v).len() <= 5,
        var_int_bytes(v).last() < 0x80,
        forall|j: int| 0 <= j < var_int_bytes(v).len() - 1 ==> var_int_bytes(v)[j] >= 0x80,
        group_sum(var_int_bytes(v)) == v,
    decreases v,
{
    let e = var_int_bytes(v);
    lemma_var_int_bytes_len(v);
    if v < 0x80 {
        assert(e =~= seq![v as u8]);
        assert(e.drop_first() =~= Seq::<u8>::empty());
        assert(group_sum(e.drop_first()) == 0);
        assert(v < 0x80 ==> ((v as u8) % 0x80u8) as u32 == v) by (bit_vector);
    } else {
        let head = (v % 0x80 + 0x80) as u8;
        let tail = var_int_bytes(v / 0x80);
        lemma_var_int_bytes_shape(v / 0x80);
        assert(e =~= seq![head] + tail);
        assert(e.drop_first() =~= tail);
        assert(e.last() == tail.last());
        let flagged = ((v & 0x7Fu32) | 0x80u32) as u8;
        assert(((v & 0x7Fu32) | 0x80u32) as u8 == (v % 0x80 + 0x80) as u8) by (bit_vector);
        assert(flagged >= 0x80u8 && (flagged % 0x80u8) as u32 == v % 0x80u32) by (bit_vector)
            requires
                flagged == ((v & 0x7Fu32) | 0x80u32) as u8,
        ;
        assert forall|j: int| 0 <= j < e.len() - 1 implies e[j] >= 0x80 by {
            if j > 0 {
                assert(e[j] == tail[j - 1]);
            }
        }
        assert(v == v % 0x80u32 + 0x80u32 * (v / 0x80u32)) by (bit_vector);
    }
}

/// A group appended at the end counts with the weight of its index.
pub proof fn lemma_group_sum_push(s: Seq<u8>, b: u8)
    ensures
        group_sum(s.push(b)) == group_sum(s) + (b % 0x80) * group_weight(s.len()),
    decreases s.len(),
{
    let g = (b % 0x80) as nat;
    let sb = s.push(b);
    if s.len() == 0 {
        assert(sb.drop_first() =~= Seq::<u8>::empty());
        assert(sb[0] == b);
        assert(group_sum(sb.drop_first()) == 0);
        assert(group_sum(sb) == g + 0x80 * group_sum(sb.drop_first()));
        assert(group_weight(0) == 1);
        assert(g * 1 == g) by (nonlinear_arith);
    } else {
        let t = s.drop_first();
        let w = group_weight(t.len());
        assert(sb.drop_first() =~= t.push(b));
        assert(sb[0] == s[0]);
        lemma_group_sum_push(t, b);
        assert(group_sum(sb) == (s[0] % 0x80) as nat + 0x80 * group_sum(t.push(b)));
        assert(group_sum(s) == (s[0] % 0x80) as nat + 0x80 * group_sum(t));
        assert(group_weight(s.len()) == 0x80 * w);
        assert(0x80 * (group_sum(t) + g * w) == 0x80 * group_sum(t) + g * (0x80 * w))
            by (nonlinear_arith);
    }
}

/// Setting group `i` above a value that fits in the groups below it adds the
/// group at its weight; the fifth group is cut to 32 bits.
proof fn lemma_set_group(value: u32, g: u32, i: u32)
    requires
        i < 5,
        g < 0x80,
        value < group_weight(i as nat),
    ensures
        (value | (g << (7 * i) as u32)) as nat == (value + g * group_weight(i as nat))
            % 0x1_0000_0000,
        i < 4 ==> (value | (g << (7 * i) as u32)) == value + g * group_weight(i as nat),
        i < 4 ==> value + g * group_weight(i as nat) < group_weight((i + 1) as nat),
{
    reveal_with_fuel(group_weight, 6);
    if i == 0 {
        assert(value < 1 && g < 0x80 ==> (value | (g << 0u32)) == value + g * 1 && value + g * 1
            < 0x80) by (bit_vector);
    } else if i == 1 {
        assert(value < 0x80 && g < 0x80 ==> (value | (g << 7u32)) == value + g * 0x80 && value
            + g * 0x80 < 0x4000) by (bit_vector);
    } else if i == 2 {
        assert(value < 0x4000 && g < 0x80 ==> (value | (g << 14u32)) == value + g * 0x4000
            && value + g * 0x4000 < 0x20_0000) by (bit_vector);
    } else if i == 3 {
        assert(value < 0x20_0000 && g < 0x80 ==> (value | (g << 21u32)) == value + g * 0x20_0000
            && value + g * 0x20_0000 < 0x1000_0000) by (bit_vector);
    } else {
        assert(value < 0x1000_0000 && g < 0x80 ==> (value | (g << 28u32)) == (value + g
            * 0x1000_0000) % 0x1_0000_0000) by (bit_vector);
    }
}

/// Where a VarInt starts at `from`, it ends within the first five bytes of
/// `s`, on the first byte from `from` on whose continuation flag is clear.
pub proof fn lemma_var_int_end_bounds(s: Seq<u8>, from: int)
    requires
        0 <= from,
    ensures
        match var_int_end(s, from) {
            Some(n) => {
                &&& from < n <= 5
                &&& n <= s.len()
                &&& s[n - 1] < 0x80
                &&& forall|j: int| from <= j < n - 1 ==> s[j] >= 0x80
            },
            None => forall|j: int| from <= j < 5 && j < s.len() ==> s[j] >= 0x80,
        },
    decreases 5 - from,
{
    if from < 5 && from < s.len() && s[from] >= 0x80 {
        lemma_var_int_end_bounds(s, from + 1);
    }
}

/// Where the bytes of `s` from `from` up to `n - 1` all carry the
/// continuation flag and byte `n - 1` does not, the VarInt that starts at
/// `from` ends at `n`.
pub proof fn lemma_var_int_end(s: Seq<u8>, from: int, n: int)
    requires
        0 <= from < n <= 5,
        n <= s.len(),
        s[n - 1] < 0x80,
        forall|j: int| from <= j < n - 1 ==> s[j] >= 0x80,
    ensures
        var_int_end(s, from) == Some(n),
    decreases n - from,
{
    if from < n - 1 {
        lemma_var_int_end(s, from + 1, n);
    }
}

/// Decoding gives back what was encoded, whatever bytes follow the
/// encoding, and takes exactly the encoding's bytes.
pub proof fn lemma_var_int_round_trip(value: i32, rest: Seq<u8>)
    ensures
        decode_var_int(encode_var_int(value) + rest) == Some(
            (value, encode_var_int(value).len() as int),
        ),
{
    let v = value as u32;
    let e = var_int_bytes(v);
    let s = e + rest;
    lemma_var_int_bytes_shape(v);
    assert forall|j: int| 0 <= j < e.len() - 1 implies s[j] >= 0x80 by {
        assert(s[j] == e[j]);
    }
    assert(s[e.len() - 1] == e.last());
    lemma_var_int_end(s, 0, e.len() as int);
    assert(s.take(e.len() as int) =~= e);
    assert((group_sum(e) % 0x1_0000_0000) as u32 == v);
    assert((value as u32) as i32 == value) by (bit_vector);
}

/// The groups of `s` spell a number below the weight of the group that
/// would come next.
pub proof fn lemma_group_sum_bound(s: Seq<u8>)
    ensures
        group_sum(s) < group_weight(s.len()),
    decreases s.len(),
{
    if s.len() > 0 {
        lemma_group_sum_bound(s.drop_first());
        assert(group_weight(s.len()) == 0x80 * group_weight(s.drop_first().len()));
    }
}

/// No VarInt that stands for a value is shorter than the value's encoding.
pub proof fn lemma_encoding_is_shortest(s: Seq<u8>)
    requires
        decode_var_int(s) is Some,
    ensures
        encode_var_int(decode_var_int(s).unwrap().0).len() <= decode_var_int(s).unwrap().1,
{
    let (value, n) = decode_var_int(s).unwrap();
    let sum = group_sum(s.take(n));
    lemma_var_int_end_bounds(s, 0);
    lemma_encoding_length(value);
    lemma_group_sum_bound(s.take(n));
    reveal_with_fuel(group_weight, 6);
    if n < 5 {
        let v = sum as u32;
        assert(value == v as i32);
        assert((v as i32) as u32 == v) by (bit_vector);
    }
}

} // verus!
