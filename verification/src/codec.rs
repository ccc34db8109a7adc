//! Wire formats.
//!
//! A public key travels as 48 bytes and a signature as 96 bytes, the
//! scalar big-endian in the last eight bytes and the rest zero; a clock
//! value serializes as 14 bytes: physical time (8), logical counter (2)
//! and validator id (4), each big-endian.  Decoding accepts exactly what
//! encoding produces.

use vstd::prelude::*;

verus! {

use crate::hlc::HLC;

/// Big-endian bytes of a `u64`.
pub open spec fn be_bytes_u64(v: u64) -> Seq<u8> {
    seq![
        (v >> 56) as u8,
        (v >> 48) as u8,
        (v >> 40) as u8,
        (v >> 32) as u8,
        (v >> 24) as u8,
        (v >> 16) as u8,
        (v >> 8) as u8,
        v as u8,
    ]
}

/// Big-endian bytes of a `u16`.
pub open spec fn be_bytes_u16(v: u16) -> Seq<u8> {
    seq![(v >> 8) as u8, v as u8]
}

/// Big-endian bytes of a `u32`.
pub open spec fn be_bytes_u32(v: u32) -> Seq<u8> {
    seq![(v >> 24) as u8, (v >> 16) as u8, (v >> 8) as u8, v as u8]
}

/// The `u64` read back from eight big-endian bytes.
pub open spec fn u64_from_be(s: Seq<u8>) -> u64 {
    ((s[0] as u64) << 56 | (s[1] as u64) << 48 | (s[2] as u64) << 40 | (s[3] as u64) << 32 | (
    s[4] as u64) << 24 | (s[5] as u64) << 16 | (s[6] as u64) << 8 | (s[7] as u64)) as u64
}

/// The `u16` read back from two big-endian bytes.
pub open spec fn u16_from_be(s: Seq<u8>) -> u16 {
    ((s[0] as u16) << 8 | (s[1] as u16)) as u16
}

/// The `u32` read back from four big-endian bytes.
pub open spec fn u32_from_be(s: Seq<u8>) -> u32 {
    ((s[0] as u32) << 24 | (s[1] as u32) << 16 | (s[2] as u32) << 8 | (s[3] as u32)) as u32
}

/// Reading back the big-endian bytes of a value yields the value.
pub proof fn lemma_be_u64_roundtrip(v: u64)
    ensures
        u64_from_be(be_bytes_u64(v)) == v,
{
    assert((((v >> 56) as u8) as u64) << 56 | (((v >> 48) as u8) as u64) << 48 | (((v
        >> 40) as u8) as u64) << 40 | (((v >> 32) as u8) as u64) << 32 | (((v >> 24) as u8) as u64)
        << 24 | (((v >> 16) as u8) as u64) << 16 | (((v >> 8) as u8) as u64) << 8 | ((
    v as u8) as u64) == v) by (bit_vector);
}

/// Reading back the big-endian bytes of a value yields the value.
pub proof fn lemma_be_u16_roundtrip(v: u16)
    ensures
        u16_from_be(be_bytes_u16(v)) == v,
{
    assert((((v >> 8) as u8) as u16) << 8 | ((v as u8) as u16) == v) by (bit_vector);
}

/// Reading back the big-endian bytes of a value yields the value.
pub proof fn lemma_be_u32_roundtrip(v: u32)
    ensures
        u32_from_be(be_bytes_u32(v)) == v,
{
    assert((((v >> 24) as u8) as u32) << 24 | (((v >> 16) as u8) as u32) << 16 | (((v
        >> 8) as u8) as u32) << 8 | ((v as u8) as u32) == v) by (bit_vector);
}

/// The 14-byte serialization of a clock value.
pub open spec fn hlc_bytes(h: HLC) -> Seq<u8> {
    be_bytes_u64(h.physical) + be_bytes_u16(h.logical) + be_bytes_u32(h.validator_id)
}

/// Appends the big-endian bytes of a `u64`.
fn push_be_u64(out: &mut Vec<u8>, v: u64)
    ensures
        final(out)@ == old(out)@ + be_bytes_u64(v),
{
    out.push((v >> 56) as u8);
    out.push((v >> 48) as u8);
    out.push((v >> 40) as u8);
    out.push((v >> 32) as u8);
    out.push((v >> 24) as u8);
    out.push((v >> 16) as u8);
    out.push((v >> 8) as u8);
    out.push(v as u8);
    proof {
        assert(out@ =~= old(out)@ + be_bytes_u64(v));
    }
}

/// Serializes a clock value as 14 big-endian bytes.
pub fn encode_hlc(h: &HLC) -> (r: Vec<u8>)
    ensures
        r@ == hlc_bytes(*h),
        r@.len() == 14,
{
    let mut out: Vec<u8> = Vec::new();
    push_be_u64(&mut out, h.physical);
    out.push((h.logical >> 8) as u8);
    out.push(h.logical as u8);
    out.push((h.validator_id >> 24) as u8);
    out.push((h.validator_id >> 16) as u8);
    out.push((h.validator_id >> 8) as u8);
    out.push(h.validator_id as u8);
    proof {
        assert(out@ =~= hlc_bytes(*h));
    }
    out
}

/// Reads a clock value back from its 14-byte serialization; `None` for
/// any other length.
pub fn decode_hlc(bytes: &Vec<u8>) -> (r: Option<HLC>)
    ensures
        bytes@.len() != 14 ==> r is None,
        bytes@.len() == 14 ==> r == Some(
            HLC {
                physical: u64_from_be(bytes@.subrange(0, 8)),
                logical: u16_from_be(bytes@.subrange(8, 10)),
                validator_id: u32_from_be(bytes@.subrange(10, 14)),
            },
        ),
{
    if bytes.len() != 14 {
        return None;
    }
    let physical = (bytes[0] as u64) << 56 | (bytes[1] as u64) << 48 | (bytes[2] as u64) << 40 | (
    bytes[3] as u64) << 32 | (bytes[4] as u64) << 24 | (bytes[5] as u64) << 16 | (
    bytes[6] as u64) << 8 | (bytes[7] as u64);
    let logical = (bytes[8] as u16) << 8 | (bytes[9] as u16);
    let validator_id = (bytes[10] as u32) << 24 | (bytes[11] as u32) << 16 | (bytes[12] as u32)
        << 8 | (bytes[13] as u32);
    proof {
        assert(bytes@.subrange(0, 8)[0] == bytes@[0]);
    }
    Some(HLC { physical, logical, validator_id })
}

/// Decoding inverts encoding: every clock value survives the wire intact.
pub proof fn lemma_hlc_codec_roundtrip(h: HLC)
    ensures
        ({
            let bytes = hlc_bytes(h);
            &&& u64_from_be(bytes.subrange(0, 8)) == h.physical
            &&& u16_from_be(bytes.subrange(8, 10)) == h.logical
            &&& u32_from_be(bytes.subrange(10, 14)) == h.validator_id
        }),
{
    let bytes = hlc_bytes(h);
    assert(bytes.subrange(0, 8) =~= be_bytes_u64(h.physical));
    assert(bytes.subrange(8, 10) =~= be_bytes_u16(h.logical));
    assert(bytes.subrange(10, 14) =~= be_bytes_u32(h.validator_id));
    lemma_be_u64_roundtrip(h.physical);
    lemma_be_u16_roundtrip(h.logical);
    lemma_be_u32_roundtrip(h.validator_id);
}

/// A scalar padded big-endian into a fixed-width field element encoding:
/// `width - 8` zero bytes, then the scalar's eight bytes.
pub open spec fn padded_scalar_bytes(v: u64, width: nat) -> Seq<u8> {
    Seq::new((width - 8) as nat, |i: int| 0u8) + be_bytes_u64(v)
}

/// Serializes a scalar into a zero-padded field of the given width.
fn encode_padded(v: u64, width: usize) -> (r: Vec<u8>)
    requires
        width >= 8,
    ensures
        r@ == padded_scalar_bytes(v, width as nat),
        r@.len() == width,
{
    let mut out: Vec<u8> = Vec::new();
    let pad = width - 8;
    let mut i: usize = 0;
    while i < pad
        invariant
            i <= pad,
            out@.len() == i,
            forall|k: int| 0 <= k < i ==> out@[k] == 0u8,
        decreases pad - i,
    {
        out.push(0);
        i = i + 1;
    }
    push_be_u64(&mut out, v);
    proof {
        assert(out@ =~= padded_scalar_bytes(v, width as nat));
    }
    out
}

/// Reads a scalar back from a zero-padded field; `None` when the length
/// or the padding is wrong.
fn decode_padded(bytes: &Vec<u8>, width: usize) -> (r: Option<u64>)
    requires
        width >= 8,
    ensures
        r is Some <==> (bytes@.len() == width && (forall|k: int|
            0 <= k < width - 8 ==> bytes@[k] == 0u8)),
        r is Some ==> r == Some(u64_from_be(bytes@.subrange(width - 8, width as int))),
    {
    if bytes.len() != width {
        return None;
    }
    let pad = width - 8;
    let mut i: usize = 0;
    while i < pad
        invariant
            i <= pad,
            pad == width - 8,
            bytes@.len() == width,
            forall|k: int| 0 <= k < i ==> bytes@[k] == 0u8,
        decreases pad - i,
    {
        if bytes[i] != 0 {
            return None;
        }
        i = i + 1;
    }
    let v = (bytes[pad] as u64) << 56 | (bytes[pad + 1] as u64) << 48 | (bytes[pad + 2] as u64)
        << 40 | (bytes[pad + 3] as u64) << 32 | (bytes[pad + 4] as u64) << 24 | (bytes[pad
        + 5] as u64) << 16 | (bytes[pad + 6] as u64) << 8 | (bytes[pad + 7] as u64);
    proof {
        assert(bytes@.subrange(pad as int, width as int)[0] == bytes@[pad as int]);
    }
    Some(v)
}

/// Serializes a group public key as a 48-byte field element.
pub fn encode_public_key(public_key: u64) -> (r: Vec<u8>)
    ensures
        r@ == padded_scalar_bytes(public_key, 48),
        r@.len() == 48,
{
    encode_padded(public_key, 48)
}

/// Reads a group public key back from its 48-byte encoding.
pub fn decode_public_key(bytes: &Vec<u8>) -> (r: Option<u64>)
    ensures
        r is Some <==> (bytes@.len() == 48 && (forall|k: int|
            0 <= k < 40 ==> bytes@[k] == 0u8)),
        r is Some ==> r == Some(u64_from_be(bytes@.subrange(40, 48))),
{
    decode_padded(bytes, 48)
}

/// Serializes a combined signature as a 96-byte field element.
pub fn encode_signature(signature: u64) -> (r: Vec<u8>)
    ensures
        r@ == padded_scalar_bytes(signature, 96),
        r@.len() == 96,
{
    encode_padded(signature, 96)
}

/// Reads a combined signature back from its 96-byte encoding.
pub fn decode_signature(bytes: &Vec<u8>) -> (r: Option<u64>)
    ensures
        r is Some <==> (bytes@.len() == 96 && (forall|k: int|
            0 <= k < 88 ==> bytes@[k] == 0u8)),
        r is Some ==> r == Some(u64_from_be(bytes@.subrange(88, 96))),
{
    decode_padded(bytes, 96)
}

/// Decoding inverts encoding for padded scalars of any width.
pub proof fn lemma_padded_scalar_roundtrip(v: u64, width: nat)
    requires
        width >= 8,
    ensures
        padded_scalar_bytes(v, width).len() == width,
        forall|k: int| 0 <= k < width - 8 ==> padded_scalar_bytes(v, width)[k] == 0u8,
        u64_from_be(padded_scalar_bytes(v, width).subrange(width - 8, width as int)) == v,
{
    assert(padded_scalar_bytes(v, width).subrange(width - 8, width as int) =~= be_bytes_u64(v));
    lemma_be_u64_roundtrip(v);
}

} // verus!
