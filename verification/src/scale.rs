//! The SCALE wire format, as far as the queue reads and writes it: fixed-width
//! little-endian integers and length-prefixed byte strings.
//!
//! The bytes are produced and consumed by `parity_scale_codec`. The functions marked
//! `external_body` call it; their contracts restate what the codec does and are
//! not proved here.

use vstd::prelude::*;
use vstd::bytes::{
    lemma_auto_spec_u64_to_from_le_bytes,
    spec_u16_from_le_bytes,
    spec_u64_from_le_bytes,
    spec_u64_to_le_bytes,
};
use parity_scale_codec::{Decode, Encode};

verus! {

/// A `u16` at the front of `input`: two bytes, least significant first, and what follows.
pub open spec fn fixed_u16(input: Seq<u8>) -> Option<(u16, Seq<u8>)> {
    if input.len() >= 2 {
        Some((spec_u16_from_le_bytes(input.subrange(0, 2)), input.skip(2)))
    } else {
        None
    }
}

/// A `u64` at the front of `input`: eight bytes, least significant first, and what follows.
pub open spec fn fixed_u64(input: Seq<u8>) -> Option<(u64, Seq<u8>)> {
    if input.len() >= 8 {
        Some((spec_u64_from_le_bytes(input.subrange(0, 8)), input.skip(8)))
    } else {
        None
    }
}

/// A compact 32-bit length at the front of `input`: the length and the number of bytes
/// it occupies. The two low bits of the first byte select one of four widths; a length
/// written wider than necessary is rejected.
pub open spec fn compact_length(input: Seq<u8>) -> Option<(nat, nat)> {
    if input.len() == 0 {
        None
    } else {
        let first = input[0] as nat;
        if first % 4 == 0 {
            Some((first / 4, 1))
        } else if first % 4 == 1 {
            let wide = (first + 256 * input[1] as nat) / 4;
            if input.len() >= 2 && wide > 63 {
                Some((wide, 2))
            } else {
                None
            }
        } else if first % 4 == 2 {
            let wide = (first + 256 * input[1] as nat + 65536 * input[2] as nat + 16777216
                * input[3] as nat) / 4;
            if input.len() >= 4 && wide > 16383 {
                Some((wide, 4))
            } else {
                None
            }
        } else {
            let wide = input[1] as nat + 256 * input[2] as nat + 65536 * input[3] as nat
                + 16777216 * input[4] as nat;
            if first == 3 && input.len() >= 5 && wide > 0x3fff_ffff {
                Some((wide, 5))
            } else {
                None
            }
        }
    }
}

/// A byte string at the front of `input`: a compact length, then that many bytes, and
/// what follows them.
#[verifier::opaque]
pub open spec fn length_prefixed(input: Seq<u8>) -> Option<(Seq<u8>, Seq<u8>)> {
    match compact_length(input) {
        Some((len, used)) => if input.len() - used >= len {
            Some((input.subrange(used as int, (used + len) as int), input.skip((used + len) as int)))
        } else {
            None
        },
        None => None,
    }
}

/// Calls `parity_scale_codec::Encode::encode` on a `u64`. The codec writes the eight
/// bytes of the number, least significant first.
#[verifier::external_body]
fn scale_encode_u64(n: u64) -> (out: Vec<u8>)
    ensures
        out@ == spec_u64_to_le_bytes(n),
{
    Encode::encode(&n)
}

/// Calls `parity_scale_codec::Decode::decode` for `u16` on a byte slice. The codec
/// fails on fewer than two bytes; otherwise it reads two bytes, least significant
/// first, and leaves the slice at the byte after them. Returns the number and the
/// rest of the slice, or `None` where the codec fails.
#[verifier::external_body]
pub(crate) fn scale_decode_u16(input: &[u8]) -> (r: Option<(u16, &[u8])>)
    ensures
        r is Some <==> fixed_u16(input@) is Some,
        r matches Some((value, rest)) ==> fixed_u16(input@) == Some((value, rest@)),
{
    let mut rest = input;
    let value = <u16 as Decode>::decode(&mut rest).ok()?;
    Some((value, rest))
}

/// Calls `parity_scale_codec::Decode::decode` for `u64` on a byte slice. The codec
/// fails on fewer than eight bytes; otherwise it reads eight bytes, least significant
/// first, and leaves the slice at the byte after them. Returns the number and the
/// rest of the slice, or `None` where the codec fails.
#[verifier::external_body]
pub(crate) fn scale_decode_u64(input: &[u8]) -> (r: Option<(u64, &[u8])>)
    ensures
        r is Some <==> fixed_u64(input@) is Some,
        r matches Some((value, rest)) ==> fixed_u64(input@) == Some((value, rest@)),
{
    let mut rest = input;
    let value = <u64 as Decode>::decode(&mut rest).ok()?;
    Some((value, rest))
}

/// Calls `parity_scale_codec::Decode::decode` for `Vec<u8>` on a byte slice. The codec
/// reads a compact length, fails where it is malformed or promises more bytes than
/// remain, and otherwise reads that many bytes and leaves the slice behind them.
/// Returns the bytes and the rest of the slice, or `None` where the codec fails.
#[verifier::external_body]
pub(crate) fn scale_decode_bytes(input: &[u8]) -> (r: Option<(Vec<u8>, &[u8])>)
    ensures
        r is Some <==> length_prefixed(input@) is Some,
        r matches Some((value, rest)) ==> length_prefixed(input@) == Some((value@, rest@)),
{
    let mut rest = input;
    let value = <Vec<u8> as Decode>::decode(&mut rest).ok()?;
    Some((value, rest))
}

/// The number a stored marker stands for: its first eight bytes, least significant
/// first. A value shorter than that is no marker.
pub open spec fn marker_value(stored: Seq<u8>) -> Option<u64> {
    match fixed_u64(stored) {
        Some((value, _)) => Some(value),
        None => None,
    }
}

/// The bytes that are stored for the marker `n`.
pub open spec fn marker_bytes(n: u64) -> Seq<u8> {
    spec_u64_to_le_bytes(n)
}

/// Encodes a cursor or counter value for storage.
pub fn encode_marker(n: u64) -> (out: Vec<u8>)
    ensures
        out@ == marker_bytes(n),
{
    scale_encode_u64(n)
}

/// Decodes a stored cursor or counter value.
pub fn decode_marker(stored: &[u8]) -> (r: Option<u64>)
    ensures
        r == marker_value(stored@),
{
    match scale_decode_u64(stored) {
        Some((value, _)) => Some(value),
        None => None,
    }
}

/// What was encoded as a marker decodes to the same number.
pub proof fn lemma_marker_round_trip(n: u64)
    ensures
        marker_value(marker_bytes(n)) == Some(n),
{
    lemma_auto_spec_u64_to_from_le_bytes();
    let bytes = spec_u64_to_le_bytes(n);
    assert(bytes.subrange(0, 8) =~= bytes);
}

} // verus!
