//! The bytes of the calls one chain asks another to dispatch, in the SCALE encoding.
use vstd::prelude::*;

verus! {

/// The `n` lowest bytes of `x`, least significant first.
pub open spec fn le_bytes(x: nat, n: nat) -> Seq<u8>
    decreases n,
{
    if n == 0 {
        Seq::empty()
    } else {
        seq![(x % 256) as u8] + le_bytes(x / 256, (n - 1) as nat)
    }
}

/// How many bytes `x` takes, at least one.
pub open spec fn min_bytes(x: nat) -> nat
    decreases x,
{
    if x < 256 {
        1
    } else {
        1 + min_bytes(x / 256)
    }
}

/// The compact SCALE encoding of a `u128`: one, two or four bytes carrying the value shifted
/// left by two with the mode in the low bits, or, from 2^30 on, a length byte followed by the
/// value's own bytes.
pub open spec fn compact_u128(x: u128) -> Seq<u8> {
    if x < 64 {
        le_bytes((x * 4) as nat, 1)
    } else if x < 16384 {
        le_bytes((x * 4 + 1) as nat, 2)
    } else if x < 1073741824 {
        le_bytes((x * 4 + 2) as nat, 4)
    } else {
        seq![((min_bytes(x as nat) - 4) * 4 + 3) as u8] + le_bytes(x as nat, min_bytes(x as nat))
    }
}

/// The SCALE encoding of an account number: its eight bytes, least significant first.
pub open spec fn account_bytes(who: u64) -> Seq<u8> {
    le_bytes(who as nat, 8)
}

/// `parity_scale_codec::Encode::encode` on `parity_scale_codec::Compact(x)`.
///
/// Claims the compact encoding as the codec's source writes it for `u128`: single-byte,
/// two-byte and four-byte modes below 2^6, 2^14 and 2^30, and above that a prefix byte
/// `((n - 4) << 2) | 3` followed by the `n` significant bytes of the value, little-endian.
#[verifier::external_body]
pub(crate) fn encode_compact_u128(x: u128) -> (r: Vec<u8>)
    ensures
        r@ == compact_u128(x),
{
    parity_scale_codec::Encode::encode(&parity_scale_codec::Compact(x))
}

/// `parity_scale_codec::Encode::encode` on a `u64`.
///
/// Claims the fixed-width encoding: the eight bytes of the value, least significant first.
#[verifier::external_body]
pub(crate) fn encode_u64(x: u64) -> (r: Vec<u8>)
    ensures
        r@ == account_bytes(x),
{
    parity_scale_codec::Encode::encode(&x)
}

/// `parity_scale_codec::Encode::encode` on a `u32`.
///
/// Claims the fixed-width encoding: the four bytes of the value, least significant first.
#[verifier::external_body]
pub(crate) fn encode_u32(x: u32) -> (r: Vec<u8>)
    ensures
        r@ == le_bytes(x as nat, 4),
{
    parity_scale_codec::Encode::encode(&x)
}

/// `parity_scale_codec::Encode::encode` on a byte vector.
///
/// Claims the codec's encoding of a sequence: the length as a compact integer, then the bytes
/// themselves. The codec panics on a length over `u32::MAX`, which is ruled out.
#[verifier::external_body]
pub(crate) fn encode_bytes(bytes: &Vec<u8>) -> (r: Vec<u8>)
    requires
        bytes@.len() <= u32::MAX,
    ensures
        r@ == compact_u128(bytes@.len() as u128) + bytes@,
{
    parity_scale_codec::Encode::encode(bytes)
}

/// A call addressed by pallet and call index, with its encoded arguments after them.
pub open spec fn call_bytes(pallet_index: u8, call_index: u8, args: Seq<u8>) -> Seq<u8> {
    seq![pallet_index, call_index] + args
}

/// Frame a call: the pallet index, the call index, then the arguments.
pub fn frame_call(pallet_index: u8, call_index: u8, mut args: Vec<u8>) -> (r: Vec<u8>)
    ensures
        r@ == call_bytes(pallet_index, call_index, args@),
{
    let mut out: Vec<u8> = Vec::new();
    out.push(pallet_index);
    out.push(call_index);
    out.append(&mut args);
    out
}

} // verus!
