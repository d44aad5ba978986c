//! The laws of the codec, stated over the same specification model that
//! every operation's contract uses.
//!
//! The write operations leave exactly `O::encoding(v, n)` in the buffer
//! and the read operations return `O::word` of the bytes read (with sign
//! extension or NaN canonicalization applied, where the operation calls
//! for it), so each law below is the round-trip or ordering statement for
//! the corresponding pair of operations.

use crate::nan::canon_f32_bits;
use crate::nan::canon_f64_bits;
use crate::nan::f32_is_signaling;
use crate::nan::f64_is_signaling;
use crate::nan::lemma_canon_f32;
use crate::nan::lemma_canon_f64;
use crate::order::BigEndian;
use crate::order::ByteOrder;
use crate::order::LittleEndian;
use crate::repr::be_bytes;
use crate::repr::le_bytes;
use crate::repr::lemma_be_bytes_is_reverse;
use crate::repr::lemma_le_bytes_len;
use crate::repr::lemma_pow256_values;
use crate::repr::pow256;
use crate::sign::fits_signed;
use crate::sign::lemma_sign_round_trip;
use crate::sign::sign_extended;
use crate::sign::sign_unextended;
use vstd::arithmetic::div_mod::lemma_mod_bound;
use vstd::arithmetic::power2::lemma_pow2_pos;
use vstd::prelude::*;

verus! {

/// Unsigned round trip, fixed or variable width: the n-byte encoding of a
/// value that fits in n bytes has length n and decodes to that value, in
/// either ordering.  Writing v with `write_uint` (or a fixed-width write)
/// and reading the same n bytes back therefore returns v.
pub proof fn lemma_unsigned_round_trip<O: ByteOrder>(v: nat, n: nat)
    requires
        v < pow256(n),
    ensures
        O::encoding(v, n).len() == n,
        O::word(O::encoding(v, n)) == v,
{
    O::encoding_spec(v, n);
}

/// Signed round trip: a value in the n-byte signed range, narrowed to its
/// n-byte pattern as `write_int` writes it, decodes back to itself under
/// the sign extension that `read_int` applies, in either ordering.
pub proof fn lemma_signed_round_trip<O: ByteOrder>(v: int, n: nat)
    requires
        fits_signed(v, n),
    ensures
        sign_extended(O::word(O::encoding(sign_unextended(v, n), n)), n) == v,
{
    lemma_pow2_pos(8 * n);
    lemma_mod_bound(v, pow256(n) as int);
    O::encoding_spec(sign_unextended(v, n), n);
    lemma_sign_round_trip(v, n);
}

/// Cross-ordering inequality: whenever byte i of the little-endian
/// encoding differs from its mirror-image byte, the big-endian and
/// little-endian encodings of the value are distinct byte strings.  Only
/// values with palindromic encodings look the same in both orderings.
pub proof fn lemma_cross_ordering_distinct(v: nat, n: nat, i: int)
    requires
        0 <= i < n,
        le_bytes(v, n)[i] != le_bytes(v, n)[n - 1 - i],
    ensures
        <BigEndian as ByteOrder>::encoding(v, n) != <LittleEndian as ByteOrder>::encoding(v, n),
{
    lemma_le_bytes_len(v, n);
    lemma_be_bytes_is_reverse(v, n);
    assert(be_bytes(v, n)[i] == le_bytes(v, n)[n - 1 - i]);
}

/// Float round trip with NaN canonicalization, 32-bit: writing any
/// pattern q that is not a signaling NaN (every quiet NaN included) and
/// reading it back yields q bit-identically; writing a signaling NaN
/// yields the quiet NaN with the same payload; and what a read returns is
/// never a signaling NaN.
pub proof fn lemma_f32_round_trip<O: ByteOrder>(q: u32)
    ensures
        !f32_is_signaling(q) ==> canon_f32_bits(O::word(O::encoding(q as nat, 4)) as u32) == q,
        f32_is_signaling(q) ==> canon_f32_bits(O::word(O::encoding(q as nat, 4)) as u32) == q
            | 0x00400000,
        !f32_is_signaling(canon_f32_bits(O::word(O::encoding(q as nat, 4)) as u32)),
{
    lemma_pow256_values();
    O::encoding_spec(q as nat, 4);
    lemma_canon_f32(q);
}

/// Float round trip with NaN canonicalization, 64-bit: writing any
/// pattern q that is not a signaling NaN and reading it back yields q
/// bit-identically; writing a signaling NaN yields the quiet NaN with the
/// same payload; and what a read returns is never a signaling NaN.
pub proof fn lemma_f64_round_trip<O: ByteOrder>(q: u64)
    ensures
        !f64_is_signaling(q) ==> canon_f64_bits(O::word(O::encoding(q as nat, 8)) as u64) == q,
        f64_is_signaling(q) ==> canon_f64_bits(O::word(O::encoding(q as nat, 8)) as u64) == q
            | 0x0008000000000000,
        !f64_is_signaling(canon_f64_bits(O::word(O::encoding(q as nat, 8)) as u64)),
{
    lemma_pow256_values();
    O::encoding_spec(q as nat, 8);
    lemma_canon_f64(q);
}

} // verus!
