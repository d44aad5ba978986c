//! Canonicalization of NaN bit patterns.
//!
//! IEEE 754 tells a signaling NaN from a quiet one by the most significant
//! mantissa bit, the quiet bit: clear means signaling.  Signaling NaNs can
//! trap on some hardware, so the read operations of this crate force the
//! quiet bit on whenever the pattern read is a NaN.  Every pattern a read
//! returns is therefore either not a NaN at all or a quiet NaN, and quiet
//! patterns pass through bit-identically.

use vstd::prelude::*;

verus! {

/// u is the bit pattern of a 32-bit NaN: all exponent bits set and a
/// nonzero mantissa.
pub open spec fn f32_is_nan_bits(u: u32) -> bool {
    u & 0x7F800000 == 0x7F800000 && u & 0x007FFFFF != 0
}

/// u is the bit pattern of a signaling 32-bit NaN: a NaN whose quiet bit
/// is clear.
pub open spec fn f32_is_signaling(u: u32) -> bool {
    f32_is_nan_bits(u) && u & 0x00400000 == 0
}

/// The pattern with signaling NaNs made quiet: a NaN gets its quiet bit
/// forced on, every other pattern passes through.
pub open spec fn canon_f32_bits(u: u32) -> u32 {
    if u & 0x7F800000 == 0x7F800000 && u & 0x007FFFFF != 0 {
        u | 0x00400000
    } else {
        u
    }
}

/// u is the bit pattern of a 64-bit NaN.
pub open spec fn f64_is_nan_bits(u: u64) -> bool {
    u & 0x7FF0000000000000 == 0x7FF0000000000000 && u & 0x000FFFFFFFFFFFFF != 0
}

/// u is the bit pattern of a signaling 64-bit NaN.
pub open spec fn f64_is_signaling(u: u64) -> bool {
    f64_is_nan_bits(u) && u & 0x0008000000000000 == 0
}

/// The pattern with signaling NaNs made quiet.
pub open spec fn canon_f64_bits(u: u64) -> u64 {
    if u & 0x7FF0000000000000 == 0x7FF0000000000000 && u & 0x000FFFFFFFFFFFFF != 0 {
        u | 0x0008000000000000
    } else {
        u
    }
}

/// What canonicalization does to a 32-bit pattern: it never yields a
/// signaling NaN, it never turns a NaN into a non-NaN or the reverse, it
/// leaves every pattern that is not a signaling NaN untouched, and doing
/// it twice is the same as doing it once.
pub proof fn lemma_canon_f32(u: u32)
    by (bit_vector)
    ensures
        !f32_is_signaling(canon_f32_bits(u)),
        f32_is_nan_bits(canon_f32_bits(u)) == f32_is_nan_bits(u),
        !f32_is_signaling(u) ==> canon_f32_bits(u) == u,
        canon_f32_bits(canon_f32_bits(u)) == canon_f32_bits(u),
{
}

/// What canonicalization does to a 64-bit pattern: it never yields a
/// signaling NaN, it never turns a NaN into a non-NaN or the reverse, it
/// leaves every pattern that is not a signaling NaN untouched, and doing
/// it twice is the same as doing it once.
pub proof fn lemma_canon_f64(u: u64)
    by (bit_vector)
    ensures
        !f64_is_signaling(canon_f64_bits(u)),
        f64_is_nan_bits(canon_f64_bits(u)) == f64_is_nan_bits(u),
        !f64_is_signaling(u) ==> canon_f64_bits(u) == u,
        canon_f64_bits(canon_f64_bits(u)) == canon_f64_bits(u),
{
}

} // verus!
