//! The byte orderings and their conversion operations.
//!
//! [`ByteOrder`] is the operation set shared by [`BigEndian`] and
//! [`LittleEndian`]: reading and writing unsigned, signed and
//! floating-point-bit values at fixed and variable widths.  The two
//! implementing types carry no data; an ordering is chosen purely at the
//! type level, as in `LittleEndian::read_u32(buf)`.
//!
//! Only the two variable-width 128-bit operations differ between the
//! orderings; every other operation is derived from them once, here in the
//! trait.  Each ordering supplies its interpretation of byte strings
//! ([`ByteOrder::word`]) and its encoding function ([`ByteOrder::encoding`]),
//! and all contracts are stated over those.

use crate::nan::canon_f32_bits;
use crate::nan::canon_f64_bits;
use crate::repr::be_bytes;
use crate::repr::be_value;
use crate::repr::le_bytes;
use crate::repr::le_value;
use crate::repr::lemma_be_bytes_index;
use crate::repr::lemma_be_bytes_len;
use crate::repr::lemma_be_value_bound;
use crate::repr::lemma_be_value_of_be_bytes;
use crate::repr::lemma_le_bytes_index;
use crate::repr::lemma_le_bytes_len;
use crate::repr::lemma_le_value_bound;
use crate::repr::lemma_le_value_of_le_bytes;
use crate::repr::lemma_pow256_increases;
use crate::repr::lemma_pow256_unfold;
use crate::repr::lemma_pow256_values;
use crate::repr::pow256;
use crate::sign::extend_sign;
use crate::sign::extend_sign128;
use crate::sign::fits_signed;
use crate::sign::sign_extended;
use crate::sign::sign_unextended;
use crate::sign::unextend_sign;
use crate::sign::unextend_sign128;
use vstd::arithmetic::div_mod::*;
use vstd::arithmetic::mul::lemma_mul_inequality;
use vstd::arithmetic::power2::*;
use vstd::bits::lemma_u64_shl_is_mul;
use vstd::prelude::*;

verus! {

/// Implemented only by the orderings of this crate; keeps [`ByteOrder`]
/// from being implemented elsewhere.
pub trait Sealed {

}

/// A byte ordering: an interpretation of byte strings as numbers, an
/// encoding of numbers as byte strings, and the conversion operations
/// specified by them.
pub trait ByteOrder: Sealed {
    /// The number a byte string denotes in this ordering.
    spec fn word(s: Seq<u8>) -> nat;

    /// The n-byte encoding of v in this ordering.
    spec fn encoding(v: nat, n: nat) -> Seq<u8>;

    /// A byte string of length n denotes a number below 256^n.
    proof fn word_bounded(s: Seq<u8>)
        ensures
            Self::word(s) < pow256(s.len()),
    ;

    /// The encoding of a value that fits in n bytes has length n and
    /// denotes that value.
    proof fn encoding_spec(v: nat, n: nat)
        requires
            v < pow256(n),
        ensures
            Self::encoding(v, n).len() == n,
            Self::word(Self::encoding(v, n)) == v,
    ;

    /// Reads an unsigned `nbytes`-byte integer from the start of `buf`.
    fn read_uint128(buf: &[u8], nbytes: usize) -> (r: u128)
        requires
            1 <= nbytes <= 16,
            nbytes <= buf@.len(),
        ensures
            r as nat == Self::word(buf@.take(nbytes as int)),
    ;

    /// Writes the `nbytes`-byte encoding of `n` to the start of `buf`,
    /// leaving the rest of `buf` unchanged.
    fn write_uint128(buf: &mut [u8], n: u128, nbytes: usize)
        requires
            1 <= nbytes <= 16,
            (n as nat) < pow256(nbytes as nat),
            nbytes <= old(buf)@.len(),
        ensures
            final(buf)@.len() == old(buf)@.len(),
            final(buf)@.take(nbytes as int) == Self::encoding(n as nat, nbytes as nat),
            final(buf)@.skip(nbytes as int) == old(buf)@.skip(nbytes as int),
    ;

    /// Reads an unsigned `nbytes`-byte integer, 1 to 8 bytes, from the
    /// start of `buf`.
    fn read_uint(buf: &[u8], nbytes: usize) -> (r: u64)
        requires
            1 <= nbytes <= 8,
            nbytes <= buf@.len(),
        ensures
            r as nat == Self::word(buf@.take(nbytes as int)),
    {
        proof {
            Self::word_bounded(buf@.take(nbytes as int));
            lemma_pow256_increases(nbytes as nat, 8);
            lemma_pow256_values();
        }
        Self::read_uint128(buf, nbytes) as u64
    }

    /// Reads an unsigned 16-bit integer from the first 2 bytes of `buf`.
    fn read_u16(buf: &[u8]) -> (r: u16)
        requires
            buf@.len() >= 2,
        ensures
            r as nat == Self::word(buf@.take(2)),
    {
        proof {
            Self::word_bounded(buf@.take(2));
            lemma_pow256_values();
        }
        Self::read_uint128(buf, 2) as u16
    }

    /// Reads an unsigned 32-bit integer from the first 4 bytes of `buf`.
    fn read_u32(buf: &[u8]) -> (r: u32)
        requires
            buf@.len() >= 4,
        ensures
            r as nat == Self::word(buf@.take(4)),
    {
        proof {
            Self::word_bounded(buf@.take(4));
            lemma_pow256_values();
        }
        Self::read_uint128(buf, 4) as u32
    }

    /// Reads an unsigned 64-bit integer from the first 8 bytes of `buf`.
    fn read_u64(buf: &[u8]) -> (r: u64)
        requires
            buf@.len() >= 8,
        ensures
            r as nat == Self::word(buf@.take(8)),
    {
        proof {
            Self::word_bounded(buf@.take(8));
            lemma_pow256_values();
        }
        Self::read_uint128(buf, 8) as u64
    }

    /// Reads an unsigned 128-bit integer from the first 16 bytes of `buf`.
    fn read_u128(buf: &[u8]) -> (r: u128)
        requires
            buf@.len() >= 16,
        ensures
            r as nat == Self::word(buf@.take(16)),
    {
        Self::read_uint128(buf, 16)
    }

    /// Writes the `nbytes`-byte encoding of `n`, 1 to 8 bytes, to the
    /// start of `buf`, leaving the rest of `buf` unchanged.
    fn write_uint(buf: &mut [u8], n: u64, nbytes: usize)
        requires
            1 <= nbytes <= 8,
            (n as nat) < pow256(nbytes as nat),
            nbytes <= old(buf)@.len(),
        ensures
            final(buf)@.len() == old(buf)@.len(),
            final(buf)@.take(nbytes as int) == Self::encoding(n as nat, nbytes as nat),
            final(buf)@.skip(nbytes as int) == old(buf)@.skip(nbytes as int),
    {
        Self::write_uint128(buf, n as u128, nbytes)
    }

    /// Writes the 2-byte encoding of `n` to the start of `buf`, leaving
    /// the rest of `buf` unchanged.
    fn write_u16(buf: &mut [u8], n: u16)
        requires
            old(buf)@.len() >= 2,
        ensures
            final(buf)@.len() == old(buf)@.len(),
            final(buf)@.take(2) == Self::encoding(n as nat, 2),
            final(buf)@.skip(2) == old(buf)@.skip(2),
    {
        proof {
            lemma_pow256_values();
        }
        Self::write_uint128(buf, n as u128, 2)
    }

    /// Writes the 4-byte encoding of `n` to the start of `buf`, leaving
    /// the rest of `buf` unchanged.
    fn write_u32(buf: &mut [u8], n: u32)
        requires
            old(buf)@.len() >= 4,
        ensures
            final(buf)@.len() == old(buf)@.len(),
            final(buf)@.take(4) == Self::encoding(n as nat, 4),
            final(buf)@.skip(4) == old(buf)@.skip(4),
    {
        proof {
            lemma_pow256_values();
        }
        Self::write_uint128(buf, n as u128, 4)
    }

    /// Writes the 8-byte encoding of `n` to the start of `buf`, leaving
    /// the rest of `buf` unchanged.
    fn write_u64(buf: &mut [u8], n: u64)
        requires
            old(buf)@.len() >= 8,
        ensures
            final(buf)@.len() == old(buf)@.len(),
            final(buf)@.take(8) == Self::encoding(n as nat, 8),
            final(buf)@.skip(8) == old(buf)@.skip(8),
    {
        proof {
            lemma_pow256_values();
        }
        Self::write_uint128(buf, n as u128, 8)
    }

    /// Writes the 16-byte encoding of `n` to the start of `buf`, leaving
    /// the rest of `buf` unchanged.
    fn write_u128(buf: &mut [u8], n: u128)
        requires
            old(buf)@.len() >= 16,
        ensures
            final(buf)@.len() == old(buf)@.len(),
            final(buf)@.take(16) == Self::encoding(n as nat, 16),
            final(buf)@.skip(16) == old(buf)@.skip(16),
    {
        proof {
            lemma_pow256_values();
        }
        Self::write_uint128(buf, n, 16)
    }

    /// Reads a signed 16-bit integer from the first 2 bytes of `buf`: the
    /// unsigned pattern reinterpreted as two's complement.
    fn read_i16(buf: &[u8]) -> (r: i16)
        requires
            buf@.len() >= 2,
        ensures
            r as int == sign_extended(Self::word(buf@.take(2)), 2),
    {
        let u = Self::read_u16(buf);
        let r = #[verifier::truncate] (u as i16);
        proof {
            Self::word_bounded(buf@.take(2));
            lemma_pow256_values();
            lemma_small_mod(Self::word(buf@.take(2)), pow256(2));
            assert(u < 0x8000 ==> u as i16 == u) by (bit_vector);
            assert(u >= 0x8000 ==> u as i16 == (u - 0x8000) - 0x8000) by (bit_vector);
        }
        r
    }

    /// Reads a signed 32-bit integer from the first 4 bytes of `buf`.
    fn read_i32(buf: &[u8]) -> (r: i32)
        requires
            buf@.len() >= 4,
        ensures
            r as int == sign_extended(Self::word(buf@.take(4)), 4),
    {
        let u = Self::read_u32(buf);
        let r = #[verifier::truncate] (u as i32);
        proof {
            Self::word_bounded(buf@.take(4));
            lemma_pow256_values();
            lemma_small_mod(Self::word(buf@.take(4)), pow256(4));
            assert(u < 0x80000000 ==> u as i32 == u) by (bit_vector);
            assert(u >= 0x80000000 ==> u as i32 == (u - 0x80000000) - 0x80000000)
                by (bit_vector);
        }
        r
    }

    /// Reads a signed 64-bit integer from the first 8 bytes of `buf`.
    fn read_i64(buf: &[u8]) -> (r: i64)
        requires
            buf@.len() >= 8,
        ensures
            r as int == sign_extended(Self::word(buf@.take(8)), 8),
    {
        let u = Self::read_u64(buf);
        let r = #[verifier::truncate] (u as i64);
        proof {
            Self::word_bounded(buf@.take(8));
            lemma_pow256_values();
            lemma_small_mod(Self::word(buf@.take(8)), pow256(8));
            assert(u < 0x8000000000000000 ==> u as i64 == u) by (bit_vector);
            assert(u >= 0x8000000000000000 ==> u as i64 == (u - 0x8000000000000000)
                - 0x8000000000000000) by (bit_vector);
        }
        r
    }

    /// Reads a signed 128-bit integer from the first 16 bytes of `buf`.
    fn read_i128(buf: &[u8]) -> (r: i128)
        requires
            buf@.len() >= 16,
        ensures
            r as int == sign_extended(Self::word(buf@.take(16)), 16),
    {
        let u = Self::read_u128(buf);
        let r = #[verifier::truncate] (u as i128);
        proof {
            Self::word_bounded(buf@.take(16));
            lemma_pow256_values();
            lemma_small_mod(Self::word(buf@.take(16)), pow256(16));
            assert(u < 0x80000000000000000000000000000000 ==> u as i128 == u) by (bit_vector);
            assert(u >= 0x80000000000000000000000000000000 ==> u as i128 == (u
                - 0x80000000000000000000000000000000) - 0x80000000000000000000000000000000)
                by (bit_vector);
        }
        r
    }

    /// Reads a signed `nbytes`-byte integer, 1 to 8 bytes, from the start
    /// of `buf`, sign-extending the highest of the `nbytes` bytes.
    fn read_int(buf: &[u8], nbytes: usize) -> (r: i64)
        requires
            1 <= nbytes <= 8,
            nbytes <= buf@.len(),
        ensures
            r as int == sign_extended(Self::word(buf@.take(nbytes as int)), nbytes as nat),
    {
        let u = Self::read_uint(buf, nbytes);
        extend_sign(u, nbytes)
    }

    /// Reads a signed `nbytes`-byte integer, 1 to 16 bytes, from the start
    /// of `buf`, sign-extending the highest of the `nbytes` bytes.
    fn read_int128(buf: &[u8], nbytes: usize) -> (r: i128)
        requires
            1 <= nbytes <= 16,
            nbytes <= buf@.len(),
        ensures
            r as int == sign_extended(Self::word(buf@.take(nbytes as int)), nbytes as nat),
    {
        let u = Self::read_uint128(buf, nbytes);
        extend_sign128(u, nbytes)
    }

    /// Writes the 2-byte two's-complement encoding of `n` to the start of
    /// `buf`, leaving the rest of `buf` unchanged.
    fn write_i16(buf: &mut [u8], n: i16)
        requires
            old(buf)@.len() >= 2,
        ensures
            final(buf)@.len() == old(buf)@.len(),
            final(buf)@.take(2) == Self::encoding(sign_unextended(n as int, 2), 2),
            final(buf)@.skip(2) == old(buf)@.skip(2),
    {
        let u = #[verifier::truncate] (n as u16);
        proof {
            lemma_pow256_values();
            assert(n >= 0 ==> n as u16 == n) by (bit_vector);
            assert(n < 0 ==> n as u16 == (n + 0x8000) + 0x8000) by (bit_vector);
            if n >= 0 {
                lemma_small_mod(n as nat, pow256(2));
            } else {
                lemma_mod_multiples_vanish(1, n as int, pow256(2) as int);
                lemma_small_mod((n + 0x10000) as nat, pow256(2));
            }
        }
        Self::write_uint128(buf, u as u128, 2)
    }

    /// Writes the 4-byte two's-complement encoding of `n` to the start of
    /// `buf`, leaving the rest of `buf` unchanged.
    fn write_i32(buf: &mut [u8], n: i32)
        requires
            old(buf)@.len() >= 4,
        ensures
            final(buf)@.len() == old(buf)@.len(),
            final(buf)@.take(4) == Self::encoding(sign_unextended(n as int, 4), 4),
            final(buf)@.skip(4) == old(buf)@.skip(4),
    {
        let u = #[verifier::truncate] (n as u32);
        proof {
            lemma_pow256_values();
            assert(n >= 0 ==> n as u32 == n) by (bit_vector);
            assert(n < 0 ==> n as u32 == (n + 0x80000000) + 0x80000000) by (bit_vector);
            if n >= 0 {
                lemma_small_mod(n as nat, pow256(4));
            } else {
                lemma_mod_multiples_vanish(1, n as int, pow256(4) as int);
                lemma_small_mod((n + 0x100000000) as nat, pow256(4));
            }
        }
        Self::write_uint128(buf, u as u128, 4)
    }

    /// Writes the 8-byte two's-complement encoding of `n` to the start of
    /// `buf`, leaving the rest of `buf` unchanged.
    fn write_i64(buf: &mut [u8], n: i64)
        requires
            old(buf)@.len() >= 8,
        ensures
            final(buf)@.len() == old(buf)@.len(),
            final(buf)@.take(8) == Self::encoding(sign_unextended(n as int, 8), 8),
            final(buf)@.skip(8) == old(buf)@.skip(8),
    {
        let u = #[verifier::truncate] (n as u64);
        proof {
            lemma_pow256_values();
            assert(n >= 0 ==> n as u64 == n) by (bit_vector);
            assert(n < 0 ==> n as u64 == (n + 0x8000000000000000) + 0x8000000000000000)
                by (bit_vector);
            if n >= 0 {
                lemma_small_mod(n as nat, pow256(8));
            } else {
                lemma_mod_multiples_vanish(1, n as int, pow256(8) as int);
                lemma_small_mod((n + 0x10000000000000000) as nat, pow256(8));
            }
        }
        Self::write_uint128(buf, u as u128, 8)
    }

    /// Writes the 16-byte two's-complement encoding of `n` to the start of
    /// `buf`, leaving the rest of `buf` unchanged.
    fn write_i128(buf: &mut [u8], n: i128)
        requires
            old(buf)@.len() >= 16,
        ensures
            final(buf)@.len() == old(buf)@.len(),
            final(buf)@.take(16) == Self::encoding(sign_unextended(n as int, 16), 16),
            final(buf)@.skip(16) == old(buf)@.skip(16),
    {
        let u = #[verifier::truncate] (n as u128);
        proof {
            lemma_pow256_values();
            assert(n >= 0 ==> n as u128 == n) by (bit_vector);
            assert(n < 0 ==> n as u128 == (n + 0x80000000000000000000000000000000)
                + 0x80000000000000000000000000000000) by (bit_vector);
            if n >= 0 {
                lemma_small_mod(n as nat, pow256(16));
            } else {
                lemma_mod_multiples_vanish(1, n as int, pow256(16) as int);
                lemma_small_mod((n + 0x100000000000000000000000000000000) as nat, pow256(16));
            }
        }
        Self::write_uint128(buf, u, 16)
    }

    /// Writes the `nbytes`-byte two's-complement encoding of `n`, 1 to 8
    /// bytes, to the start of `buf`, leaving the rest of `buf` unchanged.
    /// `n` must fit in `nbytes` bytes as a signed number.
    fn write_int(buf: &mut [u8], n: i64, nbytes: usize)
        requires
            1 <= nbytes <= 8,
            fits_signed(n as int, nbytes as nat),
            nbytes <= old(buf)@.len(),
        ensures
            final(buf)@.len() == old(buf)@.len(),
            final(buf)@.take(nbytes as int) == Self::encoding(
                sign_unextended(n as int, nbytes as nat),
                nbytes as nat,
            ),
            final(buf)@.skip(nbytes as int) == old(buf)@.skip(nbytes as int),
    {
        let u = unextend_sign(n, nbytes);
        proof {
            lemma_pow2_pos(8 * (nbytes as nat));
            lemma_mod_bound(n as int, pow256(nbytes as nat) as int);
        }
        Self::write_uint(buf, u, nbytes)
    }

    /// Writes the `nbytes`-byte two's-complement encoding of `n`, 1 to 16
    /// bytes, to the start of `buf`, leaving the rest of `buf` unchanged.
    /// `n` must fit in `nbytes` bytes as a signed number.
    fn write_int128(buf: &mut [u8], n: i128, nbytes: usize)
        requires
            1 <= nbytes <= 16,
            fits_signed(n as int, nbytes as nat),
            nbytes <= old(buf)@.len(),
        ensures
            final(buf)@.len() == old(buf)@.len(),
            final(buf)@.take(nbytes as int) == Self::encoding(
                sign_unextended(n as int, nbytes as nat),
                nbytes as nat,
            ),
            final(buf)@.skip(nbytes as int) == old(buf)@.skip(nbytes as int),
    {
        let u = unextend_sign128(n, nbytes);
        proof {
            lemma_pow2_pos(8 * (nbytes as nat));
            lemma_mod_bound(n as int, pow256(nbytes as nat) as int);
        }
        Self::write_uint128(buf, u, nbytes)
    }

    /// Reads the bit pattern of a 32-bit float from the first 4 bytes of
    /// `buf`.  A signaling NaN pattern comes back with its quiet bit
    /// forced on, so the pattern read never encodes a signaling NaN.
    fn read_f32_bits(buf: &[u8]) -> (r: u32)
        requires
            buf@.len() >= 4,
        ensures
            r == canon_f32_bits(Self::word(buf@.take(4)) as u32),
    {
        let u = Self::read_u32(buf);
        if (u & 0x7F800000) == 0x7F800000 && (u & 0x007FFFFF) != 0 {
            u | 0x00400000
        } else {
            u
        }
    }

    /// Reads the bit pattern of a 64-bit float from the first 8 bytes of
    /// `buf`.  A signaling NaN pattern comes back with its quiet bit
    /// forced on, so the pattern read never encodes a signaling NaN.
    fn read_f64_bits(buf: &[u8]) -> (r: u64)
        requires
            buf@.len() >= 8,
        ensures
            r == canon_f64_bits(Self::word(buf@.take(8)) as u64),
    {
        let u = Self::read_u64(buf);
        if (u & 0x7FF0000000000000) == 0x7FF0000000000000 && (u & 0x000FFFFFFFFFFFFF) != 0 {
            u | 0x0008000000000000
        } else {
            u
        }
    }

    /// Reads the first `nbytes` bytes of `buf`, 1 to 8, as the most
    /// significant bytes of a 64-bit float's pattern, fills the remaining
    /// low-order bytes with zero, and forces a signaling NaN pattern
    /// quiet.  Narrow wire formats store a double this way, cutting
    /// trailing mantissa bytes to save space.
    fn read_float_bits(buf: &[u8], nbytes: usize) -> (r: u64)
        requires
            1 <= nbytes <= 8,
            nbytes <= buf@.len(),
        ensures
            r == canon_f64_bits(
                (Self::word(buf@.take(nbytes as int)) * pow256((8 - nbytes) as nat)) as u64,
            ),
    {
        let v = Self::read_uint(buf, nbytes);
        let shift = ((8 - nbytes) * 8) as u64;
        proof {
            Self::word_bounded(buf@.take(nbytes as int));
            lemma_pow256_values();
            lemma_pow2_adds(8 * (nbytes as nat), 8 * ((8 - nbytes) as nat));
            lemma_pow2_pos(8 * ((8 - nbytes) as nat));
            lemma_mul_inequality(
                v as int,
                pow256(nbytes as nat) as int - 1,
                pow256((8 - nbytes) as nat) as int,
            );
            assert((pow256(nbytes as nat) as int - 1) * (pow256((8 - nbytes) as nat) as int)
                == pow256(nbytes as nat) * pow256((8 - nbytes) as nat) - pow256(
                (8 - nbytes) as nat,
            )) by (nonlinear_arith);
            lemma_u64_shl_is_mul(v, shift);
        }
        let u = v << shift;
        if (u & 0x7FF0000000000000) == 0x7FF0000000000000 && (u & 0x000FFFFFFFFFFFFF) != 0 {
            u | 0x0008000000000000
        } else {
            u
        }
    }
}

/// Big-endian byte order: the most significant byte is stored first.
///
/// The type carries no data; it is used purely at the type level.
#[derive(Clone, Copy, Debug, Eq, Hash, Ord, PartialEq, PartialOrd)]
pub struct BigEndian;

/// Little-endian byte order: the least significant byte is stored first.
///
/// The type carries no data; it is used purely at the type level.
#[derive(Clone, Copy, Debug, Eq, Hash, Ord, PartialEq, PartialOrd)]
pub struct LittleEndian;

/// Network byte order, which RFC 1700 defines to be big-endian.
pub type NetworkEndian = BigEndian;

/// The byte order of the targets this crate is built for; an alias of
/// [`LittleEndian`].
pub type NativeEndian = LittleEndian;

impl Sealed for BigEndian {

}

impl Sealed for LittleEndian {

}

impl ByteOrder for BigEndian {
    open spec fn word(s: Seq<u8>) -> nat {
        be_value(s)
    }

    open spec fn encoding(v: nat, n: nat) -> Seq<u8> {
        be_bytes(v, n)
    }

    proof fn word_bounded(s: Seq<u8>) {
        lemma_be_value_bound(s);
    }

    proof fn encoding_spec(v: nat, n: nat) {
        lemma_be_bytes_len(v, n);
        lemma_be_value_of_be_bytes(v, n);
        lemma_pow2_pos(8 * n);
        lemma_small_mod(v, pow256(n));
    }

    fn read_uint128(buf: &[u8], nbytes: usize) -> (r: u128) {
        let mut acc: u128 = 0;
        let mut i: usize = 0;
        while i < nbytes
            invariant
                0 <= i <= nbytes <= 16,
                nbytes <= buf@.len(),
                acc as nat == be_value(buf@.take(i as int)),
            decreases nbytes - i,
        {
            proof {
                lemma_be_value_bound(buf@.take(i as int));
                lemma_pow256_increases(i as nat, 15);
                lemma_pow256_values();
                lemma_pow256_unfold(16);
                assert(buf@.take(i + 1).drop_last() =~= buf@.take(i as int));
            }
            acc = acc * 256 + (buf[i] as u128);
            i = i + 1;
        }
        acc
    }

    fn write_uint128(buf: &mut [u8], n: u128, nbytes: usize) {
        let ghost orig = buf@;
        let mut cur = n;
        let mut i: usize = nbytes;
        proof {
            lemma_pow256_values();
            lemma_div_basics(n as int);
        }
        while i > 0
            invariant
                0 <= i <= nbytes <= 16,
                nbytes <= buf@.len(),
                buf@.len() == orig.len(),
                cur as nat == (n as nat) / pow256((nbytes - i) as nat),
                forall|j: int| i <= j < nbytes ==> buf@[j] == be_bytes(n as nat, nbytes as nat)[j],
                forall|j: int| 0 <= j < i ==> buf@[j] == orig[j],
                forall|j: int| nbytes <= j < buf@.len() ==> buf@[j] == orig[j],
            decreases i,
        {
            proof {
                lemma_be_bytes_index(n as nat, nbytes as nat, i - 1);
                lemma_pow2_pos(8 * ((nbytes - i) as nat));
                lemma_div_denominator(n as int, pow256((nbytes - i) as nat) as int, 256);
                lemma_pow256_unfold((nbytes - i + 1) as nat);
            }
            i = i - 1;
            buf[i] = (cur % 256) as u8;
            cur = cur / 256;
        }
        proof {
            lemma_be_bytes_len(n as nat, nbytes as nat);
            assert(buf@.take(nbytes as int) =~= be_bytes(n as nat, nbytes as nat));
            assert(buf@.skip(nbytes as int) =~= orig.skip(nbytes as int));
        }
    }
}

impl ByteOrder for LittleEndian {
    open spec fn word(s: Seq<u8>) -> nat {
        le_value(s)
    }

    open spec fn encoding(v: nat, n: nat) -> Seq<u8> {
        le_bytes(v, n)
    }

    proof fn word_bounded(s: Seq<u8>) {
        lemma_le_value_bound(s);
    }

    proof fn encoding_spec(v: nat, n: nat) {
        lemma_le_bytes_len(v, n);
        lemma_le_value_of_le_bytes(v, n);
        lemma_pow2_pos(8 * n);
        lemma_small_mod(v, pow256(n));
    }

    fn read_uint128(buf: &[u8], nbytes: usize) -> (r: u128) {
        let mut acc: u128 = 0;
        let mut i: usize = nbytes;
        while i > 0
            invariant
                0 <= i <= nbytes <= 16,
                nbytes <= buf@.len(),
                acc as nat == le_value(buf@.subrange(i as int, nbytes as int)),
            decreases i,
        {
            proof {
                lemma_le_value_bound(buf@.subrange(i as int, nbytes as int));
                lemma_pow256_increases((nbytes - i) as nat, 15);
                lemma_pow256_values();
                lemma_pow256_unfold(16);
                assert(buf@.subrange(i - 1, nbytes as int).drop_first() =~= buf@.subrange(
                    i as int,
                    nbytes as int,
                ));
            }
            i = i - 1;
            acc = acc * 256 + (buf[i] as u128);
        }
        proof {
            assert(buf@.subrange(0, nbytes as int) =~= buf@.take(nbytes as int));
        }
        acc
    }

    fn write_uint128(buf: &mut [u8], n: u128, nbytes: usize) {
        let ghost orig = buf@;
        let mut cur = n;
        let mut i: usize = 0;
        proof {
            lemma_pow256_values();
            lemma_div_basics(n as int);
        }
        while i < nbytes
            invariant
                0 <= i <= nbytes <= 16,
                nbytes <= buf@.len(),
                buf@.len() == orig.len(),
                cur as nat == (n as nat) / pow256(i as nat),
                forall|j: int| 0 <= j < i ==> buf@[j] == le_bytes(n as nat, nbytes as nat)[j],
                forall|j: int| i <= j < buf@.len() ==> buf@[j] == orig[j],
            decreases nbytes - i,
        {
            proof {
                lemma_le_bytes_index(n as nat, nbytes as nat, i as int);
                lemma_pow2_pos(8 * (i as nat));
                lemma_div_denominator(n as int, pow256(i as nat) as int, 256);
                lemma_pow256_unfold((i + 1) as nat);
            }
            buf[i] = (cur % 256) as u8;
            cur = cur / 256;
            i = i + 1;
        }
        proof {
            lemma_le_bytes_len(n as nat, nbytes as nat);
            assert(buf@.take(nbytes as int) =~= le_bytes(n as nat, nbytes as nat));
            assert(buf@.skip(nbytes as int) =~= orig.skip(nbytes as int));
        }
    }
}

} // verus!
