//! The mathematical model of the codec: the number a byte string denotes in
//! each ordering, and the canonical byte encoding of a number at a given
//! width.
//!
//! Little-endian places the least significant byte first; big-endian places
//! the most significant byte first.  `le_value`/`be_value` map byte strings
//! to numbers, `le_bytes`/`be_bytes` map a number and a width to the byte
//! string, and the lemmas below establish that the two directions are
//! mutually inverse and that the orderings are reverses of each other.

use vstd::arithmetic::div_mod::*;
use vstd::arithmetic::mul::*;
use vstd::arithmetic::power2::*;
use vstd::prelude::*;

verus! {

/// 256^n, the number of distinct values an n-byte string can denote.
pub open spec fn pow256(n: nat) -> nat {
    pow2(8 * n)
}

/// The number denoted by a byte string read little-endian: the byte at
/// index 0 is the least significant.
pub open spec fn le_value(s: Seq<u8>) -> nat
    decreases s.len(),
{
    if s.len() == 0 {
        0
    } else {
        s[0] as nat + 256 * le_value(s.drop_first())
    }
}

/// The number denoted by a byte string read big-endian: the byte at
/// index 0 is the most significant.
pub open spec fn be_value(s: Seq<u8>) -> nat
    decreases s.len(),
{
    if s.len() == 0 {
        0
    } else {
        256 * be_value(s.drop_last()) + s.last() as nat
    }
}

/// The n-byte little-endian encoding of v (of v mod 256^n, when v does not
/// fit in n bytes).
pub open spec fn le_bytes(v: nat, n: nat) -> Seq<u8>
    decreases n,
{
    if n == 0 {
        Seq::empty()
    } else {
        seq![(v % 256) as u8] + le_bytes(v / 256, (n - 1) as nat)
    }
}

/// The n-byte big-endian encoding of v (of v mod 256^n, when v does not
/// fit in n bytes).
pub open spec fn be_bytes(v: nat, n: nat) -> Seq<u8>
    decreases n,
{
    if n == 0 {
        Seq::empty()
    } else {
        be_bytes(v / 256, (n - 1) as nat) + seq![(v % 256) as u8]
    }
}

pub proof fn lemma_pow256_unfold(n: nat)
    requires
        n >= 1,
    ensures
        pow256(n) == 256 * pow256((n - 1) as nat),
{
    lemma_pow2_adds(8, 8 * ((n - 1) as nat));
    lemma2_to64();
}

/// The concrete value of 256^n for every width the codec handles.
pub proof fn lemma_pow256_values()
    ensures
        pow256(0) == 1,
        pow256(1) == 0x100,
        pow256(2) == 0x10000,
        pow256(3) == 0x1000000,
        pow256(4) == 0x100000000,
        pow256(5) == 0x10000000000,
        pow256(6) == 0x1000000000000,
        pow256(7) == 0x100000000000000,
        pow256(8) == 0x10000000000000000,
        pow256(9) == 0x1000000000000000000,
        pow256(10) == 0x100000000000000000000,
        pow256(11) == 0x10000000000000000000000,
        pow256(12) == 0x1000000000000000000000000,
        pow256(13) == 0x100000000000000000000000000,
        pow256(14) == 0x10000000000000000000000000000,
        pow256(15) == 0x1000000000000000000000000000000,
        pow256(16) == 0x100000000000000000000000000000000,
{
    lemma2_to64();
    lemma2_to64_rest();
    lemma_pow2_adds(64, 8);
    lemma_pow2_adds(64, 16);
    lemma_pow2_adds(64, 24);
    lemma_pow2_adds(64, 32);
    lemma_pow2_adds(64, 40);
    lemma_pow2_adds(64, 48);
    lemma_pow2_adds(64, 56);
    lemma_pow2_adds(64, 64);
}

/// 256^n grows with n.
pub proof fn lemma_pow256_increases(m: nat, n: nat)
    requires
        m <= n,
    ensures
        pow256(m) <= pow256(n),
{
    if m < n {
        lemma_pow2_strictly_increases(8 * m, 8 * n);
    }
}

/// A byte string of length n denotes a number below 256^n.
pub proof fn lemma_le_value_bound(s: Seq<u8>)
    ensures
        le_value(s) < pow256(s.len()),
    decreases s.len(),
{
    if s.len() == 0 {
        lemma2_to64();
    } else {
        lemma_le_value_bound(s.drop_first());
        lemma_pow256_unfold(s.len());
        lemma_mul_inequality(
            le_value(s.drop_first()) as int,
            pow256((s.len() - 1) as nat) as int - 1,
            256,
        );
    }
}

/// A byte string of length n denotes a number below 256^n.
pub proof fn lemma_be_value_bound(s: Seq<u8>)
    ensures
        be_value(s) < pow256(s.len()),
    decreases s.len(),
{
    if s.len() == 0 {
        lemma2_to64();
    } else {
        lemma_be_value_bound(s.drop_last());
        lemma_pow256_unfold(s.len());
        lemma_mul_inequality(
            be_value(s.drop_last()) as int,
            pow256((s.len() - 1) as nat) as int - 1,
            256,
        );
    }
}

pub proof fn lemma_le_bytes_len(v: nat, n: nat)
    ensures
        le_bytes(v, n).len() == n,
    decreases n,
{
    if n > 0 {
        lemma_le_bytes_len(v / 256, (n - 1) as nat);
    }
}

pub proof fn lemma_be_bytes_len(v: nat, n: nat)
    ensures
        be_bytes(v, n).len() == n,
    decreases n,
{
    if n > 0 {
        lemma_be_bytes_len(v / 256, (n - 1) as nat);
    }
}

/// Byte j of the little-endian encoding holds bits 8j..8j+8 of the value.
pub proof fn lemma_le_bytes_index(v: nat, n: nat, j: int)
    requires
        0 <= j < n,
    ensures
        le_bytes(v, n)[j] == ((v / pow256(j as nat)) % 256) as u8,
    decreases n,
{
    lemma_le_bytes_len(v, n);
    lemma_le_bytes_len(v / 256, (n - 1) as nat);
    if j == 0 {
        lemma2_to64();
        lemma_div_basics(v as int);
    } else {
        lemma_le_bytes_index(v / 256, (n - 1) as nat, j - 1);
        lemma_pow2_pos(8 * ((j - 1) as nat));
        lemma_div_denominator(v as int, 256, pow256((j - 1) as nat) as int);
        lemma_pow256_unfold(j as nat);
    }
}

/// Byte j of the big-endian encoding holds bits 8(n-1-j)..8(n-j) of the value.
pub proof fn lemma_be_bytes_index(v: nat, n: nat, j: int)
    requires
        0 <= j < n,
    ensures
        be_bytes(v, n)[j] == ((v / pow256((n - 1 - j) as nat)) % 256) as u8,
    decreases n,
{
    lemma_be_bytes_len(v, n);
    lemma_be_bytes_len(v / 256, (n - 1) as nat);
    if j == n - 1 {
        lemma2_to64();
        lemma_div_basics(v as int);
    } else {
        lemma_be_bytes_index(v / 256, (n - 1) as nat, j);
        lemma_pow2_pos(8 * ((n - 2 - j) as nat));
        lemma_div_denominator(v as int, 256, pow256((n - 2 - j) as nat) as int);
        lemma_pow256_unfold((n - 1 - j) as nat);
    }
}

/// Decoding the little-endian encoding of v at width n gives v mod 256^n.
pub proof fn lemma_le_value_of_le_bytes(v: nat, n: nat)
    ensures
        le_value(le_bytes(v, n)) == v % pow256(n),
    decreases n,
{
    if n == 0 {
        lemma2_to64();
        assert(v as int % 1 == 0) by (nonlinear_arith);
    } else {
        let s = le_bytes(v, n);
        let rest = le_bytes(v / 256, (n - 1) as nat);
        lemma_le_bytes_len(v, n);
        assert(s.drop_first() =~= rest);
        lemma_le_value_of_le_bytes(v / 256, (n - 1) as nat);
        lemma_pow2_pos(8 * ((n - 1) as nat));
        lemma_mod_breakdown(v as int, 256, pow256((n - 1) as nat) as int);
        lemma_pow256_unfold(n);
    }
}

/// Decoding the big-endian encoding of v at width n gives v mod 256^n.
pub proof fn lemma_be_value_of_be_bytes(v: nat, n: nat)
    ensures
        be_value(be_bytes(v, n)) == v % pow256(n),
    decreases n,
{
    if n == 0 {
        lemma2_to64();
        assert(v as int % 1 == 0) by (nonlinear_arith);
    } else {
        let s = be_bytes(v, n);
        let rest = be_bytes(v / 256, (n - 1) as nat);
        lemma_be_bytes_len(v, n);
        assert(s.drop_last() =~= rest);
        lemma_be_value_of_be_bytes(v / 256, (n - 1) as nat);
        lemma_pow2_pos(8 * ((n - 1) as nat));
        lemma_mod_breakdown(v as int, 256, pow256((n - 1) as nat) as int);
        lemma_pow256_unfold(n);
    }
}

/// The two encodings of one value are byte-for-byte reverses of each other.
pub proof fn lemma_be_bytes_is_reverse(v: nat, n: nat)
    ensures
        be_bytes(v, n) == le_bytes(v, n).reverse(),
{
    lemma_le_bytes_len(v, n);
    lemma_be_bytes_len(v, n);
    assert forall|j: int| 0 <= j < n implies be_bytes(v, n)[j] == le_bytes(v, n).reverse()[j] by {
        lemma_be_bytes_index(v, n, j);
        lemma_le_bytes_index(v, n, n - 1 - j);
    }
    assert(be_bytes(v, n) =~= le_bytes(v, n).reverse());
}

} // verus!
