//! Sign extension for variable-width signed integers, and the minimum
//! width needed to hold an unsigned value.
//!
//! A signed number stored in `n` bytes uses two's complement.  Widening it
//! to a full machine word propagates the sign bit of the `n`-th byte across
//! the unused high bytes; narrowing masks the value down to its `n`-byte
//! bit pattern.  Both directions are the classic shift pair: shift left so
//! the narrow value's sign bit becomes the word's sign bit, then shift back
//! arithmetically (widening) or logically (narrowing).

use crate::repr::lemma_pow256_values;
use crate::repr::pow256;
use vstd::arithmetic::div_mod::*;
use vstd::arithmetic::power2::*;
use vstd::prelude::*;

verus! {

/// The signed number denoted by the low n bytes of v in two's complement.
pub open spec fn sign_extended(v: nat, n: nat) -> int {
    let m = (v % pow256(n)) as int;
    if m < pow256(n) / 2 {
        m
    } else {
        m - pow256(n)
    }
}

/// The n-byte two's-complement bit pattern of v, as a nonnegative number.
pub open spec fn sign_unextended(v: int, n: nat) -> nat {
    (v % (pow256(n) as int)) as nat
}

/// v lies in the range that n bytes can hold as a signed number.
pub open spec fn fits_signed(v: int, n: nat) -> bool {
    -((pow256(n) / 2) as int) <= v < (pow256(n) / 2) as int
}

/// Narrowing a signed value to n bytes and widening it again returns the
/// value, provided it fits in n bytes.
pub proof fn lemma_sign_round_trip(v: int, n: nat)
    requires
        fits_signed(v, n),
    ensures
        sign_extended(sign_unextended(v, n), n) == v,
{
    let p = pow256(n) as int;
    lemma_pow2_pos(8 * n);
    let u = v % p;
    if v >= 0 {
        lemma_small_mod(v as nat, p as nat);
        lemma_small_mod(u as nat, p as nat);
    } else {
        lemma_mod_multiples_vanish(1, v, p);
        lemma_small_mod((v + p) as nat, p as nat);
    }
}

/// Widens the low `nbytes` bytes of `val` to a signed 64-bit value by
/// propagating the sign bit of the `nbytes`-th byte across the unused high
/// bytes: shift left so that sign bit reaches the top, then shift back
/// arithmetically.
pub fn extend_sign(val: u64, nbytes: usize) -> (r: i64)
    requires
        1 <= nbytes <= 8,
    ensures
        r as int == sign_extended(val as nat, nbytes as nat),
{
    let shift = ((8 - nbytes) * 8) as u64;
    let wide = #[verifier::truncate] ((val << shift) as i64);
    let r = wide >> shift;
    proof {
        let x = val;
        let s = shift;
        lemma_pow256_values();
        assert((s == 56 ==> ((x << 56u64) as i64) >> 56u64 == (if (x % 0x100) < 0x80 {
            (x % 0x100) as int
        } else {
            (x % 0x100) - 0x100
        })) && (s == 48 ==> ((x << 48u64) as i64) >> 48u64 == (if (x % 0x10000) < 0x8000 {
            (x % 0x10000) as int
        } else {
            (x % 0x10000) - 0x10000
        })) && (s == 40 ==> ((x << 40u64) as i64) >> 40u64 == (if (x % 0x1000000) < 0x800000 {
            (x % 0x1000000) as int
        } else {
            (x % 0x1000000) - 0x1000000
        })) && (s == 32 ==> ((x << 32u64) as i64) >> 32u64 == (if (x % 0x100000000) < 0x80000000 {
            (x % 0x100000000) as int
        } else {
            (x % 0x100000000) - 0x100000000
        })) && (s == 24 ==> ((x << 24u64) as i64) >> 24u64 == (if (x % 0x10000000000)
            < 0x8000000000 {
            (x % 0x10000000000) as int
        } else {
            (x % 0x10000000000) - 0x10000000000
        })) && (s == 16 ==> ((x << 16u64) as i64) >> 16u64 == (if (x % 0x1000000000000)
            < 0x800000000000 {
            (x % 0x1000000000000) as int
        } else {
            (x % 0x1000000000000) - 0x1000000000000
        })) && (s == 8 ==> ((x << 8u64) as i64) >> 8u64 == (if (x % 0x100000000000000)
            < 0x80000000000000 {
            (x % 0x100000000000000) as int
        } else {
            (x % 0x100000000000000) - 0x100000000000000
        })) && (s == 0 ==> ((x << 0u64) as i64) >> 0u64 == (if x < 0x8000000000000000 {
            x as i64
        } else {
            (x as i64)
        }))) by (bit_vector);
        assert(x >= 0x8000000000000000 ==> (x as i64) == (x - 0x8000000000000000)
            - 0x8000000000000000) by (bit_vector);
        assert(x < 0x8000000000000000 ==> (x as i64) == x) by (bit_vector);
        lemma_small_mod(x as nat, pow256(8));
    }
    r
}

/// Narrows a signed 64-bit value to its `nbytes`-byte two's-complement bit
/// pattern: shift left so the narrow sign bit reaches the top, then shift
/// back logically, clearing the high bytes.
pub fn unextend_sign(val: i64, nbytes: usize) -> (r: u64)
    requires
        1 <= nbytes <= 8,
    ensures
        r as nat == sign_unextended(val as int, nbytes as nat),
{
    let shift = ((8 - nbytes) * 8) as u64;
    let wide = #[verifier::truncate] ((val << shift) as u64);
    let r = wide >> shift;
    proof {
        let x = val;
        let s = shift;
        lemma_pow256_values();
        assert((s == 56 ==> ((x << 56u64) as u64) >> 56u64 == (x as u64) % 0x100) && (s == 48
            ==> ((x << 48u64) as u64) >> 48u64 == (x as u64) % 0x10000) && (s == 40 ==> ((x
            << 40u64) as u64) >> 40u64 == (x as u64) % 0x1000000) && (s == 32 ==> ((x
            << 32u64) as u64) >> 32u64 == (x as u64) % 0x100000000) && (s == 24 ==> ((x
            << 24u64) as u64) >> 24u64 == (x as u64) % 0x10000000000) && (s == 16 ==> ((x
            << 16u64) as u64) >> 16u64 == (x as u64) % 0x1000000000000) && (s == 8 ==> ((x
            << 8u64) as u64) >> 8u64 == (x as u64) % 0x100000000000000) && (s == 0 ==> ((x
            << 0u64) as u64) >> 0u64 == (x as u64))) by (bit_vector);
        assert(x < 0 ==> (x as u64) == (x + 0x8000000000000000) + 0x8000000000000000)
            by (bit_vector);
        assert(x >= 0 ==> (x as u64) == x) by (bit_vector);
        let n = nbytes as nat;
        let p = pow256(n) as int;
        lemma_pow2_pos(8 * n);
        if x < 0 {
            if nbytes < 8 {
                lemma_pow2_adds(8 * n, 8 * ((8 - nbytes) as nat));
                lemma_mod_multiples_vanish(pow256((8 - nbytes) as nat) as int, x as int, p);
            } else {
                lemma_mod_multiples_vanish(1, x as int, p);
                lemma_small_mod((x + p) as nat, p as nat);
            }
        } else {
            if nbytes == 8 {
                lemma_small_mod(x as nat, p as nat);
            }
        }
    }
    r
}


/// Widens the low `nbytes` bytes of `val` to a signed 128-bit value by
/// propagating the sign bit of the `nbytes`-th byte across the unused high
/// bytes.
pub fn extend_sign128(val: u128, nbytes: usize) -> (r: i128)
    requires
        1 <= nbytes <= 16,
    ensures
        r as int == sign_extended(val as nat, nbytes as nat),
{
    let shift = (((16 - nbytes) * 8) as u64) as u128;
    let wide = #[verifier::truncate] ((val << shift) as i128);
    let r = wide >> shift;
    proof {
        let x = val;
        let s = shift;
        lemma_pow256_values();
        assert((s == 120 ==> ((x << 120u128) as i128) >> 120u128 == (if (x % 0x100) < 0x80 {
            (x % 0x100) as int
        } else {
            (x % 0x100) - 0x100
        })) && (s == 112 ==> ((x << 112u128) as i128) >> 112u128 == (if (x % 0x10000) < 0x8000 {
            (x % 0x10000) as int
        } else {
            (x % 0x10000) - 0x10000
        })) && (s == 104 ==> ((x << 104u128) as i128) >> 104u128 == (if (x % 0x1000000) < 0x800000 {
            (x % 0x1000000) as int
        } else {
            (x % 0x1000000) - 0x1000000
        })) && (s == 96 ==> ((x << 96u128) as i128) >> 96u128 == (if (x % 0x100000000) < 0x80000000 {
            (x % 0x100000000) as int
        } else {
            (x % 0x100000000) - 0x100000000
        })) && (s == 88 ==> ((x << 88u128) as i128) >> 88u128 == (if (x % 0x10000000000) < 0x8000000000 {
            (x % 0x10000000000) as int
        } else {
            (x % 0x10000000000) - 0x10000000000
        })) && (s == 80 ==> ((x << 80u128) as i128) >> 80u128 == (if (x % 0x1000000000000) < 0x800000000000 {
            (x % 0x1000000000000) as int
        } else {
            (x % 0x1000000000000) - 0x1000000000000
        })) && (s == 72 ==> ((x << 72u128) as i128) >> 72u128 == (if (x % 0x100000000000000) < 0x80000000000000 {
            (x % 0x100000000000000) as int
        } else {
            (x % 0x100000000000000) - 0x100000000000000
        })) && (s == 64 ==> ((x << 64u128) as i128) >> 64u128 == (if (x % 0x10000000000000000) < 0x8000000000000000 {
            (x % 0x10000000000000000) as int
        } else {
            (x % 0x10000000000000000) - 0x10000000000000000
        })) && (s == 56 ==> ((x << 56u128) as i128) >> 56u128 == (if (x % 0x1000000000000000000) < 0x800000000000000000 {
            (x % 0x1000000000000000000) as int
        } else {
            (x % 0x1000000000000000000) - 0x1000000000000000000
        })) && (s == 48 ==> ((x << 48u128) as i128) >> 48u128 == (if (x % 0x100000000000000000000) < 0x80000000000000000000 {
            (x % 0x100000000000000000000) as int
        } else {
            (x % 0x100000000000000000000) - 0x100000000000000000000
        })) && (s == 40 ==> ((x << 40u128) as i128) >> 40u128 == (if (x % 0x10000000000000000000000) < 0x8000000000000000000000 {
            (x % 0x10000000000000000000000) as int
        } else {
            (x % 0x10000000000000000000000) - 0x10000000000000000000000
        })) && (s == 32 ==> ((x << 32u128) as i128) >> 32u128 == (if (x % 0x1000000000000000000000000) < 0x800000000000000000000000 {
            (x % 0x1000000000000000000000000) as int
        } else {
            (x % 0x1000000000000000000000000) - 0x1000000000000000000000000
        })) && (s == 24 ==> ((x << 24u128) as i128) >> 24u128 == (if (x % 0x100000000000000000000000000) < 0x80000000000000000000000000 {
            (x % 0x100000000000000000000000000) as int
        } else {
            (x % 0x100000000000000000000000000) - 0x100000000000000000000000000
        })) && (s == 16 ==> ((x << 16u128) as i128) >> 16u128 == (if (x % 0x10000000000000000000000000000) < 0x8000000000000000000000000000 {
            (x % 0x10000000000000000000000000000) as int
        } else {
            (x % 0x10000000000000000000000000000) - 0x10000000000000000000000000000
        })) && (s == 8 ==> ((x << 8u128) as i128) >> 8u128 == (if (x % 0x1000000000000000000000000000000) < 0x800000000000000000000000000000 {
            (x % 0x1000000000000000000000000000000) as int
        } else {
            (x % 0x1000000000000000000000000000000) - 0x1000000000000000000000000000000
        })) && (s == 0 ==> ((x << 0u128) as i128) >> 0u128 == x as i128)) by (bit_vector);
        assert(x >= 0x80000000000000000000000000000000 ==> (x as i128) == (x - 0x80000000000000000000000000000000)
            - 0x80000000000000000000000000000000) by (bit_vector);
        assert(x < 0x80000000000000000000000000000000 ==> (x as i128) == x) by (bit_vector);
        lemma_small_mod(x as nat, pow256(16));
    }
    r
}

/// Narrows a signed 128-bit value to its `nbytes`-byte two's-complement
/// bit pattern.
pub fn unextend_sign128(val: i128, nbytes: usize) -> (r: u128)
    requires
        1 <= nbytes <= 16,
    ensures
        r as nat == sign_unextended(val as int, nbytes as nat),
{
    let shift = (((16 - nbytes) * 8) as u64) as u128;
    let wide = #[verifier::truncate] ((val << shift) as u128);
    let r = wide >> shift;
    proof {
        let x = val;
        let s = shift;
        lemma_pow256_values();
        assert((s == 120 ==> ((x << 120u128) as u128) >> 120u128 == (x as u128) % 0x100) && (s == 112 ==> ((x << 112u128) as u128) >> 112u128 == (x as u128) % 0x10000) && (s == 104 ==> ((x << 104u128) as u128) >> 104u128 == (x as u128) % 0x1000000) && (s == 96 ==> ((x << 96u128) as u128) >> 96u128 == (x as u128) % 0x100000000) && (s == 88 ==> ((x << 88u128) as u128) >> 88u128 == (x as u128) % 0x10000000000) && (s == 80 ==> ((x << 80u128) as u128) >> 80u128 == (x as u128) % 0x1000000000000) && (s == 72 ==> ((x << 72u128) as u128) >> 72u128 == (x as u128) % 0x100000000000000) && (s == 64 ==> ((x << 64u128) as u128) >> 64u128 == (x as u128) % 0x10000000000000000) && (s == 56 ==> ((x << 56u128) as u128) >> 56u128 == (x as u128) % 0x1000000000000000000) && (s == 48 ==> ((x << 48u128) as u128) >> 48u128 == (x as u128) % 0x100000000000000000000) && (s == 40 ==> ((x << 40u128) as u128) >> 40u128 == (x as u128) % 0x10000000000000000000000) && (s == 32 ==> ((x << 32u128) as u128) >> 32u128 == (x as u128) % 0x1000000000000000000000000) && (s == 24 ==> ((x << 24u128) as u128) >> 24u128 == (x as u128) % 0x100000000000000000000000000) && (s == 16 ==> ((x << 16u128) as u128) >> 16u128 == (x as u128) % 0x10000000000000000000000000000) && (s == 8 ==> ((x << 8u128) as u128) >> 8u128 == (x as u128) % 0x1000000000000000000000000000000) && (s == 0 ==> ((x << 0u128) as u128) >> 0u128 == (x as u128))) by (bit_vector);
        assert(x < 0 ==> (x as u128) == (x + 0x80000000000000000000000000000000) + 0x80000000000000000000000000000000)
            by (bit_vector);
        assert(x >= 0 ==> (x as u128) == x) by (bit_vector);
        let n = nbytes as nat;
        let p = pow256(n) as int;
        lemma_pow2_pos(8 * n);
        if x < 0 {
            if nbytes < 16 {
                lemma_pow2_adds(8 * n, 8 * ((16 - nbytes) as nat));
                lemma_mod_multiples_vanish(pow256((16 - nbytes) as nat) as int, x as int, p);
            } else {
                lemma_mod_multiples_vanish(1, x as int, p);
                lemma_small_mod((x + p) as nat, p as nat);
            }
        } else {
            if nbytes == 16 {
                lemma_small_mod(x as nat, p as nat);
            }
        }
    }
    r
}

/// The least number of bytes (1 to 8) that can hold the unsigned value n.
pub fn pack_size(n: u64) -> (r: usize)
    ensures
        1 <= r <= 8,
        (n as nat) < pow256(r as nat),
        r > 1 ==> pow256((r - 1) as nat) <= n as nat,
{
    proof {
        lemma_pow256_values();
        assert(1u64 << 8 == 0x100 && 1u64 << 16 == 0x10000 && 1u64 << 24 == 0x1000000 && 1u64 << 32 == 0x100000000 && 1u64 << 40 == 0x10000000000 && 1u64 << 48 == 0x1000000000000 && 1u64 << 56 == 0x100000000000000) by (bit_vector);
    }
    if n < 1 << 8 {
        1
    } else if n < 1 << 16 {
        2
    } else if n < 1 << 24 {
        3
    } else if n < 1 << 32 {
        4
    } else if n < 1 << 40 {
        5
    } else if n < 1 << 48 {
        6
    } else if n < 1 << 56 {
        7
    } else {
        8
    }
}

/// The least number of bytes (1 to 16) that can hold the unsigned value n.
pub fn pack_size128(n: u128) -> (r: usize)
    ensures
        1 <= r <= 16,
        (n as nat) < pow256(r as nat),
        r > 1 ==> pow256((r - 1) as nat) <= n as nat,
{
    proof {
        lemma_pow256_values();
        assert(1u128 << 8 == 0x100 && 1u128 << 16 == 0x10000 && 1u128 << 24 == 0x1000000 && 1u128 << 32 == 0x100000000 && 1u128 << 40 == 0x10000000000 && 1u128 << 48 == 0x1000000000000 && 1u128 << 56 == 0x100000000000000 && 1u128 << 64 == 0x10000000000000000 && 1u128 << 72 == 0x1000000000000000000 && 1u128 << 80 == 0x100000000000000000000 && 1u128 << 88 == 0x10000000000000000000000 && 1u128 << 96 == 0x1000000000000000000000000 && 1u128 << 104 == 0x100000000000000000000000000 && 1u128 << 112 == 0x10000000000000000000000000000 && 1u128 << 120 == 0x1000000000000000000000000000000) by (bit_vector);
    }
    if n < 1 << 8 {
        1
    } else if n < 1 << 16 {
        2
    } else if n < 1 << 24 {
        3
    } else if n < 1 << 32 {
        4
    } else if n < 1 << 40 {
        5
    } else if n < 1 << 48 {
        6
    } else if n < 1 << 56 {
        7
    } else if n < 1 << 64 {
        8
    } else if n < 1 << 72 {
        9
    } else if n < 1 << 80 {
        10
    } else if n < 1 << 88 {
        11
    } else if n < 1 << 96 {
        12
    } else if n < 1 << 104 {
        13
    } else if n < 1 << 112 {
        14
    } else if n < 1 << 120 {
        15
    } else {
        16
    }
}

} // verus!
