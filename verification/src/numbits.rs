//! The IEEE-754 double bit pattern of an exact integer, computed with pure
//! integer arithmetic.  The codec widens out-of-range integers to wire
//! Numbers, and wire Numbers carry bit patterns rather than floats.

use vstd::arithmetic::power2::{
    lemma2_to64, lemma2_to64_rest, lemma_pow2_adds, lemma_pow2_pos, lemma_pow2_strictly_increases,
    lemma_pow2_unfold, pow2,
};
use vstd::prelude::*;

verus! {

/// Floor of the base-2 logarithm of a positive number.
pub open spec fn ilog2(m: nat) -> nat
    decreases m,
{
    if m < 2 {
        0
    } else {
        1 + ilog2(m / 2)
    }
}

/// `2^ilog2(m) <= m < 2^(ilog2(m) + 1)` for positive `m`.
pub proof fn lemma_ilog2_bracket(m: nat)
    requires
        m >= 1,
    ensures
        pow2(ilog2(m)) <= m < 2 * pow2(ilog2(m)),
    decreases m,
{
    if m < 2 {
        lemma2_to64();
    } else {
        lemma_ilog2_bracket(m / 2);
        lemma_pow2_unfold(ilog2(m));
    }
}

/// A power-of-two bound on `m` bounds its logarithm.
pub proof fn lemma_ilog2_lt(m: nat, k: nat)
    requires
        1 <= m,
        m < pow2(k),
    ensures
        ilog2(m) < k,
{
    lemma_ilog2_bracket(m);
    if ilog2(m) >= k {
        if ilog2(m) == k {
            assert(false);
        } else {
            lemma_pow2_strictly_increases(k, ilog2(m));
            assert(false);
        }
    }
}

/// The mantissa and exponent bounds behind the bit-pattern construction,
/// for a magnitude in the 32-bit range.
proof fn lemma_mag_bounds(m: nat)
    requires
        1 <= m < 0x1_0000_0000,
    ensures
        ilog2(m) <= 31,
        pow2(52) <= m * pow2((52 - ilog2(m)) as nat) < 2 * pow2(52),
        (1023 + ilog2(m)) * pow2(52) <= 1054 * pow2(52),
{
    let e = ilog2(m);
    lemma_ilog2_bracket(m);
    lemma2_to64();
    lemma2_to64_rest();
    lemma_ilog2_lt(m, 32);
    let f = (52 - e) as nat;
    lemma_pow2_adds(f, e);
    assert(f + e == 52);
    assert(pow2(f) * pow2(e) == pow2(52));
    lemma_pow2_pos(f);
    assert(m * pow2(f) >= pow2(e) * pow2(f)) by (nonlinear_arith)
        requires
            m >= pow2(e),
            pow2(f) >= 1,
    ;
    assert(m * pow2(f) < 2 * pow2(e) * pow2(f)) by (nonlinear_arith)
        requires
            m < 2 * pow2(e),
            pow2(f) >= 1,
    ;
    assert(pow2(e) * pow2(f) == pow2(f) * pow2(e)) by (nonlinear_arith);
    assert(2 * pow2(e) * pow2(f) == 2 * (pow2(f) * pow2(e))) by (nonlinear_arith);
    assert((1023 + e) * pow2(52) <= 1054 * pow2(52)) by (nonlinear_arith)
        requires
            e <= 31,
            pow2(52) >= 1,
    ;
}

/// `2^k` as a machine word.
pub fn pow2_u64(k: u64) -> (r: u64)
    requires
        k <= 63,
    ensures
        r == pow2(k as nat),
    decreases k,
{
    if k == 0 {
        proof {
            lemma2_to64();
        }
        1
    } else {
        let h = pow2_u64(k - 1);
        proof {
            lemma_pow2_unfold(k as nat);
            if (k - 1) as nat != 62nat {
                lemma_pow2_strictly_increases((k - 1) as nat, 62nat);
            }
            lemma2_to64_rest();
        }
        2 * h
    }
}

/// Floor of the base-2 logarithm of a positive machine word.
pub fn ilog2_u64(m: u64) -> (r: u64)
    requires
        m >= 1,
    ensures
        r == ilog2(m as nat),
    decreases m,
{
    proof {
        assert(m < pow2(64)) by {
            lemma2_to64_rest();
        }
        lemma_ilog2_lt(m as nat, 64);
    }
    if m < 2 {
        0
    } else {
        1 + ilog2_u64(m / 2)
    }
}

/// The IEEE-754 double bit pattern representing the integer `n` exactly.
/// Meaningful for magnitudes below `2^53`, where a double is exact.
pub open spec fn spec_f64_bits_of_int(n: int) -> int {
    if n == 0 {
        0
    } else {
        let m = if n < 0 {
            -n
        } else {
            n
        };
        let s = if n < 0 {
            pow2(63) as int
        } else {
            0
        };
        let e = ilog2(m as nat);
        s + (1023 + e) * pow2(52) + (m * pow2((52 - e) as nat) - pow2(52))
    }
}

/// The bit pattern of an integer in the 32-bit range fits a `u64`.
pub proof fn lemma_f64_bits_of_int_range(n: int)
    requires
        -0x8000_0000 <= n <= 0x7fff_ffff,
    ensures
        0 <= spec_f64_bits_of_int(n) < 0x1_0000_0000_0000_0000,
{
    if n != 0 {
        let m = if n < 0 {
            -n
        } else {
            n
        };
        lemma_mag_bounds(m as nat);
        lemma2_to64();
        lemma2_to64_rest();
    }
}

/// Computes the IEEE-754 double bit pattern of an exact 32-bit integer.
pub fn f64_bits_of_i32(n: i32) -> (r: u64)
    ensures
        r as int == spec_f64_bits_of_int(n as int),
{
    if n == 0 {
        return 0;
    }
    let neg = n < 0;
    let mag: u64 = if n >= 0 {
        n as u64
    } else {
        (-(n as i64)) as u64
    };
    let e = ilog2_u64(mag);
    proof {
        lemma_mag_bounds(mag as nat);
        lemma2_to64();
        lemma2_to64_rest();
    }
    let p = pow2_u64(52 - e);
    let plow = pow2_u64(52);
    let mant = mag * p - plow;
    let expb = (1023 + e) * plow;
    let sign: u64 = if neg {
        0x8000_0000_0000_0000u64
    } else {
        0u64
    };
    sign + expb + mant
}

} // verus!
