//! IEEE-754 binary64 values seen through their bit patterns.
use vstd::prelude::*;
use vstd::arithmetic::power2::{
    lemma2_to64, lemma2_to64_rest, lemma_pow2_adds, lemma_pow2_pos, lemma_pow2_strictly_increases,
    pow2,
};
use vstd::bits::{lemma_u64_shl_is_mul, lemma_u64_shr_is_div};

verus! {

pub const EXP_MASK: u64 = 0x7ff;
pub const FRAC_MASK: u64 = 0xf_ffff_ffff_ffff;
pub const MAG_MASK: u64 = 0x7fff_ffff_ffff_ffff;
pub const SIGN_BIT: u64 = 0x8000_0000_0000_0000;

/// The biased exponent field.
pub open spec fn exponent(b: u64) -> u64 {
    (b >> 52u64) & EXP_MASK
}

/// The fraction (mantissa without the implicit bit).
pub open spec fn fraction(b: u64) -> u64 {
    b & FRAC_MASK
}

/// Neither an infinity nor a NaN.
pub open spec fn finite(b: u64) -> bool {
    exponent(b) != EXP_MASK
}

/// A NaN: the exponent is all ones and the fraction is not zero.
pub open spec fn nan(b: u64) -> bool {
    exponent(b) == EXP_MASK && fraction(b) != 0
}

/// For every value that is not a NaN, `key(a) < key(b)` exactly when `a < b`
/// as floating-point numbers (both zeros get the key 0).
pub open spec fn key(b: u64) -> int {
    if b & SIGN_BIT != 0 {
        -((b & MAG_MASK) as int)
    } else {
        (b & MAG_MASK) as int
    }
}

/// `f64::is_finite` on a bit pattern.
pub fn is_finite(b: u64) -> (r: bool)
    ensures
        r == finite(b),
{
    ((b >> 52u64) & EXP_MASK) != EXP_MASK
}

/// `f64::is_nan` on a bit pattern.
pub fn is_nan(b: u64) -> (r: bool)
    ensures
        r == nan(b),
{
    ((b >> 52u64) & EXP_MASK) == EXP_MASK && (b & FRAC_MASK) != 0
}

/// The ordering key of a bit pattern, as a machine integer.
pub fn order_key(b: u64) -> (r: i64)
    ensures
        r as int == key(b),
{
    let m: u64 = b & MAG_MASK;
    assert(m <= MAG_MASK) by (bit_vector)
        requires
            m == b & MAG_MASK,
    ;
    if b & SIGN_BIT != 0 {
        -(m as i64)
    } else {
        m as i64
    }
}

/// Magnitude of a finite nonzero double with exponent field `e` and
/// significand `m` (fraction plus the implicit leading bit): `m * 2^(e - 1075)`,
/// truncated toward zero.
pub open spec fn truncated_magnitude(m: int, e: int) -> int {
    if e >= 1075 {
        m * pow2((e - 1075) as nat)
    } else {
        m / (pow2((1075 - e) as nat) as int)
    }
}

/// What `x as u64` gives for the double `x` with bit pattern `b`: the value
/// truncated toward zero, with NaN, negative values and subnormals (all
/// below 1) giving 0, and values too large (including positive infinity)
/// giving `u64::MAX`.
pub open spec fn truncated_u64(b: u64) -> int {
    let e = exponent(b) as int;
    let v = truncated_magnitude(fraction(b) + pow2(52), e);
    if nan(b) || b & SIGN_BIT != 0 || e == 0 {
        0
    } else if e == EXP_MASK || v > u64::MAX as int {
        u64::MAX as int
    } else {
        v
    }
}

/// What `x as usize` gives: the same truncation, saturated at `usize::MAX`.
pub open spec fn truncated(b: u64) -> int {
    if truncated_u64(b) > usize::MAX as int {
        usize::MAX as int
    } else {
        truncated_u64(b)
    }
}

/// `x as usize` for the double whose bit pattern is `b`.
pub fn to_usize(b: u64) -> (r: usize)
    ensures
        r as int == truncated(b),
{
    let v: u64 = to_u64(b);
    if v > usize::MAX as u64 {
        usize::MAX
    } else {
        v as usize
    }
}

/// `x as u64` for the double whose bit pattern is `b`.
pub fn to_u64(b: u64) -> (r: u64)
    ensures
        r as int == truncated_u64(b),
{
    let e: u64 = (b >> 52u64) & EXP_MASK;
    let f: u64 = b & FRAC_MASK;
    let m: u64 = f | 0x10_0000_0000_0000u64;
    proof {
        assert(e <= 0x7ff && f <= FRAC_MASK && m == f + 0x10_0000_0000_0000u64) by (bit_vector)
            requires
                e == (b >> 52u64) & 0x7ffu64,
                f == b & 0xf_ffff_ffff_ffffu64,
                m == f | 0x10_0000_0000_0000u64,
        ;
        lemma2_to64();
        lemma2_to64_rest();
        assert(m < pow2(53));
        assert(m >= pow2(52));
        assert(exponent(b) == e);
        assert(fraction(b) + pow2(52) == m);
    }
    if is_nan(b) || b & SIGN_BIT != 0 || e < 1023 {
        proof {
            if e > 0 && e < 1023 {
                if 1075 - e > 53 {
                    lemma_pow2_strictly_increases(53, (1075 - e) as nat);
                }
                assert(m as int / (pow2((1075 - e) as nat) as int) == 0) by (nonlinear_arith)
                    requires
                        0 <= m < pow2(53) <= pow2((1075 - e) as nat),
                ;
            }
            assert(0 == truncated_u64(b));
        }
        0
    } else if e >= 1087 {
        proof {
            assert(e == EXP_MASK || e < EXP_MASK);
            if e < 0x7ff {
                lemma_pow2_adds(12, (e - 1087) as nat);
                lemma_pow2_pos((e - 1087) as nat);
                assert(pow2(12) == 4096);
                assert(pow2((e - 1075) as nat) >= 4096) by (nonlinear_arith)
                    requires
                        pow2((e - 1075) as nat) == 4096 * pow2((e - 1087) as nat),
                        pow2((e - 1087) as nat) > 0,
                ;
                assert(m * pow2((e - 1075) as nat) > u64::MAX) by (nonlinear_arith)
                    requires
                        m >= 0x10_0000_0000_0000u64,
                        pow2((e - 1075) as nat) >= 4096,
                ;
            }
            assert(u64::MAX == truncated_u64(b));
        }
        u64::MAX
    } else if e <= 1075 {
        proof {
            let k: u64 = (1075 - e) as u64;
            lemma_u64_shr_is_div(m, k);
            assert(k as nat == (1075 - e) as nat);
            assert((m >> k) as int == m as int / (pow2((1075 - e) as nat) as int));
            if e == 1075 {
                assert(pow2(0) == 1);
                assert(m * pow2(0) == m);
            }
            lemma_pow2_pos((1075 - e) as nat);
            assert(m as int / (pow2((1075 - e) as nat) as int) <= m) by (nonlinear_arith)
                requires
                    m >= 0,
                    pow2((1075 - e) as nat) > 0,
            ;
            assert(!nan(b) && b & SIGN_BIT == 0 && e != 0 && e != EXP_MASK);
            if e == 1075 {
                assert(k == 0);
                assert(m as int / 1 == m);
                assert(truncated_magnitude(m as int, e as int) == m * pow2(0));
            } else {
                assert(truncated_magnitude(m as int, e as int) == m as int / (pow2(
                    (1075 - e) as nat,
                ) as int));
            }
            assert(truncated_magnitude(m as int, e as int) == (m >> k) as int);
            assert(truncated_magnitude(m as int, e as int) <= u64::MAX);
            assert((m >> k) as int == truncated_u64(b));
        }
        m >> (1075 - e)
    } else {
        proof {
            if e - 1075 < 11 {
                lemma_pow2_strictly_increases((e - 1075) as nat, 11);
            }
            assert(pow2(11) == 2048);
            assert(m * pow2((e - 1075) as nat) <= u64::MAX) by (nonlinear_arith)
                requires
                    m < 0x20_0000_0000_0000u64,
                    pow2((e - 1075) as nat) <= 2048,
            ;
            lemma_u64_shl_is_mul(m, (e - 1075) as u64);
            assert(m << (e - 1075) == truncated_u64(b));
        }
        m << (e - 1075)
    }
}

} // verus!
