use vstd::prelude::*;

use vstd::arithmetic::div_mod::lemma_small_mod;
use vstd::arithmetic::power2::{lemma2_to64, lemma_pow2_pos, lemma_pow2_strictly_increases, pow2};
use vstd::bits::{low_bits_mask, lemma_u64_low_bits_mask_is_mod, lemma_u64_shl_is_mul, lemma_u64_shr_is_div};

verus! {

// A number of the language is an IEEE-754 double, held as its 64 bits: a
// sign bit, an 11-bit biased exponent and a 52-bit fraction. A double with
// exponent `e` strictly between 0 and 2047 is normal, and its magnitude is
// `(2^52 + fraction) * 2^(e - 1075)`; exponent 0 holds zero and the
// subnormals (all of magnitude below one); exponent 2047 holds the
// infinities and NaN.

/// The sign bit of the double with bits `b`.
pub open spec fn negative(b: u64) -> bool {
    b >> 63u64 == 1
}

/// The biased exponent of the double with bits `b`.
pub open spec fn exponent(b: u64) -> nat {
    ((b >> 52u64) & 0x7ff) as nat
}

/// The fraction bits of the double with bits `b`.
pub open spec fn fraction(b: u64) -> nat {
    (b & 0xf_ffff_ffff_ffff) as nat
}

/// The significand of a normal double: its fraction below a leading one.
pub open spec fn significand(b: u64) -> nat {
    pow2(52) + fraction(b)
}

/// The double is a whole number (its fractional part is zero): a zero, or
/// a normal double with no part below one. Infinities and NaN are not.
pub open spec fn is_whole(b: u64) -> bool {
    let e = exponent(b);
    if e == 2047 {
        false
    } else if e == 0 {
        fraction(b) == 0
    } else if e >= 1075 {
        true
    } else {
        significand(b) % pow2((1075 - e) as nat) == 0
    }
}

/// The magnitude of a finite double, rounded toward zero.
pub open spec fn truncated_magnitude(b: u64) -> nat {
    let e = exponent(b);
    if e == 0 {
        0
    } else if e >= 1075 {
        significand(b) * pow2((e - 1075) as nat)
    } else {
        significand(b) / pow2((1075 - e) as nat)
    }
}

/// A finite double rounded toward zero.
pub open spec fn truncated(b: u64) -> int {
    if negative(b) {
        -truncated_magnitude(b)
    } else {
        truncated_magnitude(b) as int
    }
}

/// An integer brought into the range of `i32`, as a saturating conversion
/// does.
pub open spec fn clamp_i32(x: int) -> i32 {
    if x < i32::MIN {
        i32::MIN
    } else if x > i32::MAX {
        i32::MAX
    } else {
        x as i32
    }
}

/// An integer brought into the range of `u32`, as a saturating conversion
/// does.
pub open spec fn clamp_u32(x: int) -> u32 {
    if x < 0 {
        0
    } else if x > u32::MAX {
        u32::MAX
    } else {
        x as u32
    }
}

/// A bound above every magnitude that `i32` and `u32` hold.
pub const MAGNITUDE_CAP: u64 = 0x2_0000_0000;

/// For a whole double, its sign and its magnitude, capped at
/// `MAGNITUDE_CAP`; for any other double, `None`.
pub fn whole_parts(bits: u64) -> (r: Option<(bool, u64)>)
    ensures
        r is Some <==> is_whole(bits),
        r matches Some((neg, m)) ==> neg == negative(bits) && m == (if truncated_magnitude(bits)
            > MAGNITUDE_CAP {
            MAGNITUDE_CAP as nat
        } else {
            truncated_magnitude(bits)
        }),
{
    let e: u64 = (bits >> 52u64) & 0x7ff;
    let f: u64 = bits & 0xf_ffff_ffff_ffff;
    let neg: bool = (bits >> 63u64) == 1;
    proof {
        lemma2_to64();
        vstd::arithmetic::power2::lemma2_to64_rest();
        assert(f < 0x10_0000_0000_0000) by (bit_vector)
            requires
                f == bits & 0xf_ffff_ffff_ffff,
        ;
    }
    if e == 0x7ff {
        return None;
    }
    if e == 0 {
        if f == 0 {
            return Some((neg, 0));
        } else {
            return None;
        }
    }
    let sig: u64 = f | 0x10_0000_0000_0000;
    assert(sig == f + 0x10_0000_0000_0000) by (bit_vector)
        requires
            f < 0x10_0000_0000_0000,
            sig == f | 0x10_0000_0000_0000,
    ;
    assert(sig == significand(bits));
    if e >= 1075 {
        proof {
            lemma_pow2_pos((e - 1075) as nat);
            assert(significand(bits) * pow2((e - 1075) as nat) >= significand(bits)) by (nonlinear_arith)
                requires
                    pow2((e - 1075) as nat) >= 1,
            ;
        }
        return Some((neg, MAGNITUDE_CAP));
    }
    if e < 1023 {
        proof {
            if e < 1022 {
                lemma_pow2_strictly_increases(53, (1075 - e) as nat);
            }
            lemma_small_mod(sig as nat, pow2((1075 - e) as nat));
        }
        return None;
    }
    let shift: u64 = 1075 - e;
    proof {
        vstd::bits::lemma_u64_pow2_no_overflow(shift as nat);
        lemma_u64_shl_is_mul(1, shift);
        lemma_u64_low_bits_mask_is_mod(sig, shift as nat);
        lemma_u64_shr_is_div(sig, shift);
    }
    let mask: u64 = (1u64 << shift) - 1;
    assert(mask == low_bits_mask(shift as nat) as u64);
    if sig & mask != 0 {
        return None;
    }
    let m: u64 = sig >> shift;
    if m > MAGNITUDE_CAP {
        Some((neg, MAGNITUDE_CAP))
    } else {
        Some((neg, m))
    }
}

/// A whole double as `i32`, saturating: `None` for any other double.
pub fn whole_i32(bits: u64) -> (r: Option<i32>)
    ensures
        r is Some <==> is_whole(bits),
        r matches Some(i) ==> i == clamp_i32(truncated(bits)),
{
    match whole_parts(bits) {
        Some((neg, m)) => {
            if neg {
                if m >= 0x8000_0000 {
                    Some(i32::MIN)
                } else {
                    Some(-(m as i32))
                }
            } else {
                if m > 0x7fff_ffff {
                    Some(i32::MAX)
                } else {
                    Some(m as i32)
                }
            }
        },
        None => None,
    }
}

/// A whole double above zero as `u32`, saturating: `None` for any other
/// double.
pub fn positive_whole_u32(bits: u64) -> (r: Option<u32>)
    ensures
        r is Some <==> is_whole(bits) && !negative(bits) && truncated_magnitude(bits) > 0,
        r matches Some(u) ==> u == clamp_u32(truncated(bits)),
{
    match whole_parts(bits) {
        Some((neg, m)) => {
            if neg || m == 0 {
                None
            } else if m > 0xffff_ffff {
                Some(u32::MAX)
            } else {
                Some(m as u32)
            }
        },
        None => None,
    }
}

} // verus!
