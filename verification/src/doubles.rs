//! Doubles that are integers, by their bits.
use vstd::arithmetic::power2::{
    lemma2_to64, lemma2_to64_rest, lemma_pow2_pos, lemma_pow2_strictly_increases,
    lemma_pow2_unfold, pow2,
};
use vstd::prelude::*;

verus! {

/// The exponent field of a double.
pub open spec fn exponent_of(bits: u64) -> int {
    ((bits >> 52) & 0x7ff) as int
}

/// The fraction field of a double.
pub open spec fn fraction_of(bits: u64) -> int {
    (bits & 0xf_ffff_ffff_ffff) as int
}

/// The magnitude of an integer.
pub open spec fn magnitude_of(n: int) -> nat {
    if n < 0 {
        (-n) as nat
    } else {
        n as nat
    }
}

/// Whether the bits are those of a double that is a given integer.
pub open spec fn double_is(bits: u64, n: int) -> bool {
    let exponent = exponent_of(bits);
    let fraction = fraction_of(bits);
    if n == 0 {
        exponent == 0 && fraction == 0
    } else {
        &&& (bits >> 63 == 1) == (n < 0)
        &&& if exponent <= 1075 {
            magnitude_of(n) * pow2((1075 - exponent) as nat) == 0x10_0000_0000_0000 + fraction
        } else {
            magnitude_of(n) == (0x10_0000_0000_0000 + fraction) * pow2((exponent - 1075) as nat)
        }
    }
}

/// The magnitude below which every integer is a double: two to the 53.
pub const EXACT: u64 = 0x20_0000_0000_0000;

proof fn lemma_fields(sign: u64, exponent: u64, fraction: u64, bits: u64)
    requires
        sign <= 1,
        exponent < 0x800,
        fraction < 0x10_0000_0000_0000,
        bits == (sign << 63) | (exponent << 52) | fraction,
    ensures
        bits >> 63 == sign,
        exponent_of(bits) == exponent,
        fraction_of(bits) == fraction,
{
    assert(bits >> 63 == sign) by (bit_vector)
        requires
            sign <= 1,
            exponent < 0x800,
            fraction < 0x10_0000_0000_0000,
            bits == (sign << 63) | (exponent << 52) | fraction,
    ;
    assert((bits >> 52) & 0x7ff == exponent) by (bit_vector)
        requires
            sign <= 1,
            exponent < 0x800,
            fraction < 0x10_0000_0000_0000,
            bits == (sign << 63) | (exponent << 52) | fraction,
    ;
    assert(bits & 0xf_ffff_ffff_ffff == fraction) by (bit_vector)
        requires
            sign <= 1,
            exponent < 0x800,
            fraction < 0x10_0000_0000_0000,
            bits == (sign << 63) | (exponent << 52) | fraction,
    ;
}

proof fn lemma_field_bounds(bits: u64)
    ensures
        0 <= exponent_of(bits) < 0x800,
        0 <= fraction_of(bits) < 0x10_0000_0000_0000,
        bits >> 63 <= 1,
{
    assert((bits >> 52) & 0x7ff < 0x800) by (bit_vector);
    assert(bits & 0xf_ffff_ffff_ffff < 0x10_0000_0000_0000) by (bit_vector);
    assert(bits >> 63 <= 1) by (bit_vector);
}

/// The double that is an integer.
pub fn exact_double(n: i64) -> (bits: u64)
    requires
        -0x20_0000_0000_0000 < n < 0x20_0000_0000_0000,
    ensures
        double_is(bits, n as int),
{
    if n == 0 {
        assert((0u64 >> 52) & 0x7ff == 0) by (bit_vector);
        assert(0u64 & 0xf_ffff_ffff_ffff == 0) by (bit_vector);
        return 0;
    }
    let sign: u64 = if n < 0 { 1 } else { 0 };
    let size: u64 = if n < 0 { (-n) as u64 } else { n as u64 };
    let mut significand: u64 = size;
    let mut exponent: u64 = 1075;
    proof {
        lemma2_to64();
        assert(size * 1 == size);
    }
    while significand < 0x10_0000_0000_0000
        invariant
            0 < size <= significand < 0x20_0000_0000_0000,
            exponent <= 1075,
            significand == size * pow2((1075 - exponent) as nat),
            1075 - exponent <= 52,
        decreases 0x20_0000_0000_0000 - significand,
    {
        proof {
            let k = (1075 - exponent) as nat;
            if k >= 52 {
                lemma2_to64_rest();
                lemma_pow2_pos(52);
                assert(size * pow2(k) >= pow2(k)) by (nonlinear_arith)
                    requires
                        size >= 1,
                ;
            }
            lemma_pow2_unfold(k + 1);
            assert(size * (2 * pow2(k)) == 2 * (size * pow2(k))) by (nonlinear_arith);
        }
        significand = significand * 2;
        exponent = exponent - 1;
    }
    let fraction: u64 = significand - 0x10_0000_0000_0000;
    let bits: u64 = (sign << 63) | (exponent << 52) | fraction;
    proof {
        lemma_fields(sign, exponent, fraction, bits);
    }
    bits
}

/// No two integers are one double.
pub proof fn law_double_is_one_integer(bits: u64, a: int, b: int)
    requires
        double_is(bits, a),
        double_is(bits, b),
    ensures
        a == b,
{
    lemma_field_bounds(bits);
    let e = exponent_of(bits);
    if e <= 1075 {
        let k = (1075 - e) as nat;
        lemma_pow2_pos(k);
        if a != 0 && b != 0 {
            let (x, y, p) = (magnitude_of(a), magnitude_of(b), pow2(k));
            assert(x == y) by (nonlinear_arith)
                requires
                    x * p == y * p,
                    p > 0,
            ;
        } else if a != b {
            // The exponent of zero is too small for any other integer.
            let x = if a == 0 {
                magnitude_of(b)
            } else {
                magnitude_of(a)
            };
            lemma_too_small(x, k);
        }
    }
}

/// An integer times a large power of two is larger than any significand.
proof fn lemma_too_small(x: nat, k: nat)
    requires
        x > 0,
        k >= 53,
    ensures
        x * pow2(k) >= 0x20_0000_0000_0000,
{
    lemma2_to64_rest();
    if k > 53 {
        lemma_pow2_strictly_increases(53, k);
    }
    assert(x * pow2(k) >= pow2(k)) by (nonlinear_arith)
        requires
            x >= 1,
    ;
}

/// The integer that a double is, if it is one of less than two to the 53.
pub fn whole_double(bits: u64) -> (r: Option<i64>)
    ensures
        match r {
            Some(n) => double_is(bits, n as int) && magnitude_of(n as int) < EXACT,
            None => forall|n: int| magnitude_of(n) < EXACT ==> !#[trigger] double_is(bits, n),
        },
{
    let exponent: u64 = (bits >> 52) & 0x7ff;
    let fraction: u64 = bits & 0xf_ffff_ffff_ffff;
    proof {
        lemma_field_bounds(bits);
    }
    if exponent == 0 && fraction == 0 {
        return Some(0);
    }
    let significand: u64 = 0x10_0000_0000_0000 + fraction;
    if exponent < 1023 {
        proof {
            assert forall|n: int| magnitude_of(n) < EXACT implies !#[trigger] double_is(bits, n) by {
                if n != 0 {
                    lemma_too_small(magnitude_of(n), (1075 - exponent) as nat);
                }
            }
        }
        return None;
    }
    if exponent > 1075 {
        proof {
            let k = (exponent - 1075) as nat;
            lemma2_to64();
            if k > 1 {
                lemma_pow2_strictly_increases(1, k);
            }
            let p = pow2(k);
            assert(significand * p >= 0x20_0000_0000_0000) by (nonlinear_arith)
                requires
                    significand >= 0x10_0000_0000_0000,
                    p >= 2,
            ;
        }
        return None;
    }
    let shift: u64 = 1075 - exponent;
    let mut power: u64 = 1;
    let mut k: u64 = 0;
    proof {
        lemma2_to64();
    }
    while k < shift
        invariant
            k <= shift <= 52,
            power == pow2(k as nat),
            power <= 0x10_0000_0000_0000,
        decreases shift - k,
    {
        proof {
            lemma_pow2_unfold((k + 1) as nat);
            lemma2_to64_rest();
            if k + 1 < 52 {
                lemma_pow2_strictly_increases((k + 1) as nat, 52);
            }
        }
        power = power * 2;
        k = k + 1;
    }
    proof {
        lemma_pow2_pos(k as nat);
    }
    let size: u64 = significand / power;
    let rest: u64 = significand % power;
    proof {
        vstd::arithmetic::div_mod::lemma_fundamental_div_mod(significand as int, power as int);
        assert(power * size == size * power) by (nonlinear_arith);
    }
    if rest != 0 {
        proof {
            assert forall|n: int| magnitude_of(n) < EXACT implies !#[trigger] double_is(bits, n) by {
                if n != 0 && double_is(bits, n) {
                    vstd::arithmetic::div_mod::lemma_mod_multiples_basic(
                        magnitude_of(n) as int,
                        power as int,
                    );
                }
            }
        }
        return None;
    }
    assert(size < 0x20_0000_0000_0000) by (nonlinear_arith)
        requires
            size * power == significand,
            significand < 0x20_0000_0000_0000,
            power >= 1,
    ;
    assert(size > 0) by (nonlinear_arith)
        requires
            size * power == significand,
            significand > 0,
    ;
    if bits >> 63 == 1 {
        Some(-(size as i64))
    } else {
        Some(size as i64)
    }
}

} // verus!
