//! The order of IEEE 754 binary64 numbers, read off their encodings.
//!
//! An encoding is the 64-bit pattern of a number: one sign bit, eleven
//! exponent bits, fifty-two fraction bits. The functions here decide, on the
//! pattern alone, what a comparison of the encoded numbers gives.

use vstd::arithmetic::power2::{lemma_pow2_pos, lemma_pow2_strictly_increases, lemma_pow2_unfold, pow2};
use vstd::prelude::*;

verus! {

/// The sign bit of an encoding; also the encoding of negative zero.
pub const SIGN_BIT: u64 = 0x8000_0000_0000_0000;

/// The encoding of positive infinity: the largest magnitude that is a number.
pub const INFINITY: u64 = 0x7FF0_0000_0000_0000;

/// Two to the 52nd: the weight of the significand's implicit leading bit.
pub const IMPLICIT_BIT: u64 = 0x0010_0000_0000_0000;

/// The encoding with its sign bit cleared.
pub open spec fn magnitude(bits: u64) -> nat {
    (bits % SIGN_BIT) as nat
}

/// The sign bit is set.
pub open spec fn is_negative(bits: u64) -> bool {
    bits >= SIGN_BIT
}

/// The eleven exponent bits, read as a number.
pub open spec fn biased_exponent(bits: u64) -> nat {
    magnitude(bits) / (IMPLICIT_BIT as nat)
}

/// The fifty-two stored significand bits, read as a number.
pub open spec fn fraction(bits: u64) -> nat {
    magnitude(bits) % (IMPLICIT_BIT as nat)
}

/// The encoding is not a number: all exponent bits set, some fraction bit set.
pub open spec fn is_nan(bits: u64) -> bool {
    biased_exponent(bits) == 2047 && fraction(bits) != 0
}

/// The absolute value of the encoded number, times two to the 1074th, which
/// makes every finite binary64 number an integer. An infinity is read by the
/// same formula and so lies above every finite number.
pub open spec fn scaled_magnitude(bits: u64) -> nat {
    if biased_exponent(bits) == 0 {
        fraction(bits)
    } else {
        (IMPLICIT_BIT + fraction(bits)) as nat * pow2((biased_exponent(bits) - 1) as nat)
    }
}

/// The encoded number, times two to the 1074th. Both zeros give 0.
pub open spec fn scaled_value(bits: u64) -> int {
    if is_negative(bits) {
        -(scaled_magnitude(bits) as int)
    } else {
        scaled_magnitude(bits) as int
    }
}

/// IEEE 754 `a <= b`: both are numbers, and `a` is not the greater one.
pub open spec fn at_most(a: u64, b: u64) -> bool {
    !is_nan(a) && !is_nan(b) && scaled_value(a) <= scaled_value(b)
}

/// IEEE 754 `a > 0`: a number strictly above zero.
pub open spec fn above_zero(a: u64) -> bool {
    !is_nan(a) && scaled_value(a) > 0
}

/// Recognises the encodings that are not numbers.
pub fn is_not_a_number(bits: u64) -> (nan: bool)
    ensures
        nan == is_nan(bits),
{
    bits % SIGN_BIT > INFINITY
}

/// IEEE 754 `a <= b` on encodings: false as soon as one side is not a
/// number; the two zeros are equal; otherwise the order of the numbers.
pub fn is_at_most(a: u64, b: u64) -> (holds: bool)
    ensures
        holds == at_most(a, b),
{
    let low: u64 = a % SIGN_BIT;
    let high: u64 = b % SIGN_BIT;
    if low > INFINITY || high > INFINITY {
        return false;
    }
    proof {
        lemma_order_of_encodings(a, b);
    }
    if a >= SIGN_BIT {
        b < SIGN_BIT || high <= low
    } else if b >= SIGN_BIT {
        low == 0 && high == 0
    } else {
        low <= high
    }
}

/// IEEE 754 `a > 0` on an encoding: a positive number, infinity included;
/// neither a zero nor a value that is not a number.
pub fn is_above_zero(a: u64) -> (holds: bool)
    ensures
        holds == above_zero(a),
{
    proof {
        lemma_zero_magnitude(a);
    }
    0 < a && a <= INFINITY
}

/// Among magnitudes, the order of the encodings is the order of the numbers.
pub proof fn lemma_magnitude_order(a: u64, b: u64)
    requires
        magnitude(a) < magnitude(b),
    ensures
        scaled_magnitude(a) < scaled_magnitude(b),
{
    let unit = IMPLICIT_BIT as nat;
    let ea = biased_exponent(a);
    let eb = biased_exponent(b);
    let fa = fraction(a);
    let fb = fraction(b);
    assert(magnitude(a) == ea * unit + fa && fa < unit);
    assert(magnitude(b) == eb * unit + fb && fb < unit);
    assert(ea <= eb) by (nonlinear_arith)
        requires
            ea * unit + fa < eb * unit + fb,
            fa < unit,
            fb < unit,
    ;
    if ea == eb {
        if ea != 0 {
            let scale = pow2((ea - 1) as nat);
            lemma_pow2_pos((ea - 1) as nat);
            assert((unit + fa) * scale < (unit + fb) * scale) by (nonlinear_arith)
                requires
                    fa < fb,
                    scale > 0,
            ;
        }
    } else {
        let high = pow2((eb - 1) as nat);
        lemma_pow2_pos((eb - 1) as nat);
        assert(unit * high <= (unit + fb) * high) by (nonlinear_arith)
            requires
                high > 0,
        ;
        if ea == 0 {
            assert(unit <= unit * high) by (nonlinear_arith)
                requires
                    high > 0,
            ;
        } else {
            let low = pow2((ea - 1) as nat);
            lemma_pow2_pos((ea - 1) as nat);
            lemma_pow2_unfold(ea);
            if ea < eb - 1 {
                lemma_pow2_strictly_increases(ea, (eb - 1) as nat);
            }
            assert(pow2(ea) <= high);
            assert((unit + fa) * low < unit * pow2(ea)) by (nonlinear_arith)
                requires
                    fa < unit,
                    low > 0,
                    pow2(ea) == 2 * low,
            ;
            assert(unit * pow2(ea) <= unit * high) by (nonlinear_arith)
                requires
                    pow2(ea) <= high,
            ;
        }
    }
}

/// Only the two zeros have magnitude zero.
pub proof fn lemma_zero_magnitude(a: u64)
    ensures
        scaled_magnitude(a) == 0 <==> magnitude(a) == 0,
{
    if magnitude(a) > 0 {
        lemma_magnitude_order(0, a);
    }
}

/// How the order of two numbers shows in their encodings: a negative number
/// is at most a non-negative one; two of one sign compare by magnitude, the
/// negative ones in reverse; a non-negative number is at most a negative one
/// only where both are zero.
pub proof fn lemma_order_of_encodings(a: u64, b: u64)
    requires
        !is_nan(a),
        !is_nan(b),
    ensures
        at_most(a, b) <==> if is_negative(a) {
            is_negative(b) ==> magnitude(b) <= magnitude(a)
        } else if is_negative(b) {
            magnitude(a) == 0 && magnitude(b) == 0
        } else {
            magnitude(a) <= magnitude(b)
        },
{
    if magnitude(a) < magnitude(b) {
        lemma_magnitude_order(a, b);
    }
    if magnitude(b) < magnitude(a) {
        lemma_magnitude_order(b, a);
    }
    lemma_zero_magnitude(a);
    lemma_zero_magnitude(b);
}

} // verus!
