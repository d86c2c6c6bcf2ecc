use vstd::prelude::*;
use vstd::arithmetic::power2::{
    lemma_pow2_pos, lemma_pow2_strictly_increases, lemma_pow2_unfold, pow2,
};

verus! {

/// The bit pattern of positive infinity in IEEE 754 single precision.
pub const INFINITY_BITS: u32 = 0x7F80_0000;

/// The key of positive infinity and of every pattern that is not a number:
/// the greatest key there is.
pub const KEY_MAX: u32 = 0xFFFF_FFFF;

/// Whether the sign bit of a single-precision bit pattern is set.
pub open spec fn is_negative(bits: u32) -> bool {
    bits >= 0x8000_0000
}

/// The exponent and fraction fields of a bit pattern, read as one number.
pub open spec fn magnitude(bits: u32) -> int {
    bits as int % 0x8000_0000
}

/// Whether a bit pattern is not a number: the exponent field is all ones
/// and the fraction field is not zero.
pub open spec fn is_nan(bits: u32) -> bool {
    magnitude(bits) > 0x7F80_0000
}

/// The absolute value that the exponent and fraction fields `m` stand for,
/// multiplied by two to the 149th power, which makes it a whole number.
///
/// With `e` the exponent field and `f` the fraction field, a pattern with
/// `e == 0` stands for `f` times two to the power -149, and any other for
/// `(2^23 + f)` times two to the power `e - 150`. For an infinity this gives
/// a number beyond every finite one.
pub open spec fn scaled_magnitude(m: int) -> int {
    let e = m / 0x80_0000;
    let f = m % 0x80_0000;
    if e <= 0 {
        f
    } else {
        (0x80_0000 + f) * pow2((e - 1) as nat)
    }
}

/// The number that a bit pattern stands for, multiplied by two to the 149th
/// power. Both zeros stand for 0.
pub open spec fn scaled_value(bits: u32) -> int {
    if is_negative(bits) {
        -scaled_magnitude(magnitude(bits))
    } else {
        scaled_magnitude(magnitude(bits))
    }
}

/// The comparison `a < b` of two single-precision numbers given by their
/// bit patterns: false where either is not a number, and otherwise the
/// order of the numbers they stand for.
pub open spec fn less(a: u32, b: u32) -> bool {
    !is_nan(a) && !is_nan(b) && scaled_value(a) < scaled_value(b)
}

/// The comparison `a <= b`: false where either is not a number.
pub open spec fn at_most(a: u32, b: u32) -> bool {
    !is_nan(a) && !is_nan(b) && scaled_value(a) <= scaled_value(b)
}

/// The bit pattern of the negated number: the sign bit is flipped.
pub open spec fn negated(bits: u32) -> u32 {
    if is_negative(bits) {
        (bits - 0x8000_0000) as u32
    } else {
        (bits + 0x8000_0000) as u32
    }
}

/// The order key of a bit pattern: an unsigned number that grows with the
/// number the pattern stands for. Positive infinity, and every pattern that
/// is not a number, has the greatest key.
pub open spec fn key_of(bits: u32) -> u32 {
    if is_nan(bits) || bits == INFINITY_BITS {
        KEY_MAX
    } else if is_negative(bits) {
        (0x8000_0000 - magnitude(bits)) as u32
    } else {
        (0x8000_0000 + magnitude(bits)) as u32
    }
}

proof fn lemma_scaled_magnitude_increases(m1: int, m2: int)
    requires
        0 <= m1 < m2,
    ensures
        0 <= scaled_magnitude(m1) < scaled_magnitude(m2),
{
    let e1 = m1 / 0x80_0000;
    let f1 = m1 % 0x80_0000;
    let e2 = m2 / 0x80_0000;
    let f2 = m2 % 0x80_0000;
    assert(0 <= e1 <= e2);
    if e1 == e2 {
        if e1 > 0 {
            let p = pow2((e1 - 1) as nat) as int;
            lemma_pow2_pos((e1 - 1) as nat);
            assert(0 <= (0x80_0000 + f1) * p < (0x80_0000 + f2) * p) by (nonlinear_arith)
                requires
                    0 <= f1 < f2,
                    p > 0,
            ;
        }
    } else {
        let hi = pow2((e2 - 1) as nat) as int;
        lemma_pow2_pos((e2 - 1) as nat);
        assert(0x80_0000 * hi <= (0x80_0000 + f2) * hi) by (nonlinear_arith)
            requires
                0 <= f2,
                hi > 0,
        ;
        if e1 == 0 {
            assert(0x80_0000 <= 0x80_0000 * hi) by (nonlinear_arith)
                requires
                    hi > 0,
            ;
        } else {
            let lo = pow2((e1 - 1) as nat) as int;
            lemma_pow2_pos((e1 - 1) as nat);
            lemma_pow2_unfold(e1 as nat);
            if e1 < e2 - 1 {
                lemma_pow2_strictly_increases(e1 as nat, (e2 - 1) as nat);
            }
            assert(2 * lo <= hi);
            assert(0 <= (0x80_0000 + f1) * lo < 0x80_0000 * hi) by (nonlinear_arith)
                requires
                    0 <= f1 < 0x80_0000,
                    lo > 0,
                    2 * lo <= hi,
            ;
        }
    }
}

/// Order keys keep the order of the numbers. Where `b` is a number, the key
/// of `a` is below the key of `b` exactly if `a < b` holds of the two
/// numbers; and the key of a pattern that is not a number is below no key.
pub proof fn lemma_key_keeps_order(a: u32, b: u32)
    requires
        !is_nan(b),
    ensures
        key_of(a) < key_of(b) <==> less(a, b),
        is_nan(a) ==> key_of(a) == KEY_MAX,
{
    let ma = magnitude(a);
    let mb = magnitude(b);
    if !is_nan(a) {
        if ma < mb {
            lemma_scaled_magnitude_increases(ma, mb);
        } else if mb < ma {
            lemma_scaled_magnitude_increases(mb, ma);
        }
        if ma > 0 {
            lemma_scaled_magnitude_increases(0, ma);
        }
        if mb > 0 {
            lemma_scaled_magnitude_increases(0, mb);
        }
        assert(scaled_magnitude(0) == 0);
    }
}

/// The comparison `<` is a strict order: nothing is below itself, of two
/// numbers at most one is below the other, and what is below a number is
/// below everything that the number is below.
pub proof fn lemma_less_is_a_strict_order(a: u32, b: u32, c: u32)
    ensures
        !less(a, a),
        less(a, b) ==> !less(b, a),
        less(a, b) && less(b, c) ==> less(a, c),
{
}

/// Negation turns the order round, and what is not a number stays so.
pub proof fn lemma_negated(a: u32, b: u32)
    ensures
        is_nan(negated(a)) == is_nan(a),
        scaled_value(negated(a)) == -scaled_value(a),
        less(negated(a), negated(b)) == less(b, a),
{
}

/// Computes the order key of a single-precision bit pattern.
pub fn order_key(bits: u32) -> (k: u32)
    ensures
        k == key_of(bits),
{
    let m: u32 = bits & 0x7FFF_FFFF;
    assert(m == bits % 0x8000_0000 && (bits & 0x8000_0000 != 0) == (bits >= 0x8000_0000))
        by (bit_vector)
        requires
            m == bits & 0x7FFF_FFFF,
    ;
    if m > INFINITY_BITS || bits == INFINITY_BITS {
        KEY_MAX
    } else if bits & 0x8000_0000 != 0 {
        0x8000_0000 - m
    } else {
        0x8000_0000 + m
    }
}

/// Negates a single-precision number, given and returned as a bit pattern.
pub fn negate(bits: u32) -> (r: u32)
    ensures
        r == negated(bits),
{
    assert(bits ^ 0x8000_0000 == (if bits >= 0x8000_0000 {
        (bits - 0x8000_0000) as u32
    } else {
        (bits + 0x8000_0000) as u32
    })) by (bit_vector);
    bits ^ 0x8000_0000
}

/// Tells whether a bit pattern stands for a number, an infinity included.
pub fn is_number(bits: u32) -> (r: bool)
    ensures
        r == !is_nan(bits),
{
    let m: u32 = bits & 0x7FFF_FFFF;
    assert(m == bits % 0x8000_0000) by (bit_vector)
        requires
            m == bits & 0x7FFF_FFFF,
    ;
    m <= INFINITY_BITS
}

/// Compares two single-precision numbers given by their bit patterns:
/// `a < b`.
pub fn is_less(a: u32, b: u32) -> (r: bool)
    ensures
        r == less(a, b),
{
    if is_number(b) {
        proof {
            lemma_key_keeps_order(a, b);
        }
        order_key(a) < order_key(b)
    } else {
        false
    }
}

} // verus!
