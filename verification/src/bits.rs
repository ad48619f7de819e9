//! Ordering of double-precision numbers by their bit patterns.
//!
//! Network outputs and fitnesses reach this crate as 64-bit patterns in the
//! IEEE 754 binary64 layout: a sign bit, eleven bits of biased exponent and
//! fifty-two bits of fraction. Everything the scenarios decide about such a
//! number is a comparison, and comparisons need no arithmetic on it.
use vstd::arithmetic::power2::{lemma_pow2_adds, lemma_pow2_pos, lemma_pow2_unfold, pow2};
use vstd::prelude::*;

verus! {

/// The pattern of one half.
pub const HALF: u64 = 0x3FE0_0000_0000_0000;

/// The pattern of one.
pub const ONE: u64 = 0x3FF0_0000_0000_0000;

/// The pattern of minus one.
pub const NEG_ONE: u64 = 0xBFF0_0000_0000_0000;

/// The pattern of negative infinity.
pub const NEG_INFINITY: u64 = 0xFFF0_0000_0000_0000;

/// The pattern of positive infinity.
pub const INFINITY: u64 = 0x7FF0_0000_0000_0000;

/// The sign bit, alone.
pub const SIGN: u64 = 0x8000_0000_0000_0000;

/// One more than the largest fraction field.
pub const UNIT: u64 = 0x10_0000_0000_0000;

/// The pattern `bits` without its sign.
pub open spec fn without_sign(bits: u64) -> u64 {
    if bits >= SIGN {
        (bits - SIGN) as u64
    } else {
        bits
    }
}

/// Where the number that `bits` denotes stands among all numbers: zero for zero, and the
/// further from it the greater or smaller the number is. `None` where `bits` denotes no
/// number.
pub open spec fn rank(bits: u64) -> Option<int> {
    let pattern = without_sign(bits);
    if pattern > INFINITY {
        None
    } else if bits >= SIGN {
        Some(-(pattern as int))
    } else {
        Some(pattern as int)
    }
}

/// Whether `a` and `b` are both numbers and `a` is the greater.
pub open spec fn above(a: u64, b: u64) -> bool {
    match (rank(a), rank(b)) {
        (Some(x), Some(y)) => x > y,
        _ => false,
    }
}

/// Whether `a` and `b` are both numbers and `a` is not the smaller.
pub open spec fn not_below(a: u64, b: u64) -> bool {
    match (rank(a), rank(b)) {
        (Some(x), Some(y)) => x >= y,
        _ => false,
    }
}

/// Splits `bits` into its sign and its pattern without it.
fn split(bits: u64) -> (r: (bool, u64))
    ensures
        r.0 == (bits >= SIGN),
        r.1 == without_sign(bits),
{
    if bits >= SIGN {
        (true, bits - SIGN)
    } else {
        (false, bits)
    }
}

/// Drops the sign of `bits`.
pub fn absolute(bits: u64) -> (r: u64)
    ensures
        r == without_sign(bits),
{
    split(bits).1
}

/// Tells whether `a` denotes a greater number than `b`. A pattern that denotes
/// no number is greater than nothing, and nothing is greater than it.
pub fn exceeds(a: u64, b: u64) -> (r: bool)
    ensures
        r == above(a, b),
{
    let (a_negative, a_pattern) = split(a);
    let (b_negative, b_pattern) = split(b);
    if a_pattern > INFINITY || b_pattern > INFINITY {
        false
    } else if a_negative {
        b_negative && a_pattern < b_pattern
    } else if b_negative {
        a_pattern > 0 || b_pattern > 0
    } else {
        a_pattern > b_pattern
    }
}

/// Tells whether `a` denotes a number at least as great as `b` does. The answer
/// is no where either pattern denotes no number.
pub fn reaches(a: u64, b: u64) -> (r: bool)
    ensures
        r == not_below(a, b),
{
    let (a_negative, a_pattern) = split(a);
    let (b_negative, b_pattern) = split(b);
    if a_pattern > INFINITY || b_pattern > INFINITY {
        false
    } else if a_negative {
        if b_negative {
            a_pattern <= b_pattern
        } else {
            a_pattern == 0 && b_pattern == 0
        }
    } else {
        b_negative || a_pattern >= b_pattern
    }
}

/// Of two numbers exactly one thing holds: the first is greater, the second is greater, or
/// they are equal.
pub proof fn numbers_compare(a: u64, b: u64)
    requires
        rank(a) is Some,
        rank(b) is Some,
    ensures
        above(a, b) <==> !not_below(b, a),
        above(a, b) ==> !above(b, a),
        !above(a, b) && !above(b, a) <==> rank(a) == rank(b),
{
}

/// Being greater is transitive, and so is not being smaller.
pub proof fn comparisons_chain(a: u64, b: u64, c: u64)
    ensures
        above(a, b) && above(b, c) ==> above(a, c),
        not_below(a, b) && not_below(b, c) ==> not_below(a, c),
        above(a, b) && not_below(b, c) ==> above(a, c),
        not_below(a, b) && above(b, c) ==> above(a, c),
{
}

/// Every number but negative infinity itself is greater than negative infinity.
pub proof fn negative_infinity_is_least(a: u64)
    requires
        rank(a) is Some,
    ensures
        rank(NEG_INFINITY) is Some,
        not_below(a, NEG_INFINITY),
        a != NEG_INFINITY ==> above(a, NEG_INFINITY),
{
}

/// The two zeros are equal, and no other number is equal to them.
pub proof fn zeros_are_equal(a: u64)
    ensures
        rank(a) == rank(0) <==> a == 0 || a == SIGN,
{
}

/// The magnitude of the sign-free pattern `pattern`, in units of the smallest positive
/// number: its fraction, with a leading one unless its exponent is zero, times the power of
/// two that its exponent stands for. Infinity gets a magnitude too, above that of every
/// finite number.
pub open spec fn magnitude(pattern: int) -> int {
    let exponent = pattern / UNIT as int;
    let fraction = pattern % UNIT as int;
    if exponent == 0 {
        fraction
    } else {
        (UNIT + fraction) * pow2((exponent - 1) as nat)
    }
}

/// The number that `bits` denotes, in units of the smallest positive number.
pub open spec fn number(bits: u64) -> int {
    if bits >= SIGN {
        -magnitude(without_sign(bits) as int)
    } else {
        magnitude(without_sign(bits) as int)
    }
}

/// Ranks order patterns as the numbers are ordered that they denote.
pub proof fn ranks_order_numbers(a: u64, b: u64)
    requires
        rank(a) is Some,
        rank(b) is Some,
    ensures
        above(a, b) <==> number(a) > number(b),
        not_below(a, b) <==> number(a) >= number(b),
{
    lemma_magnitudes(without_sign(a) as int, without_sign(b) as int);
    lemma_magnitudes(without_sign(b) as int, without_sign(a) as int);
}

/// A greater sign-free pattern has a greater magnitude.
proof fn lemma_magnitude_increases(p: int, q: int)
    requires
        0 <= p < q,
    ensures
        0 <= magnitude(p) < magnitude(q),
{
    let unit = UNIT as int;
    let (pe, pf) = (p / unit, p % unit);
    let (qe, qf) = (q / unit, q % unit);
    assert(p == pe * unit + pf && q == qe * unit + qf && pe <= qe) by (nonlinear_arith)
        requires
            unit == 0x10_0000_0000_0000,
            pe == p / unit,
            pf == p % unit,
            qe == q / unit,
            qf == q % unit,
            0 <= p < q,
    ;
    if pe == 0 {
        if qe > 0 {
            lemma_pow2_pos((qe - 1) as nat);
            let w = pow2((qe - 1) as nat) as int;
            assert((unit + qf) * w >= unit) by (nonlinear_arith)
                requires
                    w >= 1,
                    qf >= 0,
                    unit > 0,
            ;
        }
    } else {
        lemma_pow2_pos((pe - 1) as nat);
        let v = pow2((pe - 1) as nat) as int;
        assert((unit + pf) * v > 0) by (nonlinear_arith)
            requires
                v >= 1,
                pf >= 0,
                unit > 0,
        ;
        if pe == qe {
            assert((unit + pf) * v < (unit + qf) * v) by (nonlinear_arith)
                requires
                    v >= 1,
                    pf < qf,
            ;
        } else {
            let gap = (qe - pe - 1) as nat;
            lemma_pow2_pos(gap);
            lemma_pow2_unfold(pe as nat);
            lemma_pow2_adds(pe as nat, gap);
            assert(pe + gap == qe - 1);
            let g = pow2(gap) as int;
            let w = pow2((qe - 1) as nat) as int;
            assert(w == 2 * v * g);
            assert((unit + pf) * v < (unit + qf) * w) by (nonlinear_arith)
                requires
                    w == 2 * v * g,
                    v >= 1,
                    g >= 1,
                    0 <= pf < unit,
                    qf >= 0,
            ;
        }
    }
}

/// The zero pattern has magnitude zero.
proof fn lemma_magnitude_zero()
    ensures
        magnitude(0) == 0,
{
    assert(0int / UNIT as int == 0 && 0int % UNIT as int == 0);
}

/// Relates the magnitudes of two patterns to the patterns themselves.
proof fn lemma_magnitudes(p: int, q: int)
    requires
        0 <= p,
        0 <= q,
    ensures
        magnitude(p) < magnitude(q) <==> p < q,
        magnitude(p) == magnitude(q) <==> p == q,
        magnitude(p) >= 0,
        magnitude(q) >= 0,
        magnitude(p) == 0 <==> p == 0,
        magnitude(q) == 0 <==> q == 0,
{
    lemma_magnitude_zero();
    if p > 0 {
        lemma_magnitude_increases(0, p);
    }
    if q > 0 {
        lemma_magnitude_increases(0, q);
    }
    if p < q {
        lemma_magnitude_increases(p, q);
    } else if q < p {
        lemma_magnitude_increases(q, p);
    }
}

/// Patterns below the sign bit are numbers up to infinity, and their order is that of the
/// patterns; above the sign bit the order is reversed, and every number there is below those
/// without a sign, but for the two zeros, which are equal.
pub proof fn patterns_order_numbers(p: u64, q: u64)
    requires
        p <= 0x7FF0_0000_0000_0000,
        q <= 0x7FF0_0000_0000_0000,
    ensures
        above(p, q) <==> p > q,
        not_below(p, q) <==> p >= q,
        above((p + 0x8000_0000_0000_0000) as u64, (q + 0x8000_0000_0000_0000) as u64) <==> p < q,
        not_below((p + 0x8000_0000_0000_0000) as u64, (q + 0x8000_0000_0000_0000) as u64) <==> p
            <= q,
        above(p, (q + 0x8000_0000_0000_0000) as u64) <==> p > 0 || q > 0,
        not_below(p, (q + 0x8000_0000_0000_0000) as u64),
        !above((p + 0x8000_0000_0000_0000) as u64, q),
        not_below((p + 0x8000_0000_0000_0000) as u64, q) <==> p == 0 && q == 0,
{
}

/// What is no number compares with nothing.
pub proof fn no_number_compares(a: u64, b: u64)
    requires
        0x7FF0_0000_0000_0000 < a < 0x8000_0000_0000_0000 || a > 0xFFF0_0000_0000_0000,
    ensures
        !above(a, b),
        !above(b, a),
        !not_below(a, b),
        !not_below(b, a),
        rank(a) is None,
{
}

/// Every other pattern is a number.
pub proof fn other_patterns_are_numbers(a: u64)
    requires
        a <= 0x7FF0_0000_0000_0000 || 0x8000_0000_0000_0000 <= a <= 0xFFF0_0000_0000_0000,
    ensures
        rank(a) is Some,
{
}

/// Dropping the sign changes the topmost bit alone.
pub proof fn the_sign_is_the_topmost_bit(bits: u64)
    ensures
        without_sign(bits) < 0x8000_0000_0000_0000,
        without_sign(bits) == bits || without_sign(bits) + 0x8000_0000_0000_0000 == bits,
{
}

} // verus!
