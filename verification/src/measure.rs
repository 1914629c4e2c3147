//! Measured values: doubles carried by their bit patterns, and compared by
//! them.
//!
//! A double is `(-1)^s * m * 2^e`, and every finite one is a whole multiple of
//! `2^-1074`, the smallest there is. So a double stands for a whole number
//! here, counted in that unit.

use vstd::arithmetic::power2::{lemma2_to64, lemma_pow2_adds, lemma_pow2_pos, pow2};
use vstd::prelude::*;

use crate::json::{Json, JsonView};

verus! {

/// A measured value.
pub struct Measure {
    /// The bit pattern of the double.
    pub bits: u64,
    /// The text that JSON writes it with.
    pub json: String,
    /// The text it is shown with in a sentence.
    pub shown: String,
}

/// What a measured value stands for.
pub struct MeasureView {
    pub bits: u64,
    pub json: Seq<char>,
    pub shown: Seq<char>,
}

impl View for Measure {
    type V = MeasureView;

    open spec fn view(&self) -> MeasureView {
        MeasureView { bits: self.bits, json: self.json@, shown: self.shown@ }
    }
}

impl Measure {
    /// A copy of the value.
    pub fn copy(&self) -> (r: Measure)
        ensures
            r@ == self@,
    {
        Measure { bits: self.bits, json: self.json.clone(), shown: self.shown.clone() }
    }
}

/// What an optional measured value stands for.
pub open spec fn opt_measure(m: Option<Measure>) -> Option<MeasureView> {
    match m {
        Some(m) => Some(m@),
        None => None,
    }
}

/// A value that may be there, as JSON.
pub open spec fn opt_real(m: Option<MeasureView>) -> JsonView {
    match m {
        Some(m) => JsonView::Real(m.json),
        None => JsonView::Null,
    }
}

/// A value that may be there, as JSON.
pub fn real_or_null(m: &Option<Measure>) -> (r: Json)
    ensures
        r@ == opt_real(opt_measure(*m)),
{
    match m {
        Some(m) => Json::Real(m.json.clone()),
        None => Json::Null,
    }
}

/// Two to the 52nd: one more than the greatest fraction.
pub const FRACTION: u64 = 0x0010_0000_0000_0000;

/// Two to the 63rd: the sign bit.
pub const SIGN: u64 = 0x8000_0000_0000_0000;

/// The exponent that infinities and NaN have.
pub const TOP: u64 = 2047;

/// A bit pattern without its sign bit.
pub open spec fn unsigned(bits: u64) -> int {
    bits as int % (SIGN as int)
}

/// The exponent field of a bit pattern.
pub open spec fn exponent(bits: u64) -> int {
    unsigned(bits) / (FRACTION as int)
}

/// The fraction field of a bit pattern.
pub open spec fn fraction(bits: u64) -> int {
    bits as int % (FRACTION as int)
}

/// A double that is not a number.
pub open spec fn is_nan(bits: u64) -> bool {
    exponent(bits) == TOP && fraction(bits) != 0
}

/// A double that is neither infinite nor NaN.
pub open spec fn is_finite(bits: u64) -> bool {
    exponent(bits) < TOP
}

/// A magnitude by its exponent and its fraction, in units of `2^-1074`.
pub open spec fn scaled(e: int, f: int) -> int {
    if e <= 0 {
        f
    } else {
        (FRACTION + f) * pow2((e - 1) as nat)
    }
}

/// How far a double is from zero, in units of `2^-1074`.
pub open spec fn magnitude(bits: u64) -> int {
    scaled(exponent(bits), fraction(bits))
}

/// The value of a double, in units of `2^-1074`.
pub open spec fn value(bits: u64) -> int {
    if bits >= SIGN {
        -magnitude(bits)
    } else {
        magnitude(bits)
    }
}

/// The whole number `n`, in units of `2^-1074`.
pub open spec fn whole(n: int) -> int {
    n * pow2(1074)
}

/// `a <= b`, as doubles compare.
pub open spec fn at_most(a: u64, b: u64) -> bool {
    !is_nan(a) && !is_nan(b) && value(a) <= value(b)
}

/// `a > b`, as doubles compare.
pub open spec fn above(a: u64, b: u64) -> bool {
    !is_nan(a) && !is_nan(b) && value(a) > value(b)
}

proof fn lemma_scaled_step(e: int, f: int)
    requires
        0 <= e,
        0 <= f < FRACTION,
    ensures
        0 <= scaled(e, f) < scaled(e + 1, 0),
{
    lemma2_to64();
    lemma_pow2_pos((e as nat));
    if e > 0 {
        lemma_pow2_pos((e - 1) as nat);
        lemma_pow2_adds(1, (e - 1) as nat);
        let p = pow2((e - 1) as nat) as int;
        assert(pow2(e as nat) == 2 * p);
        assert((FRACTION + f) * p < FRACTION * (2 * p)) by (nonlinear_arith)
            requires
                0 <= f < FRACTION,
                p > 0,
        ;
        assert(0 <= (FRACTION + f) * p) by (nonlinear_arith)
            requires
                0 <= f,
                p > 0,
        ;
    } else {
        assert(pow2(0) == 1);
    }
}

proof fn lemma_scaled_floor(e1: int, e2: int)
    requires
        0 <= e1 <= e2,
    ensures
        scaled(e1, 0) <= scaled(e2, 0),
    decreases e2 - e1,
{
    if e1 < e2 {
        lemma_scaled_floor(e1, e2 - 1);
        lemma_scaled_step(e2 - 1, 0);
    }
}

proof fn lemma_scaled_fraction(e: int, f1: int, f2: int)
    requires
        0 <= e,
        0 <= f1 < f2 < FRACTION,
    ensures
        scaled(e, f1) < scaled(e, f2),
{
    if e > 0 {
        lemma_pow2_pos((e - 1) as nat);
        let p = pow2((e - 1) as nat) as int;
        assert((FRACTION + f1) * p < (FRACTION + f2) * p) by (nonlinear_arith)
            requires
                f1 < f2,
                p > 0,
        ;
    }
}

/// Without their sign bits, bit patterns order as the magnitudes do.
pub proof fn magnitude_orders_as_bits(a: u64, b: u64)
    ensures
        magnitude(a) < magnitude(b) <==> unsigned(a) < unsigned(b),
        magnitude(a) >= 0,
{
    if unsigned(a) <= unsigned(b) {
        lemma_less(a, b);
    }
    if unsigned(b) <= unsigned(a) {
        lemma_less(b, a);
    }
    let x = unsigned(a);
    let y = unsigned(b);
    if x == y {
        assert(fraction(a) == x % (FRACTION as int));
        assert(fraction(b) == y % (FRACTION as int));
    }
    lemma_scaled_step(exponent(a), fraction(a));
}

proof fn lemma_less(a: u64, b: u64)
    requires
        unsigned(a) <= unsigned(b),
    ensures
        unsigned(a) < unsigned(b) ==> magnitude(a) < magnitude(b),
{
    let x = unsigned(a);
    let y = unsigned(b);
    assert(fraction(a) == x % (FRACTION as int));
    assert(fraction(b) == y % (FRACTION as int));
    let (e1, f1) = (exponent(a), fraction(a));
    let (e2, f2) = (exponent(b), fraction(b));
    if x < y {
        if e1 == e2 {
            lemma_scaled_fraction(e1, f1, f2);
        } else {
            lemma_scaled_step(e1, f1);
            lemma_scaled_floor(e1 + 1, e2);
            if f2 > 0 {
                lemma_scaled_fraction(e2, 0, f2);
            }
        }
    }
}

/// A double with exponent `e` and fraction `f` is the whole number `n`, where
/// the two together are `n` times the power of two between them.
pub proof fn lemma_whole(bits: u64, n: int, k: nat)
    requires
        bits < SIGN,
        exponent(bits) >= 1,
        exponent(bits) - 1 + k == 1074,
        FRACTION + fraction(bits) == n * pow2(k),
    ensures
        value(bits) == whole(n),
{
    let e = exponent(bits);
    lemma_pow2_adds(k, (e - 1) as nat);
    let p = pow2((e - 1) as nat) as int;
    let q = pow2(k) as int;
    assert((n * q) * p == n * (q * p)) by (nonlinear_arith);
}

/// Without its sign bit a double has the magnitude for its value, and that is
/// the value or its opposite.
pub proof fn lemma_unsigned(bits: u64)
    ensures
        value(unsigned(bits) as u64) == magnitude(bits),
        is_nan(unsigned(bits) as u64) == is_nan(bits),
        value(bits) == magnitude(bits) || value(bits) == -magnitude(bits),
        magnitude(bits) >= 0,
{
    let r = unsigned(bits) as u64;
    assert(unsigned(r) == unsigned(bits));
    assert(fraction(r) == fraction(bits));
    magnitude_orders_as_bits(bits, bits);
}

// ---------------------------------------------------------------------------
// Comparing

/// A bit pattern without its sign bit.
pub fn without_sign(bits: u64) -> (r: u64)
    ensures
        r == unsigned(bits),
        value(r) == magnitude(bits),
        is_nan(r) == is_nan(bits),
{
    let r = bits % SIGN;
    assert(unsigned(r) == unsigned(bits));
    assert(fraction(r) == fraction(bits));
    r
}

/// The double of the opposite sign.
pub fn negated(bits: u64) -> (r: u64)
    ensures
        value(r) == -value(bits),
        is_nan(r) == is_nan(bits),
{
    let r = if bits >= SIGN {
        bits - SIGN
    } else {
        bits + SIGN
    };
    assert(unsigned(r) == unsigned(bits));
    assert(fraction(r) == fraction(bits));
    r
}

/// Whether a double is not a number.
pub fn nan(bits: u64) -> (r: bool)
    ensures
        r == is_nan(bits),
{
    bits % SIGN / FRACTION == TOP && bits % FRACTION != 0
}

/// Whether a double is neither infinite nor NaN.
pub fn finite(bits: u64) -> (r: bool)
    ensures
        r == is_finite(bits),
{
    bits % SIGN / FRACTION < TOP
}

/// `a > b`, as doubles compare.
pub fn greater(a: u64, b: u64) -> (r: bool)
    ensures
        r == above(a, b),
{
    if nan(a) || nan(b) {
        return false;
    }
    let x = without_sign(a);
    let y = without_sign(b);
    proof {
        magnitude_orders_as_bits(a, b);
        magnitude_orders_as_bits(b, a);
        magnitude_orders_as_bits(0, a);
        magnitude_orders_as_bits(0, b);
        assert(magnitude(0) == 0);
    }
    if a < SIGN {
        if b < SIGN {
            x > y
        } else {
            // A number from zero up, against one from zero down.
            x > 0 || y > 0
        }
    } else if b < SIGN {
        false
    } else {
        x < y
    }
}

/// `a <= b`, as doubles compare.
pub fn no_greater(a: u64, b: u64) -> (r: bool)
    ensures
        r == at_most(a, b),
{
    !nan(a) && !nan(b) && !greater(a, b)
}

/// Whether twice the magnitude of `a` is less than `b`.
pub open spec fn within_half(a: u64, b: u64) -> bool {
    !is_nan(a) && !is_nan(b) && 2 * magnitude(a) < value(b)
}

/// Whether twice the magnitude of `a` is less than `b`.
pub fn is_within_half(a: u64, b: u64) -> (r: bool)
    ensures
        r == within_half(a, b),
{
    if nan(a) || nan(b) {
        return false;
    }
    let x = without_sign(a);
    let e = x / FRACTION;
    proof {
        assert(exponent(a) == e);
        assert(fraction(a) == x % FRACTION);
        magnitude_orders_as_bits(a, b);
        magnitude_orders_as_bits(b, a);
    }
    if b >= SIGN {
        return false;
    }
    if e >= TOP - 1 {
        proof {
            lemma_top_is_twice(a, b);
        }
        return false;
    }
    let twice = if e == 0 {
        x + x
    } else {
        x + FRACTION
    };
    proof {
        lemma_twice(a, twice);
        magnitude_orders_as_bits(twice, b);
    }
    twice < b
}

/// The bit pattern of twice a magnitude.
proof fn lemma_twice(a: u64, twice: u64)
    requires
        exponent(a) < TOP - 1,
        twice == if exponent(a) == 0 {
            unsigned(a) + unsigned(a)
        } else {
            unsigned(a) + FRACTION
        },
    ensures
        twice < SIGN,
        magnitude(twice) == 2 * magnitude(a),
{
    let e = exponent(a);
    let f = fraction(a);
    assert(unsigned(a) == e * FRACTION + f);
    lemma2_to64();
    if e == 0 {
        if 2 * f < FRACTION {
            assert(exponent(twice) == 0);
            assert(fraction(twice) == 2 * f);
        } else {
            assert(exponent(twice) == 1);
            assert(fraction(twice) == 2 * f - FRACTION);
            assert(scaled(1, 2 * f - FRACTION) == 2 * f * pow2(0));
        }
    } else {
        assert(exponent(twice) == e + 1);
        assert(fraction(twice) == f);
        lemma_pow2_adds(1, (e - 1) as nat);
        let p = pow2((e - 1) as nat) as int;
        assert((FRACTION + f) * (2 * p) == 2 * ((FRACTION + f) * p)) by (nonlinear_arith);
    }
}

/// Twice a magnitude near the top reaches beyond every double.
proof fn lemma_top_is_twice(a: u64, b: u64)
    requires
        exponent(a) >= TOP - 1,
        !is_nan(b),
    ensures
        2 * magnitude(a) >= magnitude(b),
{
    let e = exponent(a);
    let f = fraction(a);
    lemma_scaled_floor(TOP - 1, e);
    if f > 0 {
        lemma_scaled_fraction(e, 0, f);
    }
    lemma2_to64();
    lemma_pow2_adds(1, (TOP - 2) as nat);
    let p = pow2((TOP - 2) as nat) as int;
    assert(scaled(TOP as int, 0) == FRACTION * (2 * p));
    assert(scaled(TOP - 1, 0) == FRACTION * p);
    assert(FRACTION * (2 * p) == 2 * (FRACTION * p)) by (nonlinear_arith);
    let e2 = exponent(b);
    let f2 = fraction(b);
    if e2 < TOP {
        lemma_scaled_step(e2, f2);
        lemma_scaled_floor(e2 + 1, TOP as int);
    }
}

} // verus!
