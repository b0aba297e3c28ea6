//! Fixed-point exponential.
//!
//! Values are naturals scaled by 10^`PRECISION`. The exponential of a
//! non-negative rational `n / d` is the product of a whole power of `e`,
//! reached by repeated multiplication with the scaled constant `e()`, and the
//! Taylor polynomial of degree 20 at the fractional part, evaluated in Horner
//! form. Every division rounds down. The definition is chosen so that the
//! result never decreases when the argument grows, which the lemmas below
//! prove; the curves built on it inherit that.

use vstd::prelude::*;
use vstd::arithmetic::div_mod::{
    lemma_div_is_ordered, lemma_div_multiples_vanish, lemma_div_multiples_vanish_quotient,
    lemma_div_pos_is_pos, lemma_fundamental_div_mod, lemma_truncate_middle,
};
use vstd::arithmetic::mul::{lemma_mul_is_associative, lemma_mul_is_commutative};
use vstd::arithmetic::power::pow;
use num_bigint::BigUint;
use crate::calculations::biguint::{
    big_add, big_div, big_from_u128, big_from_u64, big_le, big_mul, big_value,
};

verus! {

/// Decimal digits behind the point in fixed-point values.
pub const PRECISION: usize = 18;

/// The fixed-point representation of one: 10^18.
pub const FIXED_ONE: u64 = 1_000_000_000_000_000_000;

/// The fixed-point representation of Euler's number, rounded down.
pub const FIXED_E: u64 = 2_718_281_828_459_045_235;

/// One more than the degree of the Taylor polynomial.
pub const EXP_SERIES_TERMS: u64 = 21;

/// Euler's number in fixed point.
pub fn e() -> (r: BigUint)
    ensures
        big_value(r) == FIXED_E,
{
    big_from_u64(FIXED_E)
}

/// How often `v` can be divided by the integer `FIXED_E`, rounding down,
/// until at most one is left.
pub open spec fn ln_divisions(v: nat) -> nat
    decreases v,
{
    if v <= 1 {
        0
    } else {
        1 + ln_divisions(v / (FIXED_E as nat))
    }
}

/// The number of divisions by `e()` that bring `value` down to at most one.
/// This is a logarithm of the integer `value` to the base of the integer
/// that `e()` holds, not of a fixed-point number: see
/// `lemma_ln_divisions_bounds`.
pub fn ln(value: BigUint) -> (r: BigUint)
    ensures
        big_value(r) == ln_divisions(big_value(value)),
{
    let one = big_from_u64(1);
    let euler = e();
    let mut result = big_from_u64(0);
    let mut n = value;
    while !big_le(&n, &one)
        invariant
            big_value(one) == 1,
            big_value(euler) == FIXED_E,
            big_value(result) + ln_divisions(big_value(n)) == ln_divisions(big_value(value)),
        decreases big_value(n),
    {
        n = big_div(&n, &euler);
        result = big_add(&result, &one);
    }
    result
}

/// The count of divisions is the least `k` with `v < 2 * FIXED_E^k`.
pub proof fn lemma_ln_divisions_bounds(v: nat)
    requires
        v >= 2,
    ensures
        ln_divisions(v) >= 1,
        2 * pow(FIXED_E as int, (ln_divisions(v) - 1) as nat) <= v,
        v < 2 * pow(FIXED_E as int, ln_divisions(v)),
    decreases v,
{
    let base = FIXED_E as int;
    let rest = v / (FIXED_E as nat);
    let k = ln_divisions(v);
    lemma_fundamental_div_mod(v as int, base);
    reveal_with_fuel(pow, 2);
    if rest <= 1 {
        assert(ln_divisions(rest) == 0);
        assert(pow(base, 0) == 1);
        assert(pow(base, 1) == base);
    } else {
        lemma_ln_divisions_bounds(rest);
        let inner = ln_divisions(rest);
        let low = pow(base, (inner - 1) as nat);
        let high = pow(base, inner);
        assert(high == base * low);
        assert(pow(base, k) == base * high);
        assert(2 * high <= v) by (nonlinear_arith)
            requires
                2 * low <= rest,
                high == base * low,
                v >= base * rest,
                base > 0,
        ;
        assert(v < 2 * (base * high)) by (nonlinear_arith)
            requires
                rest + 1 <= 2 * high,
                v < base * rest + base,
                base > 0,
        ;
    }
}

/// The tail of the Taylor polynomial of the exponential at `r / d`, in Horner
/// form from term `i` on: `1 + (r/d)/i * (1 + (r/d)/(i+1) * (...))`, in fixed
/// point. With `i == 1` it is the whole polynomial.
pub open spec fn exp_series(r: nat, d: nat, i: nat) -> nat
    decreases EXP_SERIES_TERMS - i,
{
    if i >= EXP_SERIES_TERMS {
        FIXED_ONE as nat
    } else {
        FIXED_ONE as nat + r * exp_series(r, d, i + 1) / (i * d)
    }
}

/// `e` to the power `q`, in fixed point, by `q` multiplications that each
/// round down.
pub open spec fn exp_whole(q: nat) -> nat
    decreases q,
{
    if q == 0 {
        FIXED_ONE as nat
    } else {
        exp_whole((q - 1) as nat) * (FIXED_E as nat) / (FIXED_ONE as nat)
    }
}

/// The exponential of `n / d` in fixed point.
pub open spec fn exp_fixed(n: nat, d: nat) -> nat {
    exp_whole(n / d) * exp_series(n % d, d, 1) / (FIXED_ONE as nat)
}

/// The Taylor polynomial at `r / d`.
pub fn exp_series_wide(r: u128, d: u128) -> (t: BigUint)
    requires
        d > 0,
    ensures
        big_value(t) == exp_series(r as nat, d as nat, 1),
{
    let one = big_from_u64(FIXED_ONE);
    let big_r = big_from_u128(r);
    let big_d = big_from_u128(d);
    let mut t = big_from_u64(FIXED_ONE);
    let mut i: u64 = EXP_SERIES_TERMS;
    while i > 1
        invariant
            1 <= i <= EXP_SERIES_TERMS,
            d > 0,
            big_value(one) == FIXED_ONE,
            big_value(big_r) == r,
            big_value(big_d) == d,
            big_value(t) == exp_series(r as nat, d as nat, i as nat),
        decreases i,
    {
        i = i - 1;
        let big_i = big_from_u64(i);
        let divisor = big_mul(&big_i, &big_d);
        assert(big_value(divisor) > 0) by (nonlinear_arith)
            requires
                big_value(divisor) == i * d,
                i >= 1,
                d > 0,
        ;
        let product = big_mul(&big_r, &t);
        let quotient = big_div(&product, &divisor);
        t = big_add(&one, &quotient);
    }
    t
}

/// `e` to the power `q`.
pub fn exp_whole_wide(q: u64) -> (w: BigUint)
    ensures
        big_value(w) == exp_whole(q as nat),
{
    let one = big_from_u64(FIXED_ONE);
    let euler = e();
    let mut w = big_from_u64(FIXED_ONE);
    let mut i: u64 = 0;
    while i < q
        invariant
            i <= q,
            big_value(one) == FIXED_ONE,
            big_value(euler) == FIXED_E,
            big_value(w) == exp_whole(i as nat),
        decreases q - i,
    {
        i = i + 1;
        let product = big_mul(&w, &euler);
        w = big_div(&product, &one);
    }
    w
}

/// The exponential of `n / d`.
pub fn exp_fixed_wide(n: u128, d: u128) -> (r: BigUint)
    requires
        d > 0,
        n / d <= u64::MAX,
    ensures
        big_value(r) == exp_fixed(n as nat, d as nat),
{
    let q: u64 = (n / d) as u64;
    let whole = exp_whole_wide(q);
    let series = exp_series_wide(n % d, d);
    let product = big_mul(&whole, &series);
    let one = big_from_u64(FIXED_ONE);
    big_div(&product, &one)
}

/// The Taylor polynomial is at least one.
pub proof fn lemma_exp_series_at_least_one(r: nat, d: nat, i: nat)
    requires
        d > 0,
        i >= 1,
    ensures
        exp_series(r, d, i) >= FIXED_ONE,
{
    if i < EXP_SERIES_TERMS {
        let tail = exp_series(r, d, i + 1);
        assert(r * tail / (i * d) >= 0) by (nonlinear_arith)
            requires
                d > 0,
                i >= 1,
        ;
    }
}

/// The Taylor polynomial does not decrease when its argument grows.
pub proof fn lemma_exp_series_monotonic(r1: nat, r2: nat, d: nat, i: nat)
    requires
        r1 <= r2,
        d > 0,
        i >= 1,
    ensures
        exp_series(r1, d, i) <= exp_series(r2, d, i),
    decreases EXP_SERIES_TERMS - i,
{
    if i < EXP_SERIES_TERMS {
        lemma_exp_series_monotonic(r1, r2, d, i + 1);
        let t1 = exp_series(r1, d, i + 1);
        let t2 = exp_series(r2, d, i + 1);
        assert(r1 * t1 <= r2 * t2) by (nonlinear_arith)
            requires
                r1 <= r2,
                t1 <= t2,
        ;
        assert(i * d > 0) by (nonlinear_arith)
            requires
                i >= 1,
                d > 0,
        ;
        lemma_div_is_ordered((r1 * t1) as int, (r2 * t2) as int, (i * d) as int);
    }
}

/// The Taylor polynomial at one, from term `i` on.
pub open spec fn unit_series(i: nat) -> nat
    decreases EXP_SERIES_TERMS - i,
{
    if i >= EXP_SERIES_TERMS {
        FIXED_ONE as nat
    } else {
        FIXED_ONE as nat + unit_series(i + 1) / i
    }
}

/// At `d / d` the Taylor polynomial does not depend on `d`.
pub proof fn lemma_exp_series_at_unit(d: nat, i: nat)
    requires
        d > 0,
        i >= 1,
    ensures
        exp_series(d, d, i) == unit_series(i),
    decreases EXP_SERIES_TERMS - i,
{
    if i < EXP_SERIES_TERMS {
        lemma_exp_series_at_unit(d, i + 1);
        let tail = exp_series(d, d, i + 1);
        lemma_div_multiples_vanish_quotient(d as int, tail as int, i as int);
        lemma_mul_is_commutative(d as int, i as int);
    }
}

/// At one, the Taylor polynomial is exactly the constant `e()`.
pub proof fn lemma_unit_series_is_e()
    ensures
        unit_series(1) == FIXED_E,
{
    assert(unit_series(21) == 1000000000000000000);
    assert(unit_series(20) == 1050000000000000000);
    assert(unit_series(19) == 1055263157894736842);
    assert(unit_series(18) == 1058625730994152046);
    assert(unit_series(17) == 1062272101823185414);
    assert(unit_series(16) == 1066392006363949088);
    assert(unit_series(15) == 1071092800424263272);
    assert(unit_series(14) == 1076506628601733090);
    assert(unit_series(13) == 1082808202200133314);
    assert(unit_series(12) == 1090234016850011109);
    assert(unit_series(11) == 1099112183350001009);
    assert(unit_series(10) == 1109911218335000100);
    assert(unit_series(9) == 1123323468703888900);
    assert(unit_series(8) == 1140415433587986112);
    assert(unit_series(7) == 1162916490512569444);
    assert(unit_series(6) == 1193819415085428240);
    assert(unit_series(5) == 1238763883017085648);
    assert(unit_series(4) == 1309690970754271412);
    assert(unit_series(3) == 1436563656918090470);
    assert(unit_series(2) == 1718281828459045235);
}

/// On arguments up to one the Taylor polynomial stays between one and `e()`.
pub proof fn lemma_exp_series_bounds(r: nat, d: nat)
    requires
        r <= d,
        d > 0,
    ensures
        FIXED_ONE <= exp_series(r, d, 1) <= FIXED_E,
{
    lemma_exp_series_at_least_one(r, d, 1);
    lemma_exp_series_monotonic(r, d, d, 1);
    lemma_exp_series_at_unit(d, 1);
    lemma_unit_series_is_e();
}

/// A fixed-point product with a factor of at least one does not shrink, and
/// it does not shrink when a factor grows.
pub proof fn lemma_fixed_product_ordered(w1: nat, s1: nat, w2: nat, s2: nat)
    requires
        w1 <= w2,
        s1 <= s2,
    ensures
        w1 * s1 / (FIXED_ONE as nat) <= w2 * s2 / (FIXED_ONE as nat),
        s1 >= FIXED_ONE ==> w1 <= w1 * s1 / (FIXED_ONE as nat),
{
    assert(w1 * s1 <= w2 * s2) by (nonlinear_arith)
        requires
            w1 <= w2,
            s1 <= s2,
    ;
    lemma_div_is_ordered((w1 * s1) as int, (w2 * s2) as int, FIXED_ONE as int);
    if s1 >= FIXED_ONE {
        assert(w1 * (FIXED_ONE as nat) <= w1 * s1) by (nonlinear_arith)
            requires
                s1 >= FIXED_ONE as nat,
        ;
        lemma_div_is_ordered((w1 * (FIXED_ONE as nat)) as int, (w1 * s1) as int, FIXED_ONE as int);
        lemma_div_multiples_vanish(w1 as int, FIXED_ONE as int);
    }
}

/// Whole powers of `e` do not decrease with the exponent.
pub proof fn lemma_exp_whole_monotonic(q1: nat, q2: nat)
    requires
        q1 <= q2,
    ensures
        exp_whole(q1) <= exp_whole(q2),
    decreases q2,
{
    if q1 < q2 {
        lemma_exp_whole_monotonic(q1, (q2 - 1) as nat);
        let w = exp_whole((q2 - 1) as nat);
        lemma_fixed_product_ordered(w, FIXED_E as nat, w, FIXED_E as nat);
    }
}

/// The fixed-point exponential is at least one.
pub proof fn lemma_exp_fixed_at_least_one(n: nat, d: nat)
    requires
        d > 0,
    ensures
        exp_fixed(n, d) >= FIXED_ONE,
{
    let w = exp_whole(n / d);
    let s = exp_series(n % d, d, 1);
    lemma_div_pos_is_pos(n as int, d as int);
    lemma_exp_whole_monotonic(0, n / d);
    lemma_exp_series_at_least_one(n % d, d, 1);
    lemma_fixed_product_ordered(w, s, w, s);
}

/// The fixed-point exponential never decreases when its argument grows.
pub proof fn lemma_exp_fixed_monotonic(n1: nat, n2: nat, d: nat)
    requires
        n1 <= n2,
        d > 0,
    ensures
        exp_fixed(n1, d) <= exp_fixed(n2, d),
{
    let q1 = n1 / d;
    let q2 = n2 / d;
    let r1 = n1 % d;
    let r2 = n2 % d;
    lemma_div_is_ordered(n1 as int, n2 as int, d as int);
    lemma_fundamental_div_mod(n1 as int, d as int);
    lemma_fundamental_div_mod(n2 as int, d as int);
    if q1 == q2 {
        assert(r1 <= r2);
        lemma_exp_series_monotonic(r1, r2, d, 1);
        lemma_fixed_product_ordered(
            exp_whole(q1),
            exp_series(r1, d, 1),
            exp_whole(q2),
            exp_series(r2, d, 1),
        );
    } else {
        // Below the next whole power, which in turn is below the target.
        lemma_exp_series_bounds(r1, d);
        lemma_fixed_product_ordered(
            exp_whole(q1),
            exp_series(r1, d, 1),
            exp_whole(q1),
            FIXED_E as nat,
        );
        assert(exp_whole(q1 + 1) == exp_whole(q1) * (FIXED_E as nat) / (FIXED_ONE as nat));
        lemma_exp_whole_monotonic(q1 + 1, q2);
        lemma_exp_series_at_least_one(r2, d, 1);
        lemma_fixed_product_ordered(
            exp_whole(q2),
            exp_series(r2, d, 1),
            exp_whole(q2),
            exp_series(r2, d, 1),
        );
    }
}

/// The Taylor polynomial depends on the argument only, not on how the
/// fraction is written.
pub proof fn lemma_exp_series_scaling(r: nat, d: nat, m: nat, i: nat)
    requires
        d > 0,
        m > 0,
        i >= 1,
    ensures
        exp_series(m * r, m * d, i) == exp_series(r, d, i),
    decreases EXP_SERIES_TERMS - i,
{
    if i < EXP_SERIES_TERMS {
        lemma_exp_series_scaling(r, d, m, i + 1);
        let tail = exp_series(r, d, i + 1);
        assert((m * r) * tail == m * (r * tail)) by {
            lemma_mul_is_associative(m as int, r as int, tail as int);
        }
        assert(i * (m * d) == m * (i * d)) by (nonlinear_arith);
        assert(i * d > 0) by (nonlinear_arith)
            requires
                i >= 1,
                d > 0,
        ;
        lemma_div_multiples_vanish_quotient(m as int, (r * tail) as int, (i * d) as int);
    }
}

/// The fixed-point exponential depends on the argument only, not on how the
/// fraction is written.
pub proof fn lemma_exp_fixed_scaling(n: nat, d: nat, m: nat)
    requires
        d > 0,
        m > 0,
    ensures
        exp_fixed(m * n, m * d) == exp_fixed(n, d),
{
    lemma_div_multiples_vanish_quotient(m as int, n as int, d as int);
    lemma_truncate_middle(n as int, m as int, d as int);
    lemma_exp_series_scaling(n % d, d, m, 1);
}

/// The denominator of the exact Taylor polynomial at `r / d` from term `i`
/// on: the product of `j * d` over the terms `j` that remain.
pub open spec fn taylor_denominator(d: nat, i: nat) -> nat
    decreases EXP_SERIES_TERMS - i,
{
    if i >= EXP_SERIES_TERMS {
        1
    } else {
        i * d * taylor_denominator(d, i + 1)
    }
}

/// The numerator of the exact Taylor polynomial at `r / d` from term `i` on,
/// over `taylor_denominator(d, i)`. With `i == 1` the quotient of the two is
/// the sum of `(r / d)^k / k!` over `k` from 0 to 20, with nothing rounded.
pub open spec fn taylor_numerator(r: nat, d: nat, i: nat) -> nat
    decreases EXP_SERIES_TERMS - i,
{
    if i >= EXP_SERIES_TERMS {
        1
    } else {
        taylor_denominator(d, i) + r * taylor_numerator(r, d, i + 1)
    }
}

/// How many units the rounded polynomial from term `i` on may lie below the
/// exact one.
pub open spec fn series_slack(i: nat) -> nat {
    if i <= 1 {
        3
    } else {
        2
    }
}

/// On arguments up to one, the rounded Taylor polynomial is never above the
/// exact one and less than three units below it.
pub proof fn lemma_exp_series_accuracy(r: nat, d: nat, i: nat)
    requires
        r <= d,
        d > 0,
        i >= 1,
    ensures
        taylor_denominator(d, i) > 0,
        taylor_numerator(r, d, i) >= taylor_denominator(d, i),
        exp_series(r, d, i) * taylor_denominator(d, i) <= FIXED_ONE * taylor_numerator(r, d, i),
        FIXED_ONE * taylor_numerator(r, d, i) < (exp_series(r, d, i) + series_slack(i))
            * taylor_denominator(d, i),
    decreases EXP_SERIES_TERMS - i,
{
    let one = FIXED_ONE as int;
    if i < EXP_SERIES_TERMS {
        lemma_exp_series_accuracy(r, d, i + 1);
        let rr = r as int;
        let tail = exp_series(r, d, i + 1) as int;
        let tail_den = taylor_denominator(d, i + 1) as int;
        let tail_num = taylor_numerator(r, d, i + 1) as int;
        let divisor = (i * d) as int;
        let product = rr * tail;
        let quotient = product / divisor;
        let t = exp_series(r, d, i) as int;
        let den = taylor_denominator(d, i) as int;
        let num = taylor_numerator(r, d, i) as int;
        let slack = series_slack(i) as int;
        assert(divisor > 0) by (nonlinear_arith)
            requires
                divisor == i * d,
                i >= 1,
                d > 0,
        ;
        lemma_fundamental_div_mod(product, divisor);
        assert(product >= 0) by (nonlinear_arith)
            requires
                product == rr * tail,
                rr >= 0,
                tail >= 0,
        ;
        lemma_div_pos_is_pos(product, divisor);
        assert(t == one + quotient);
        assert(den == divisor * tail_den);
        assert(num == den + rr * tail_num);
        assert(den > 0) by (nonlinear_arith)
            requires
                den == divisor * tail_den,
                divisor > 0,
                tail_den > 0,
        ;
        assert(rr * tail_num >= 0) by (nonlinear_arith)
            requires
                rr >= 0,
                tail_num >= 0,
        ;
        assert(divisor * quotient <= product < divisor * quotient + divisor);
        // The rounded polynomial is not above the exact one.
        assert(quotient * den <= product * tail_den) by (nonlinear_arith)
            requires
                den == divisor * tail_den,
                divisor * quotient <= product,
                tail_den > 0,
        ;
        assert(product * tail_den <= rr * (one * tail_num)) by (nonlinear_arith)
            requires
                product == rr * tail,
                tail * tail_den <= one * tail_num,
                rr >= 0,
        ;
        assert(t * den == one * den + quotient * den) by (nonlinear_arith)
            requires
                t == one + quotient,
        ;
        assert(one * num == one * den + rr * (one * tail_num)) by (nonlinear_arith)
            requires
                num == den + rr * tail_num,
        ;
        // It is less than the slack below it.
        assert(rr * (one * tail_num) <= (product + 2 * rr) * tail_den) by (nonlinear_arith)
            requires
                product == rr * tail,
                one * tail_num < (tail + 2) * tail_den,
                rr >= 0,
        ;
        assert(2 * rr <= (slack - 1) * divisor) by (nonlinear_arith)
            requires
                divisor == i * d,
                rr <= d,
                i >= 1,
                slack == if i <= 1 {
                    3int
                } else {
                    2int
                },
        ;
        assert((product + 2 * rr) * tail_den < (quotient + slack) * den) by (nonlinear_arith)
            requires
                product < divisor * quotient + divisor,
                2 * rr <= (slack - 1) * divisor,
                den == divisor * tail_den,
                tail_den > 0,
        ;
        assert((t + slack) * den == one * den + (quotient + slack) * den) by (nonlinear_arith)
            requires
                t == one + quotient,
        ;
    }
}

/// Whole powers are never above the exact power of the constant `FIXED_E`,
/// and below it by less than one part in 10^18:
/// `(FIXED_E / 10^18)^q * (1 - 10^-18) <= exp_whole(q) / 10^18`.
pub proof fn lemma_exp_whole_accuracy(q: nat)
    ensures
        pow(FIXED_ONE as int, q) > 0,
        pow(FIXED_E as int, q) >= pow(FIXED_ONE as int, q),
        exp_whole(q) * pow(FIXED_ONE as int, q) <= pow(FIXED_E as int, q) * FIXED_ONE,
        pow(FIXED_E as int, q) * (FIXED_ONE - 1) + pow(FIXED_ONE as int, q) <= exp_whole(q) * pow(
            FIXED_ONE as int,
            q,
        ),
    decreases q,
{
    let one = FIXED_ONE as int;
    let euler = FIXED_E as int;
    reveal_with_fuel(pow, 2);
    if q > 0 {
        lemma_exp_whole_accuracy((q - 1) as nat);
        let x0 = pow(euler, (q - 1) as nat);
        let o0 = pow(one, (q - 1) as nat);
        let w0 = exp_whole((q - 1) as nat) as int;
        let x = pow(euler, q);
        let o = pow(one, q);
        let w = exp_whole(q) as int;
        assert(x == euler * x0);
        assert(o == one * o0);
        assert(w == w0 * euler / one);
        lemma_fundamental_div_mod(w0 * euler, one);
        assert(one * w <= w0 * euler < one * w + one);
        assert(o > 0 && x >= o) by (nonlinear_arith)
            requires
                x == euler * x0,
                o == one * o0,
                x0 >= o0,
                o0 > 0,
                euler >= one,
                one > 0,
        ;
        assert(w * o <= x * one) by (nonlinear_arith)
            requires
                one * w <= w0 * euler,
                w0 * o0 <= x0 * one,
                x == euler * x0,
                o == one * o0,
                o0 > 0,
                euler > 0,
        ;
        assert(x * (one - 1) + o <= w * o) by (nonlinear_arith)
            requires
                w0 * euler < one * w + one,
                x0 * (one - 1) + o0 <= w0 * o0,
                x == euler * x0,
                o == one * o0,
                o0 > 0,
                euler >= 2 * one,
                one > 0,
        ;
    }
}

/// Four factors may be paired either way.
proof fn lemma_swap_factors(a: int, b: int, c: int, d: int)
    by (nonlinear_arith)
    ensures
        (a * b) * (c * d) == (a * d) * (c * b),
{
}

/// A product with a sum of three terms, multiplied out.
proof fn lemma_distribute_three(a: int, b: int, p: int, q: int)
    by (nonlinear_arith)
    ensures
        (a + b) * (p - q + 1) == a * p + b * p - a * q - b * q + a + b,
{
}

/// The product of the two lower bounds, multiplied out.
proof fn lemma_expand_error_product(x: int, o: int, c: int, one: int, num: int, den: int)
    ensures
        (x * c + o) * (one * num - 3 * den + 1) == (x * num) * (one * c) - (x * den) * (3 * c) + x
            * c + (o * num) * one - (o * den) * 3 + o,
{
    lemma_distribute_three(x * c, o, one * num, 3 * den);
    lemma_swap_factors(x, c, one, num);
    lemma_swap_factors(x, c, 3, den);
    lemma_mul_is_associative(o, one, num);
    lemma_mul_is_associative(o, 3, den);
    lemma_mul_is_commutative(one, num);
    lemma_mul_is_commutative(3, den);
    lemma_mul_is_associative(o, num, one);
    lemma_mul_is_associative(o, den, 3);
}

/// The fixed-point exponential against the exact value of its definition:
/// with `q` the whole part of `n / d` and `r / d` the fraction, it is never
/// above `(FIXED_E / 10^18)^q` times the Taylor polynomial of degree 20 at
/// `r / d`, and at most five parts in 10^18 below it.
///
/// That exact value in turn differs from the exponential of `n / d` by the
/// rounding of Euler's number in `FIXED_E` and by the remainder of the
/// polynomial, both below 10^-18 in each factor; no proof here covers them.
pub proof fn lemma_exp_fixed_accuracy(n: nat, d: nat)
    requires
        d > 0,
    ensures
        ({
            let exact_numerator = pow(FIXED_E as int, n / d) * taylor_numerator(n % d, d, 1);
            let exact_denominator = pow(FIXED_ONE as int, n / d) * taylor_denominator(d, 1);
            &&& exact_denominator > 0
            &&& exp_fixed(n, d) * exact_denominator <= exact_numerator * FIXED_ONE
            &&& exact_numerator * (FIXED_ONE - 5) <= exp_fixed(n, d) * exact_denominator
        }),
{
    let one = FIXED_ONE as int;
    let q = n / d;
    let r = n % d;
    lemma_fundamental_div_mod(n as int, d as int);
    lemma_div_pos_is_pos(n as int, d as int);
    lemma_exp_whole_accuracy(q);
    lemma_exp_series_accuracy(r, d, 1);
    let w = exp_whole(q) as int;
    let s = exp_series(r, d, 1) as int;
    let f = exp_fixed(n, d) as int;
    let x = pow(FIXED_E as int, q);
    let o = pow(one, q);
    let num = taylor_numerator(r, d, 1) as int;
    let den = taylor_denominator(d, 1) as int;
    let wo = w * o;
    let sd = s * den;
    assert(f == w * s / one);
    lemma_fundamental_div_mod(w * s, one);
    assert(one * f <= w * s < one * f + one);
    assert(o * den > 0) by (nonlinear_arith)
        requires
            o > 0,
            den > 0,
    ;
    assert((one * f) * (o * den) <= wo * sd && wo * sd < (one * f + one) * (o * den))
        by (nonlinear_arith)
        requires
            one * f <= w * s < one * f + one,
            wo == w * o,
            sd == s * den,
            o * den > 0,
    ;
    // Not above the exact value.
    assert(wo * sd <= (x * one) * (one * num)) by (nonlinear_arith)
        requires
            0 <= wo <= x * one,
            0 <= sd <= one * num,
    ;
    assert(one * (f * (o * den)) <= one * ((x * num) * one)) by (nonlinear_arith)
        requires
            (one * f) * (o * den) <= wo * sd,
            wo * sd <= (x * one) * (one * num),
    ;
    // At most five parts in 10^18 below it.
    assert(sd >= one * num - 3 * den + 1 && one * num - 3 * den + 1 >= 0) by (nonlinear_arith)
        requires
            one * num < (s + 3) * den,
            sd == s * den,
            num >= den,
            den > 0,
            one >= 3,
    ;
    assert(wo * sd >= (x * (one - 1) + o) * (one * num - 3 * den + 1)) by (nonlinear_arith)
        requires
            wo >= x * (one - 1) + o,
            x * (one - 1) + o >= 0,
            sd >= one * num - 3 * den + 1,
            one * num - 3 * den + 1 >= 0,
    ;
    let xn = x * num;
    let xd = x * den;
    let on = o * num;
    let od = o * den;
    lemma_expand_error_product(x, o, one - 1, one, num, den);
    assert(xn >= xd && xd >= od && on >= od && od > 0 && x > 0) by (nonlinear_arith)
        requires
            xn == x * num,
            xd == x * den,
            on == o * num,
            od == o * den,
            num >= den,
            den > 0,
            x >= o,
            o > 0,
    ;
    assert((one * f + one) * od == one * (f * od) + one * od) by (nonlinear_arith);
    assert(one * (xn * (one - 5)) <= one * (f * od)) by (nonlinear_arith)
        requires
            wo * sd < one * (f * od) + one * od,
            wo * sd >= xn * (one * (one - 1)) - xd * (3 * (one - 1)) + x * (one - 1) + on * one
                - od * 3 + o,
            xn >= xd,
            xd >= od,
            on >= od,
            od > 0,
            x > 0,
            o > 0,
            one >= 8,
    ;
    assert(f * (o * den) <= (x * num) * one && xn * (one - 5) <= f * od) by (nonlinear_arith)
        requires
            one * (f * (o * den)) <= one * ((x * num) * one),
            one * (xn * (one - 5)) <= one * (f * od),
            od == o * den,
            one > 0,
    ;
}

} // verus!
