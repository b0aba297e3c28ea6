//! The exponential curve: the price grows exponentially with the supply.
//!
//! With parameters `a` and `b`, the price of one whole token at supply `x` is
//! `a * e^(x / b)`. All three operations are stated over the fixed-point
//! exponential of `math`, whose monotonicity rules out the failures that a
//! floating-point evaluation has to guard against: the value returned by a
//! burn is never negative, and the amount of a mint always exists.

use vstd::prelude::*;
use vstd::arithmetic::div_mod::{
    lemma_div_is_ordered, lemma_div_multiples_vanish, lemma_div_multiples_vanish_quotient,
    lemma_fundamental_div_mod, lemma_multiply_divide_lt,
};
use num_bigint::BigUint;
use crate::calculations::biguint::{
    big_add, big_div, big_from_u64, big_le, big_mul, big_sub, big_to_u64, big_value,
};
use crate::calculations::bonding_curve::{BondingCurve, Parameters};
use crate::calculations::math::{
    exp_fixed, exp_fixed_wide, lemma_exp_fixed_at_least_one, lemma_exp_fixed_monotonic,
    lemma_exp_fixed_scaling, FIXED_ONE,
};
use crate::utils::{Errors, TOKEN_SCALE};

verus! {

/// The curve is evaluated while `supply / b` does not exceed this bound. At
/// 45 the price `a * e^45` is beyond 64 bits whatever `a` is.
pub const MAX_EXPONENT: u64 = 44;

/// The exponential curve family. `Parameters::a` is the price at supply
/// zero; `Parameters::b` is the supply over which the price grows by the
/// factor `e`.
pub struct ExpMixedBondingSwap;

/// An exponential curve is usable when both parameters are positive.
pub open spec fn exp_valid(params: Parameters) -> bool {
    params.a > 0 && params.b > 0
}

/// The supply `x` lies in the range on which the curve is evaluated.
pub open spec fn exp_in_range(x: nat, b: nat) -> bool {
    x / b <= MAX_EXPONENT
}

/// The price at supply `x`: `a * e^(x / b)`, rounded to the nearest integer.
pub open spec fn exp_price_value(x: nat, a: nat, b: nat) -> nat {
    (2 * a * exp_fixed(x, b) + FIXED_ONE as nat) / (2 * (FIXED_ONE as nat))
}

/// The value returned for `dx` tokens redeemed at supply `x`:
/// `a * b * (e^(x / b) - e^((x - dx) / b)) / 10^9`, rounded to the nearest
/// integer.
pub open spec fn exp_burn_value(dx: nat, x: nat, a: nat, b: nat) -> nat {
    ((2 * a * b * (exp_fixed(x, b) - exp_fixed((x - dx) as nat, b)) + (FIXED_ONE as nat) * (
    TOKEN_SCALE as nat)) / (2 * (FIXED_ONE as nat) * (TOKEN_SCALE as nat)) as int) as nat
}

/// `v` units of value pay for `t` tokens at supply `x`, rounding to the
/// nearest token: the cost of lifting the supply by `t - 1/2`,
/// `a * b * (e^((x + t - 1/2) / b) - e^(x / b)) / 10^9`, is within `v`.
/// Nothing is always paid for.
pub open spec fn exp_mint_affords(v: nat, x: nat, a: nat, b: nat, t: nat) -> bool {
    t == 0 || a * b * (exp_fixed((2 * (x + t) - 1) as nat, 2 * b) - exp_fixed(2 * x, 2 * b)) <= v
        * (TOKEN_SCALE as nat) * (FIXED_ONE as nat)
}

/// `t` is the amount that `v` pays for at supply `x`: the largest that it
/// affords. This is `b * ln(e^(x / b) + v * 10^9 / (a * b)) - x` rounded to
/// the nearest integer, written without the logarithm.
pub open spec fn is_exp_mint_tokens(v: nat, x: nat, a: nat, b: nat, t: nat) -> bool {
    exp_mint_affords(v, x, a, b, t) && !exp_mint_affords(v, x, a, b, t + 1)
}

/// The tokens issued for `v` units of value at supply `x`.
pub open spec fn exp_mint_tokens(v: nat, x: nat, a: nat, b: nat) -> nat {
    choose|t: nat| is_exp_mint_tokens(v, x, a, b, t)
}

/// The largest supply that a mint may reach: the end of the range on which
/// the curve is evaluated, or the largest 64-bit number if that comes first.
pub open spec fn exp_mint_ceiling(b: nat) -> nat {
    if (MAX_EXPONENT + 1) * b - 1 < u64::MAX {
        ((MAX_EXPONENT + 1) * b - 1) as nat
    } else {
        u64::MAX as nat
    }
}

impl BondingCurve for ExpMixedBondingSwap {
    /// A mint is refused with `Overflow` or `SupplyOutOfRange` when the value
    /// pays for more tokens than fit below the ceiling; which of the two says
    /// which bound the ceiling is.
    open spec fn mint_outcome(native_asset: u64, current_supply: u64, params: Parameters) -> Result<
        (u64, u64),
        Errors,
    > {
        let v = native_asset as nat;
        let x = current_supply as nat;
        let a = params.a as nat;
        let b = params.b as nat;
        let ceiling = exp_mint_ceiling(b);
        if !exp_valid(params) {
            Err(Errors::InvalidParameters)
        } else if !exp_in_range(x, b) {
            Err(Errors::SupplyOutOfRange)
        } else if exp_mint_affords(v, x, a, b, (ceiling - x + 1) as nat) {
            if ceiling == u64::MAX {
                Err(Errors::Overflow)
            } else {
                Err(Errors::SupplyOutOfRange)
            }
        } else {
            Ok((exp_mint_tokens(v, x, a, b) as u64, native_asset))
        }
    }

    open spec fn burn_outcome(token_amount: u64, current_supply: u64, params: Parameters) -> Result<
        (u64, u64),
        Errors,
    > {
        let value = exp_burn_value(
            token_amount as nat,
            current_supply as nat,
            params.a as nat,
            params.b as nat,
        );
        if !exp_valid(params) {
            Err(Errors::InvalidParameters)
        } else if token_amount > current_supply {
            Err(Errors::BurnExceedsSupply)
        } else if !exp_in_range(current_supply as nat, params.b as nat) {
            Err(Errors::SupplyOutOfRange)
        } else if value > u64::MAX {
            Err(Errors::Overflow)
        } else {
            Ok((token_amount, value as u64))
        }
    }

    open spec fn price_outcome(current_supply: u64, params: Parameters) -> Result<u64, Errors> {
        let value = exp_price_value(current_supply as nat, params.a as nat, params.b as nat);
        if !exp_valid(params) {
            Err(Errors::InvalidParameters)
        } else if !exp_in_range(current_supply as nat, params.b as nat) {
            Err(Errors::SupplyOutOfRange)
        } else if value > u64::MAX {
            Err(Errors::Overflow)
        } else {
            Ok(value as u64)
        }
    }

    fn calculate_mint_amount_from_bonding_curve(
        native_asset: u64,
        current_supply: u64,
        params: Parameters,
    ) -> (r: Result<(u64, u64), Errors>) {
        let a = params.a;
        let b = params.b;
        if a == 0 || b == 0 {
            return Err(Errors::InvalidParameters);
        }
        if current_supply / b > MAX_EXPONENT {
            return Err(Errors::SupplyOutOfRange);
        }
        assert(1 <= (MAX_EXPONENT + 1) * b <= 45 * u64::MAX) by (nonlinear_arith)
            requires
                1 <= b <= u64::MAX,
        ;
        let range_end: u128 = (MAX_EXPONENT as u128 + 1) * (b as u128) - 1;
        let ceiling: u64 = if range_end < u64::MAX as u128 {
            range_end as u64
        } else {
            u64::MAX
        };
        proof {
            lemma_in_range_below_ceiling(current_supply as nat, b as nat);
            lemma_div_multiples_vanish_quotient(2, current_supply as int, b as int);
        }
        let base = exp_fixed_wide(2 * (current_supply as u128), 2 * (b as u128));
        let big_a = big_from_u64(a);
        let big_b = big_from_u64(b);
        let rate = big_mul(&big_a, &big_b);
        let big_v = big_from_u64(native_asset);
        let token_scale = big_from_u64(TOKEN_SCALE);
        let one = big_from_u64(FIXED_ONE);
        let scaled_v = big_mul(&big_v, &token_scale);
        let budget = big_mul(&scaled_v, &one);
        let ghost v = native_asset as nat;
        let ghost x = current_supply as nat;

        let mut low: u128 = 0;
        let mut high: u128 = (ceiling - current_supply) as u128 + 1;
        if exp_mint_affords_wide(
            &base,
            &rate,
            &budget,
            Ghost(v),
            current_supply,
            Ghost(a as nat),
            b,
            high,
        ) {
            return if ceiling == u64::MAX {
                Err(Errors::Overflow)
            } else {
                Err(Errors::SupplyOutOfRange)
            };
        }
        while high - low > 1
            invariant
                a > 0,
                b > 0,
                low < high <= exp_mint_ceiling(b as nat) - current_supply + 1,
                current_supply <= exp_mint_ceiling(b as nat),
                v == native_asset,
                x == current_supply,
                exp_mint_affords(v, x, a as nat, b as nat, low as nat),
                !exp_mint_affords(v, x, a as nat, b as nat, high as nat),
                big_value(base) == exp_fixed(2 * x, 2 * (b as nat)),
                big_value(rate) == a * b,
                big_value(budget) == v * (TOKEN_SCALE as nat) * (FIXED_ONE as nat),
            decreases high - low,
        {
            let middle: u128 = low + (high - low) / 2;
            if exp_mint_affords_wide(
                &base,
                &rate,
                &budget,
                Ghost(v),
                current_supply,
                Ghost(a as nat),
                b,
                middle,
            ) {
                low = middle;
            } else {
                high = middle;
            }
        }
        proof {
            lemma_exp_mint_tokens_unique(v, x, a as nat, b as nat, low as nat);
        }
        Ok((low as u64, native_asset))
    }

    fn calculate_burn_amount_from_bonding_curve(
        token_amount: u64,
        current_supply: u64,
        params: Parameters,
    ) -> (r: Result<(u64, u64), Errors>) {
        let a = params.a;
        let b = params.b;
        if a == 0 || b == 0 {
            return Err(Errors::InvalidParameters);
        }
        if token_amount > current_supply {
            return Err(Errors::BurnExceedsSupply);
        }
        if current_supply / b > MAX_EXPONENT {
            return Err(Errors::SupplyOutOfRange);
        }
        proof {
            lemma_div_is_ordered(
                (current_supply - token_amount) as int,
                current_supply as int,
                b as int,
            );
            lemma_exp_fixed_monotonic(
                (current_supply - token_amount) as nat,
                current_supply as nat,
                b as nat,
            );
        }
        let upper = exp_fixed_wide(current_supply as u128, b as u128);
        let lower = exp_fixed_wide((current_supply - token_amount) as u128, b as u128);
        let difference = big_sub(&upper, &lower);
        let two = big_from_u64(2);
        let big_a = big_from_u64(a);
        let big_b = big_from_u64(b);
        let two_a = big_mul(&two, &big_a);
        let two_a_b = big_mul(&two_a, &big_b);
        let product = big_mul(&two_a_b, &difference);
        let one = big_from_u64(FIXED_ONE);
        let token_scale = big_from_u64(TOKEN_SCALE);
        let unit = big_mul(&one, &token_scale);
        let rounded = big_add(&product, &unit);
        let two_one = big_mul(&two, &one);
        let divisor = big_mul(&two_one, &token_scale);
        assert(big_value(divisor) > 0) by (nonlinear_arith)
            requires
                big_value(divisor) == 2 * (FIXED_ONE as nat) * (TOKEN_SCALE as nat),
        ;
        let value = big_div(&rounded, &divisor);
        match big_to_u64(&value) {
            None => Err(Errors::Overflow),
            Some(w) => Ok((token_amount, w)),
        }
    }

    fn price(current_supply: u64, params: Parameters) -> (r: Result<u64, Errors>) {
        let a = params.a;
        let b = params.b;
        if a == 0 || b == 0 {
            return Err(Errors::InvalidParameters);
        }
        if current_supply / b > MAX_EXPONENT {
            return Err(Errors::SupplyOutOfRange);
        }
        let growth = exp_fixed_wide(current_supply as u128, b as u128);
        let two = big_from_u64(2);
        let big_a = big_from_u64(a);
        let two_a = big_mul(&two, &big_a);
        let product = big_mul(&two_a, &growth);
        let one = big_from_u64(FIXED_ONE);
        let rounded = big_add(&product, &one);
        let divisor = big_mul(&two, &one);
        let value = big_div(&rounded, &divisor);
        match big_to_u64(&value) {
            None => Err(Errors::Overflow),
            Some(p) => Ok(p),
        }
    }
}

/// Whether `v` pays for `t` tokens, for a `t` that keeps the supply at or one
/// above the ceiling.
fn exp_mint_affords_wide(
    base: &BigUint,
    rate: &BigUint,
    budget: &BigUint,
    Ghost(v): Ghost<nat>,
    x: u64,
    Ghost(a): Ghost<nat>,
    b: u64,
    t: u128,
) -> (r: bool)
    requires
        b > 0,
        x + t <= exp_mint_ceiling(b as nat) + 1,
        big_value(*base) == exp_fixed(2 * (x as nat), 2 * (b as nat)),
        big_value(*rate) == a * b,
        big_value(*budget) == v * (TOKEN_SCALE as nat) * (FIXED_ONE as nat),
    ensures
        r == exp_mint_affords(v, x as nat, a, b as nat, t as nat),
{
    if t == 0 {
        return true;
    }
    let halves: u128 = 2 * (x as u128 + t) - 1;
    proof {
        assert(halves < (2 * b) * (MAX_EXPONENT + 1)) by (nonlinear_arith)
            requires
                halves == 2 * (x + t) - 1,
                x + t <= (MAX_EXPONENT + 1) * b,
        ;
        lemma_multiply_divide_lt(halves as int, (2 * b) as int, (MAX_EXPONENT + 1) as int);
        lemma_exp_fixed_monotonic(2 * (x as nat), halves as nat, 2 * (b as nat));
    }
    let reached = exp_fixed_wide(halves, 2 * (b as u128));
    let difference = big_sub(&reached, base);
    let cost = big_mul(rate, &difference);
    big_le(&cost, budget)
}

/// A supply in range is at most the ceiling of a mint.
pub proof fn lemma_in_range_below_ceiling(x: nat, b: nat)
    requires
        b > 0,
        x <= u64::MAX,
        exp_in_range(x, b),
    ensures
        x <= exp_mint_ceiling(b),
{
    lemma_fundamental_div_mod(x as int, b as int);
    assert(x < (MAX_EXPONENT + 1) * b) by (nonlinear_arith)
        requires
            b > 0,
            x / b <= MAX_EXPONENT,
            x == b * (x / b) + x % b,
            x % b < b,
    ;
}

/// What pays for an amount pays for every smaller one.
pub proof fn lemma_exp_mint_affords_downward(v: nat, x: nat, a: nat, b: nat, t1: nat, t2: nat)
    requires
        b > 0,
        t1 <= t2,
        exp_mint_affords(v, x, a, b, t2),
    ensures
        exp_mint_affords(v, x, a, b, t1),
{
    if t1 > 0 {
        let base = exp_fixed(2 * x, 2 * b);
        let e1 = exp_fixed((2 * (x + t1) - 1) as nat, 2 * b);
        let e2 = exp_fixed((2 * (x + t2) - 1) as nat, 2 * b);
        lemma_exp_fixed_monotonic((2 * (x + t1) - 1) as nat, (2 * (x + t2) - 1) as nat, 2 * b);
        assert(a * b * (e1 - base) <= a * b * (e2 - base)) by (nonlinear_arith)
            requires
                e1 <= e2,
        ;
    }
}

/// The amount that a value pays for is unique, and `exp_mint_tokens` is it.
pub proof fn lemma_exp_mint_tokens_unique(v: nat, x: nat, a: nat, b: nat, t: nat)
    requires
        b > 0,
        is_exp_mint_tokens(v, x, a, b, t),
    ensures
        exp_mint_tokens(v, x, a, b) == t,
{
    let s = exp_mint_tokens(v, x, a, b);
    assert(is_exp_mint_tokens(v, x, a, b, s));
    if s < t {
        lemma_exp_mint_affords_downward(v, x, a, b, s + 1, t);
    } else if t < s {
        lemma_exp_mint_affords_downward(v, x, a, b, t + 1, s);
    }
}

/// Below a value that does not pay for `hi` tokens, the amount of a mint
/// exists: `exp_mint_tokens` is the largest amount that the value affords,
/// and it is less than `hi`.
pub proof fn lemma_exp_mint_tokens_exist(v: nat, x: nat, a: nat, b: nat, hi: nat)
    requires
        b > 0,
        !exp_mint_affords(v, x, a, b, hi),
    ensures
        is_exp_mint_tokens(v, x, a, b, exp_mint_tokens(v, x, a, b)),
        exp_mint_tokens(v, x, a, b) < hi,
    decreases hi,
{
    let below = (hi - 1) as nat;
    if exp_mint_affords(v, x, a, b, below) {
        assert(is_exp_mint_tokens(v, x, a, b, below));
        lemma_exp_mint_tokens_unique(v, x, a, b, below);
    } else {
        lemma_exp_mint_tokens_exist(v, x, a, b, below);
    }
}

/// The price never falls when the supply grows.
pub proof fn lemma_exp_price_monotonic(x1: nat, x2: nat, a: nat, b: nat)
    requires
        x1 <= x2,
        b > 0,
    ensures
        exp_price_value(x1, a, b) <= exp_price_value(x2, a, b),
{
    let e1 = exp_fixed(x1, b);
    let e2 = exp_fixed(x2, b);
    lemma_exp_fixed_monotonic(x1, x2, b);
    assert(2 * a * e1 <= 2 * a * e2) by (nonlinear_arith)
        requires
            e1 <= e2,
    ;
    lemma_div_is_ordered(
        (2 * a * e1 + FIXED_ONE as nat) as int,
        (2 * a * e2 + FIXED_ONE as nat) as int,
        2 * (FIXED_ONE as int),
    );
}

/// The price is never below `a`, the price at supply zero; with a valid
/// curve it is positive.
pub proof fn lemma_exp_price_at_least_start(x: nat, a: nat, b: nat)
    requires
        b > 0,
    ensures
        exp_price_value(x, a, b) >= a,
{
    let e = exp_fixed(x, b);
    let one = FIXED_ONE as nat;
    lemma_exp_fixed_at_least_one(x, b);
    assert(2 * a * e + one >= a * (2 * one)) by (nonlinear_arith)
        requires
            e >= one,
    ;
    lemma_div_is_ordered((a * (2 * one)) as int, (2 * a * e + one) as int, (2 * one) as int);
    lemma_div_multiples_vanish(a as int, (2 * one) as int);
}

/// A mint yields at least one token exactly when the value pays for the
/// first half token.
pub proof fn lemma_exp_mint_positive(v: u64, x: u64, params: Parameters, t: u64)
    requires
        ExpMixedBondingSwap::mint_outcome(v, x, params) == Ok::<(u64, u64), Errors>((t, v)),
    ensures
        t > 0 <==> exp_mint_affords(v as nat, x as nat, params.a as nat, params.b as nat, 1),
{
    let a = params.a as nat;
    let b = params.b as nat;
    let hi = (exp_mint_ceiling(b) - x + 1) as nat;
    lemma_exp_mint_tokens_exist(v as nat, x as nat, a, b, hi);
    lemma_in_range_below_ceiling(x as nat, b);
    if t > 0 {
        lemma_exp_mint_affords_downward(v as nat, x as nat, a, b, 1, t as nat);
    }
}

/// A mint never lifts the supply above the ceiling: the new supply fits in
/// 64 bits and is still in the range on which the curve is evaluated.
pub proof fn lemma_exp_mint_stays_in_range(v: u64, x: u64, params: Parameters, t: u64)
    requires
        ExpMixedBondingSwap::mint_outcome(v, x, params) == Ok::<(u64, u64), Errors>((t, v)),
    ensures
        x + t <= exp_mint_ceiling(params.b as nat),
        x + t <= u64::MAX,
        exp_in_range((x + t) as nat, params.b as nat),
{
    let a = params.a as nat;
    let b = params.b as nat;
    let hi = (exp_mint_ceiling(b) - x + 1) as nat;
    lemma_in_range_below_ceiling(x as nat, b);
    lemma_exp_mint_tokens_exist(v as nat, x as nat, a, b, hi);
    let reached = (x + t) as int;
    assert(reached < (MAX_EXPONENT + 1) * b) by (nonlinear_arith)
        requires
            reached <= (MAX_EXPONENT + 1) * b - 1,
    ;
    lemma_multiply_divide_lt(reached, b as int, (MAX_EXPONENT + 1) as int);
}

/// The cost of the one unit of supply centred at `x`:
/// `a * b * (e^((x + 1/2) / b) - e^((x - 1/2) / b))`, in fixed point and
/// before the division by 10^9. At supply zero the unit starts at zero.
pub open spec fn exp_step_cost(x: nat, a: nat, b: nat) -> nat {
    let start = if x == 0 {
        0
    } else {
        (2 * x - 1) as nat
    };
    (a * b * (exp_fixed(2 * x + 1, 2 * b) - exp_fixed(start, 2 * b))) as nat
}

/// How far the value returned by a burn may lie from the value that minted
/// the tokens: the cost of one unit of supply at `x`, rounded down, and one
/// more for the rounding of the burn.
pub open spec fn exp_round_trip_tolerance(x: nat, a: nat, b: nat) -> nat {
    exp_step_cost(x, a, b) / ((FIXED_ONE as nat) * (TOKEN_SCALE as nat)) + 1
}

/// Minting for `v` and burning the minted tokens at once returns `v` up to
/// the tolerance at the supply in between.
pub proof fn lemma_exp_round_trip(v: u64, x: u64, params: Parameters, t: u64, w: u64)
    requires
        ExpMixedBondingSwap::mint_outcome(v, x, params) == Ok::<(u64, u64), Errors>((t, v)),
        ExpMixedBondingSwap::burn_outcome(t, (x + t) as u64, params) == Ok::<(u64, u64), Errors>(
            (t, w),
        ),
    ensures
        w <= v + exp_round_trip_tolerance((x + t) as nat, params.a as nat, params.b as nat),
        v <= w + exp_round_trip_tolerance((x + t) as nat, params.a as nat, params.b as nat),
{
    let a = params.a as nat;
    let b = params.b as nat;
    let x0 = x as nat;
    let x1 = (x + t) as nat;
    let unit = (FIXED_ONE as nat) * (TOKEN_SCALE as nat);
    let hi = (exp_mint_ceiling(b) - x + 1) as nat;
    lemma_in_range_below_ceiling(x0, b);
    lemma_exp_mint_tokens_exist(v as nat, x0, a, b, hi);
    assert(is_exp_mint_tokens(v as nat, x0, a, b, t as nat));

    // The burn reads the curve at whole units, the mint at half units.
    lemma_exp_fixed_scaling(x0, b, 2);
    lemma_exp_fixed_scaling(x1, b, 2);
    let base = exp_fixed(2 * x0, 2 * b) as int;
    let mid = exp_fixed(2 * x1, 2 * b) as int;
    let above = exp_fixed(2 * x1 + 1, 2 * b) as int;
    let start: nat = if x1 == 0 {
        0
    } else {
        (2 * x1 - 1) as nat
    };
    let below = exp_fixed(start, 2 * b) as int;
    lemma_exp_fixed_monotonic(2 * x0, 2 * x1, 2 * b);
    lemma_exp_fixed_monotonic(2 * x1, 2 * x1 + 1, 2 * b);
    lemma_exp_fixed_monotonic(start, 2 * x1, 2 * b);

    let rate = (a * b) as int;
    let budget = (v * (TOKEN_SCALE as nat) * (FIXED_ONE as nat)) as int;
    let burned = rate * (mid - base);
    let step = rate * (above - below);
    assert(budget == v * unit) by (nonlinear_arith)
        requires
            budget == v * (TOKEN_SCALE as nat) * (FIXED_ONE as nat),
            unit == (FIXED_ONE as nat) * (TOKEN_SCALE as nat),
    ;
    assert(step == exp_step_cost(x1, a, b)) by {
        assert(rate * (above - below) >= 0) by (nonlinear_arith)
            requires
                rate >= 0,
                above >= below,
        ;
    }
    // The budget lies less than one step from what the burn is worth.
    assert(budget < rate * (above - base));
    assert(rate * (above - base) - burned == rate * (above - mid)) by (nonlinear_arith)
        requires
            burned == rate * (mid - base),
    ;
    assert(rate * (above - mid) <= step) by (nonlinear_arith)
        requires
            step == rate * (above - below),
            below <= mid,
            rate >= 0,
    ;
    assert(budget < burned + step);
    if t > 0 {
        assert(start == (2 * (x0 + t) - 1) as nat);
        assert(rate * (below - base) <= budget);
        assert(burned - rate * (below - base) == rate * (mid - below)) by (nonlinear_arith)
            requires
                burned == rate * (mid - base),
        ;
        assert(rate * (mid - below) <= step) by (nonlinear_arith)
            requires
                step == rate * (above - below),
                mid <= above,
                rate >= 0,
        ;
    } else {
        assert(burned == 0) by (nonlinear_arith)
            requires
                burned == rate * (mid - base),
                mid == base,
        ;
        assert(step >= 0) by (nonlinear_arith)
            requires
                step == rate * (above - below),
                above >= below,
                rate >= 0,
        ;
    }
    assert(burned <= budget + step);

    // The burn rounds what it is worth to the nearest unit of value.
    let q = step / (unit as int);
    let doubled = 2 * (a as int) * (b as int) * (mid - base) + unit;
    assert(doubled == 2 * burned + unit) by (nonlinear_arith)
        requires
            doubled == 2 * (a as int) * (b as int) * (mid - base) + unit,
            burned == rate * (mid - base),
            rate == a * b,
    ;
    assert(2 * (FIXED_ONE as nat) * (TOKEN_SCALE as nat) == 2 * unit) by (nonlinear_arith)
        requires
            unit == (FIXED_ONE as nat) * (TOKEN_SCALE as nat),
    ;
    assert(w == doubled / (2 * unit as int));
    lemma_fundamental_div_mod(doubled, 2 * unit as int);
    lemma_fundamental_div_mod(step, unit as int);
    assert(unit * (2 * w) <= doubled < unit * (2 * w) + 2 * unit) by (nonlinear_arith)
        requires
            doubled == (2 * unit) * w + doubled % (2 * unit as int),
            0 <= doubled % (2 * unit as int) < 2 * unit,
    ;
    assert(unit * q <= step < unit * q + unit);
    assert(unit * (2 * w) < unit * (2 * v + 2 * q + 3)) by (nonlinear_arith)
        requires
            unit * (2 * w) <= 2 * burned + unit,
            burned <= budget + step,
            budget == v * unit,
            step < unit * q + unit,
    ;
    assert(unit * (2 * v) < unit * (2 * w + 2 * q + 3)) by (nonlinear_arith)
        requires
            2 * burned + unit < unit * (2 * w) + 2 * unit,
            budget < burned + step,
            budget == v * unit,
            step < unit * q + unit,
    ;
    assert(2 * w < 2 * v + 2 * q + 3 && 2 * v < 2 * w + 2 * q + 3) by (nonlinear_arith)
        requires
            unit * (2 * w) < unit * (2 * v + 2 * q + 3),
            unit * (2 * v) < unit * (2 * w + 2 * q + 3),
            unit > 0,
    ;
}

} // verus!
