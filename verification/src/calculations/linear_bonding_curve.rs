//! The linear curve: the price rises with the supply along a straight line.
//!
//! With slope `k` (scaled by 10^9) and offset `p`, the price of one whole
//! token at supply `x` is `k * x / 10^9 + p`. Token amounts carry nine
//! decimals, so one whole token is 10^9 units of supply.

use vstd::prelude::*;
use vstd::arithmetic::div_mod::{
    lemma_basic_div, lemma_div_by_self, lemma_div_is_ordered, lemma_div_pos_is_pos,
    lemma_fundamental_div_mod,
};
use num_bigint::BigUint;
use crate::calculations::biguint::{
    big_add, big_div, big_from_u64, big_mul, big_sqrt, big_sub, big_to_u64, big_value,
};
use crate::calculations::bonding_curve::{BondingCurve, Parameters};
use crate::utils::{Errors, TOKEN_SCALE, TOKEN_SCALE_SQUARED};

verus! {

/// The linear curve family. `Parameters::a` is the slope `k`, scaled by
/// 10^9; `Parameters::b` is the offset `p`.
pub struct LinearMixedBondingSwap;

/// A linear curve is usable unless slope and offset are both zero.
pub open spec fn linear_valid(params: Parameters) -> bool {
    params.a > 0 || params.b > 0
}

/// The price at supply `x`, scaled by 10^9: `k * x + p * 10^9`.
pub open spec fn linear_scaled_price(x: nat, k: nat, p: nat) -> nat {
    k * x + p * (TOKEN_SCALE as nat)
}

/// The price at supply `x`, rounded down: `x * k / 10^9 + p`.
pub open spec fn linear_price_value(x: nat, k: nat, p: nat) -> nat {
    x * k / (TOKEN_SCALE as nat) + p
}

/// The value returned for `dx` tokens redeemed at supply `x`: the area under
/// the price line over the last `dx` units of supply, rounded down. The
/// numerator is formed in full before the one division by 10^18.
pub open spec fn linear_burn_value(dx: nat, x: nat, k: nat, p: nat) -> nat {
    ((linear_scaled_price(x, k, p) * dx - dx * dx * k / 2) / (TOKEN_SCALE_SQUARED as int)) as nat
}

/// `r` is the square root of `n`, rounded down.
pub open spec fn is_floor_sqrt(n: nat, r: nat) -> bool {
    r * r <= n < (r + 1) * (r + 1)
}

/// The square root of `n`, rounded down.
pub open spec fn floor_sqrt(n: nat) -> nat {
    choose|r: nat| is_floor_sqrt(n, r)
}

/// Four times the discriminant of the mint equation: with `c` the scaled
/// price at the current supply, `4 * (c^2 + 2 * k * v * 10^18)`.
pub open spec fn linear_mint_discriminant(v: nat, x: nat, k: nat, p: nat) -> nat {
    4 * (linear_scaled_price(x, k, p) * linear_scaled_price(x, k, p) + 2 * k * v * (
    TOKEN_SCALE_SQUARED as nat))
}

/// The tokens issued for `v` units of value at supply `x`.
///
/// With slope zero the price is fixed and the amount is `v * 10^9 / p`,
/// rounded down. Otherwise it is `(sqrt(c^2 + 2 * k * v * 10^18) - c) / k`
/// rounded to the nearest integer, halves upwards, `c` being the scaled price
/// at `x`; `lemma_linear_mint_is_nearest` shows that the expression below is
/// that rounding.
pub open spec fn linear_mint_tokens(v: nat, x: nat, k: nat, p: nat) -> nat {
    if k == 0 {
        v * (TOKEN_SCALE as nat) / p
    } else {
        ((floor_sqrt(linear_mint_discriminant(v, x, k, p)) - 2 * linear_scaled_price(x, k, p) + k)
            / (2 * k) as int) as nat
    }
}

/// `t` is `(sqrt(c^2 + 2 * k * v * 10^18) - c) / k` rounded to the nearest
/// integer, halves upwards: `t - 1/2 <= (sqrt(..) - c) / k < t + 1/2`, written
/// without fractions or roots.
pub open spec fn linear_mint_rounds_to(v: nat, x: nat, k: nat, p: nat, t: nat) -> bool {
    let c = linear_scaled_price(x, k, p) as int;
    let d4 = linear_mint_discriminant(v, x, k, p) as int;
    let below = 2 * c + (2 * t - 1) * k;
    let above = 2 * c + (2 * t + 1) * k;
    &&& (t == 0 || below * below <= d4)
    &&& d4 < above * above
}

impl BondingCurve for LinearMixedBondingSwap {
    open spec fn mint_outcome(native_asset: u64, current_supply: u64, params: Parameters) -> Result<
        (u64, u64),
        Errors,
    > {
        let tokens = linear_mint_tokens(
            native_asset as nat,
            current_supply as nat,
            params.a as nat,
            params.b as nat,
        );
        if !linear_valid(params) {
            Err(Errors::InvalidParameters)
        } else if current_supply + tokens > u64::MAX {
            Err(Errors::Overflow)
        } else {
            Ok((tokens as u64, native_asset))
        }
    }

    open spec fn burn_outcome(token_amount: u64, current_supply: u64, params: Parameters) -> Result<
        (u64, u64),
        Errors,
    > {
        let value = linear_burn_value(
            token_amount as nat,
            current_supply as nat,
            params.a as nat,
            params.b as nat,
        );
        if !linear_valid(params) {
            Err(Errors::InvalidParameters)
        } else if token_amount > current_supply {
            Err(Errors::BurnExceedsSupply)
        } else if value > u64::MAX {
            Err(Errors::Overflow)
        } else {
            Ok((token_amount, value as u64))
        }
    }

    open spec fn price_outcome(current_supply: u64, params: Parameters) -> Result<u64, Errors> {
        let value = linear_price_value(current_supply as nat, params.a as nat, params.b as nat);
        if !linear_valid(params) {
            Err(Errors::InvalidParameters)
        } else if value > u64::MAX {
            Err(Errors::Overflow)
        } else {
            Ok(value as u64)
        }
    }

    fn calculate_mint_amount_from_bonding_curve(
        native_asset: u64,
        current_supply: u64,
        params: Parameters,
    ) -> (r: Result<(u64, u64), Errors>) {
        let k = params.a;
        let p = params.b;
        if k == 0 && p == 0 {
            return Err(Errors::InvalidParameters);
        }
        let amount: Option<u64> = if k == 0 {
            let wide: u128 = (native_asset as u128) * (TOKEN_SCALE as u128) / (p as u128);
            if wide > u64::MAX as u128 {
                None
            } else {
                Some(wide as u64)
            }
        } else {
            let root = linear_mint_root(native_asset, current_supply, k, p);
            let c = linear_scaled_price_wide(current_supply, k, p);
            let two = big_from_u64(2);
            let two_c = big_mul(&two, &c);
            let big_k = big_from_u64(k);
            proof {
                lemma_mint_root_reaches_price(
                    native_asset as nat,
                    current_supply as nat,
                    k as nat,
                    p as nat,
                );
            }
            let excess = big_sub(&root, &two_c);
            let numerator = big_add(&excess, &big_k);
            let two_k = big_mul(&two, &big_k);
            let quotient = big_div(&numerator, &two_k);
            big_to_u64(&quotient)
        };
        match amount {
            None => Err(Errors::Overflow),
            Some(t) => {
                if t > u64::MAX - current_supply {
                    Err(Errors::Overflow)
                } else {
                    Ok((t, native_asset))
                }
            },
        }
    }

    fn calculate_burn_amount_from_bonding_curve(
        token_amount: u64,
        current_supply: u64,
        params: Parameters,
    ) -> (r: Result<(u64, u64), Errors>) {
        let k = params.a;
        let p = params.b;
        if k == 0 && p == 0 {
            return Err(Errors::InvalidParameters);
        }
        if token_amount > current_supply {
            return Err(Errors::BurnExceedsSupply);
        }
        let c = linear_scaled_price_wide(current_supply, k, p);
        let dx = big_from_u64(token_amount);
        let gross = big_mul(&c, &dx);
        let dx_squared = big_mul(&dx, &dx);
        let big_k = big_from_u64(k);
        let curved = big_mul(&dx_squared, &big_k);
        let two = big_from_u64(2);
        let half = big_div(&curved, &two);
        proof {
            lemma_burn_numerator_nonnegative(
                token_amount as nat,
                current_supply as nat,
                k as nat,
                p as nat,
            );
        }
        let numerator = big_sub(&gross, &half);
        let scale = big_from_u64(TOKEN_SCALE_SQUARED);
        let value = big_div(&numerator, &scale);
        match big_to_u64(&value) {
            None => Err(Errors::Overflow),
            Some(v) => Ok((token_amount, v)),
        }
    }

    fn price(current_supply: u64, params: Parameters) -> (r: Result<u64, Errors>) {
        let k = params.a;
        let p = params.b;
        if k == 0 && p == 0 {
            return Err(Errors::InvalidParameters);
        }
        assert((current_supply as u128) * (k as u128) <= 0xffff_ffff_ffff_ffff
            * 0xffff_ffff_ffff_ffff) by (nonlinear_arith);
        let product: u128 = (current_supply as u128) * (k as u128);
        let value: u128 = product / (TOKEN_SCALE as u128) + (p as u128);
        if value > u64::MAX as u128 {
            Err(Errors::Overflow)
        } else {
            Ok(value as u64)
        }
    }
}

/// The scaled price at supply `x` as a wide integer.
fn linear_scaled_price_wide(x: u64, k: u64, p: u64) -> (c: BigUint)
    ensures
        big_value(c) == linear_scaled_price(x as nat, k as nat, p as nat),
{
    let big_k = big_from_u64(k);
    let big_x = big_from_u64(x);
    let slope_part = big_mul(&big_k, &big_x);
    let big_p = big_from_u64(p);
    let scale = big_from_u64(TOKEN_SCALE);
    let offset_part = big_mul(&big_p, &scale);
    big_add(&slope_part, &offset_part)
}

/// The rounded-down square root of the mint discriminant.
fn linear_mint_root(v: u64, x: u64, k: u64, p: u64) -> (root: BigUint)
    ensures
        big_value(root) == floor_sqrt(
            linear_mint_discriminant(v as nat, x as nat, k as nat, p as nat),
        ),
{
    let c = linear_scaled_price_wide(x, k, p);
    let c_squared = big_mul(&c, &c);
    let two = big_from_u64(2);
    let big_k = big_from_u64(k);
    let big_v = big_from_u64(v);
    let scale = big_from_u64(TOKEN_SCALE_SQUARED);
    let two_k = big_mul(&two, &big_k);
    let two_k_v = big_mul(&two_k, &big_v);
    let raised = big_mul(&two_k_v, &scale);
    let sum = big_add(&c_squared, &raised);
    let four = big_from_u64(4);
    let d4 = big_mul(&four, &sum);
    let root = big_sqrt(&d4);
    proof {
        lemma_floor_sqrt_unique(big_value(d4), big_value(root));
    }
    root
}

/// A number has one rounded-down square root, and `floor_sqrt` is it.
pub proof fn lemma_floor_sqrt_unique(n: nat, r: nat)
    requires
        is_floor_sqrt(n, r),
    ensures
        floor_sqrt(n) == r,
{
    let s = floor_sqrt(n);
    assert(is_floor_sqrt(n, s));
    assert(s == r) by (nonlinear_arith)
        requires
            r * r <= n < (r + 1) * (r + 1),
            s * s <= n < (s + 1) * (s + 1),
    ;
}

/// Every number has a rounded-down square root.
pub proof fn lemma_floor_sqrt_exists(n: nat)
    ensures
        is_floor_sqrt(n, floor_sqrt(n)),
    decreases n,
{
    if n == 0 {
        let zero: nat = 0;
        assert(zero * zero == 0 && (zero + 1) * (zero + 1) == 1) by (nonlinear_arith)
            requires
                zero == 0,
        ;
        assert(is_floor_sqrt(n, zero));
    } else {
        lemma_floor_sqrt_exists((n - 1) as nat);
        let r = floor_sqrt((n - 1) as nat);
        if (r + 1) * (r + 1) <= n {
            assert(n < (r + 2) * (r + 2)) by (nonlinear_arith)
                requires
                    n - 1 < (r + 1) * (r + 1),
            ;
            assert(is_floor_sqrt(n, r + 1));
        } else {
            assert(is_floor_sqrt(n, r));
        }
    }
}

/// The root of the mint discriminant is at least twice the scaled price, so
/// the subtraction in `linear_mint_tokens` never goes below zero.
pub proof fn lemma_mint_root_reaches_price(v: nat, x: nat, k: nat, p: nat)
    ensures
        floor_sqrt(linear_mint_discriminant(v, x, k, p)) >= 2 * linear_scaled_price(x, k, p),
{
    let c = linear_scaled_price(x, k, p);
    let d4 = linear_mint_discriminant(v, x, k, p);
    let s = floor_sqrt(d4);
    let extra = 2 * k * v * (TOKEN_SCALE_SQUARED as nat);
    lemma_floor_sqrt_exists(d4);
    assert(d4 == 4 * (c * c + extra));
    assert(s >= 2 * c) by (nonlinear_arith)
        requires
            d4 == 4 * (c * c + extra),
            d4 < (s + 1) * (s + 1),
    ;
}

/// Redeeming at most the whole supply never yields a negative amount.
pub proof fn lemma_burn_numerator_nonnegative(dx: nat, x: nat, k: nat, p: nat)
    requires
        dx <= x,
    ensures
        dx * dx * k / 2 <= linear_scaled_price(x, k, p) * dx,
{
    let c = linear_scaled_price(x, k, p);
    assert(dx * dx * k <= c * dx) by (nonlinear_arith)
        requires
            dx <= x,
            c == k * x + p * (TOKEN_SCALE as nat),
    ;
}

/// The price never falls when the supply grows.
pub proof fn lemma_linear_price_monotonic(x1: nat, x2: nat, k: nat, p: nat)
    requires
        x1 <= x2,
    ensures
        linear_price_value(x1, k, p) <= linear_price_value(x2, k, p),
{
    assert(x1 * k <= x2 * k) by (nonlinear_arith)
        requires
            x1 <= x2,
    ;
    lemma_div_is_ordered((x1 * k) as int, (x2 * k) as int, TOKEN_SCALE as int);
}

/// With a positive offset the price is positive at every supply.
pub proof fn lemma_linear_price_positive(x: nat, k: nat, p: nat)
    requires
        p > 0,
    ensures
        linear_price_value(x, k, p) > 0,
{
    assert(x * k >= 0) by (nonlinear_arith);
    lemma_div_pos_is_pos((x * k) as int, TOKEN_SCALE as int);
}

/// With slope zero the curve is a sale at the fixed price `p`: a mint yields
/// exactly `v * 10^9 / p` tokens.
pub proof fn lemma_linear_flat_price_sale(v: u64, x: u64, p: u64, t: u64)
    requires
        LinearMixedBondingSwap::mint_outcome(v, x, Parameters { a: 0, b: p }) == Ok::<
            (u64, u64),
            Errors,
        >((t, v)),
    ensures
        t == v * TOKEN_SCALE / (p as int),
{
}

/// With a positive slope the amount of a mint is the root of the mint
/// equation rounded to the nearest integer.
pub proof fn lemma_linear_mint_is_nearest(v: nat, x: nat, k: nat, p: nat)
    requires
        k > 0,
    ensures
        linear_mint_rounds_to(v, x, k, p, linear_mint_tokens(v, x, k, p)),
{
    let c = linear_scaled_price(x, k, p) as int;
    let d4 = linear_mint_discriminant(v, x, k, p) as int;
    let s = floor_sqrt(d4 as nat) as int;
    let t = linear_mint_tokens(v, x, k, p) as int;
    lemma_floor_sqrt_exists(d4 as nat);
    lemma_mint_root_reaches_price(v, x, k, p);
    let m = s - 2 * c + k;
    lemma_fundamental_div_mod(m, 2 * k as int);
    lemma_div_pos_is_pos(m, 2 * k as int);
    assert(t == m / (2 * k as int));
    assert(0 <= m % (2 * k as int) < 2 * k);
    assert((2 * k) * t == 2 * t * k) by (nonlinear_arith);
    assert((2 * t - 1) * k == 2 * t * k - k) by (nonlinear_arith);
    assert((2 * t + 1) * k == 2 * t * k + k) by (nonlinear_arith);
    let below = 2 * c + (2 * t - 1) * k;
    let above = 2 * c + (2 * t + 1) * k;
    assert(below <= s);
    assert(above >= s + 1);
    if t > 0 {
        assert(2 * t * k >= 2 * k) by (nonlinear_arith)
            requires
                t >= 1,
                k > 0,
        ;
        assert(below * below <= s * s) by (nonlinear_arith)
            requires
                0 <= below <= s,
        ;
    }
    assert(above * above >= (s + 1) * (s + 1)) by (nonlinear_arith)
        requires
            above >= s + 1,
            s >= 0,
    ;
}

/// A mint yields at least one token exactly when the value covers the first
/// half token: at slope zero when `v * 10^9 >= p`, otherwise when
/// `8 * v * 10^18 >= 4 * c + k` with `c` the scaled price at the supply.
pub proof fn lemma_linear_mint_positive(v: nat, x: nat, k: nat, p: nat)
    requires
        k > 0 || p > 0,
    ensures
        linear_mint_tokens(v, x, k, p) > 0 <==> if k == 0 {
            v * TOKEN_SCALE >= p
        } else {
            8 * v * TOKEN_SCALE_SQUARED >= 4 * linear_scaled_price(x, k, p) + k
        },
{
    let t = linear_mint_tokens(v, x, k, p);
    if k == 0 {
        lemma_fundamental_div_mod((v * TOKEN_SCALE) as int, p as int);
        lemma_div_pos_is_pos((v * TOKEN_SCALE) as int, p as int);
        if v * TOKEN_SCALE >= p {
            lemma_div_is_ordered(p as int, (v * TOKEN_SCALE) as int, p as int);
            lemma_div_by_self(p as int);
        } else {
            lemma_basic_div(v * TOKEN_SCALE as int, p as int);
        }
    } else {
        lemma_linear_mint_is_nearest(v, x, k, p);
        let c = linear_scaled_price(x, k, p) as int;
        let d4 = linear_mint_discriminant(v, x, k, p) as int;
        let w = v * TOKEN_SCALE_SQUARED;
        assert(d4 == 4 * (c * c) + 8 * (k * w)) by (nonlinear_arith)
            requires
                d4 == 4 * (c * c + 2 * k * v * (TOKEN_SCALE_SQUARED as nat)),
                w == v * TOKEN_SCALE_SQUARED,
        ;
        // The condition says that the discriminant reaches the first half step.
        let first = 2 * c + k;
        assert(first * first == 4 * (c * c) + k * (4 * c + k)) by (nonlinear_arith)
            requires
                first == 2 * c + k,
        ;
        assert((d4 >= first * first) <==> (8 * w >= 4 * c + k)) by (nonlinear_arith)
            requires
                d4 == 4 * (c * c) + 8 * (k * w),
                first * first == 4 * (c * c) + k * (4 * c + k),
                k > 0,
        ;
        if t == 0 {
            assert(2 * c + (2 * t + 1) * k == first) by (nonlinear_arith)
                requires
                    t == 0,
                    first == 2 * c + k,
            ;
        } else {
            let below = 2 * c + (2 * t - 1) * k;
            assert(below >= first) by (nonlinear_arith)
                requires
                    below == 2 * c + (2 * t - 1) * k,
                    first == 2 * c + k,
                    t >= 1,
                    k > 0,
            ;
            assert(below * below >= first * first) by (nonlinear_arith)
                requires
                    below >= first,
                    first >= 0,
            ;
        }
    }
}

/// How far the value returned by a burn may lie from the value that minted
/// the tokens: the price of one unit of supply just above `x`, rounded down,
/// and one more for the rounding of the burn.
pub open spec fn linear_round_trip_tolerance(x: nat, k: nat, p: nat) -> nat {
    linear_scaled_price(x + 1, k, p) / (TOKEN_SCALE_SQUARED as nat) + 1
}

/// Minting for `v` and burning the minted tokens at once returns `v` up to
/// the tolerance at the supply in between.
pub proof fn lemma_linear_round_trip(v: u64, x: u64, params: Parameters, t: u64, w: u64)
    requires
        LinearMixedBondingSwap::mint_outcome(v, x, params) == Ok::<(u64, u64), Errors>((t, v)),
        LinearMixedBondingSwap::burn_outcome(t, (x + t) as u64, params) == Ok::<(u64, u64), Errors>(
            (t, w),
        ),
    ensures
        w <= v + linear_round_trip_tolerance((x + t) as nat, params.a as nat, params.b as nat),
        v <= w + linear_round_trip_tolerance((x + t) as nat, params.a as nat, params.b as nat),
{
    let k = params.a as int;
    let p = params.b as int;
    let s2 = TOKEN_SCALE_SQUARED as int;
    let c = linear_scaled_price(x as nat, k as nat, p as nat) as int;
    let c1 = linear_scaled_price((x + t) as nat, k as nat, p as nat) as int;
    let c2 = linear_scaled_price((x + t + 1) as nat, k as nat, p as nat) as int;
    let half = (t * t * k) / 2;
    let n = c1 * t - half;
    let tol = linear_round_trip_tolerance((x + t) as nat, k as nat, p as nat) as int;
    assert(c1 == c + k * t && c2 == c1 + k) by (nonlinear_arith)
        requires
            c == k * x + p * (TOKEN_SCALE as nat),
            c1 == k * (x + t) + p * (TOKEN_SCALE as nat),
            c2 == k * (x + t + 1) + p * (TOKEN_SCALE as nat),
    ;
    lemma_burn_numerator_nonnegative(t as nat, (x + t) as nat, k as nat, p as nat);
    assert(w == n / s2);
    lemma_fundamental_div_mod(n, s2);
    lemma_fundamental_div_mod(c2, s2);
    assert(t * t * k >= 0) by (nonlinear_arith)
        requires
            k >= 0,
    ;
    assert(2 * half <= t * t * k <= 2 * half + 1);
    // What the tolerance is worth in the scale of the numerators.
    let q = c2 / s2;
    assert(tol == q + 1);
    assert(s2 * q <= c2 < s2 * q + s2);
    if k == 0 {
        let g = TOKEN_SCALE as int;
        assert(t == v * g / p);
        lemma_fundamental_div_mod(v * g, p);
        assert(p * t <= v * g < p * t + p);
        assert(c1 == p * g && c2 == p * g && half == 0) by (nonlinear_arith)
            requires
                k == 0,
                c1 == c + k * t,
                c2 == c1 + k,
                c == k * x + p * g,
                half == (t * t * k) / 2,
        ;
        assert(n == p * g * t) by (nonlinear_arith)
            requires
                n == c1 * t - half,
                half == 0,
                c1 == p * g,
        ;
        assert(n <= v * s2 && v * s2 < n + p * g) by (nonlinear_arith)
            requires
                n == p * g * t,
                p * t <= v * g < p * t + p,
                s2 == g * g,
                g > 0,
        ;
        assert(w <= v) by (nonlinear_arith)
            requires
                n == s2 * w + n % s2,
                0 <= n % s2,
                n <= v * s2,
                s2 > 0,
        ;
        assert(v <= w + q + 1) by (nonlinear_arith)
            requires
                n == s2 * w + n % s2,
                n % s2 < s2,
                v * s2 < n + p * g,
                c2 == p * g,
                c2 < s2 * q + s2,
                s2 > 0,
        ;
    } else {
        lemma_linear_mint_is_nearest(v as nat, x as nat, k as nat, p as nat);
        let d4 = linear_mint_discriminant(v as nat, x as nat, k as nat, p as nat) as int;
        let big = v * s2;
        assert(d4 == 4 * (c * c) + 8 * (k * big)) by (nonlinear_arith)
            requires
                d4 == 4 * (c * c + 2 * k * v * (TOKEN_SCALE_SQUARED as nat)),
                big == v * (TOKEN_SCALE_SQUARED as int),
        ;
        let above = 2 * c + (2 * t + 1) * k;
        let tt = t * t * k;
        // Twice the numerator of the burn, up to the rounding of the half.
        assert(2 * n == 2 * (c * t) + 2 * tt - 2 * half) by (nonlinear_arith)
            requires
                n == c1 * t - half,
                c1 == c + k * t,
                tt == t * t * k,
        ;
        assert(above * above == 4 * (c * c) + k * (8 * (c * t) + 4 * tt + 4 * c1 + k))
            by (nonlinear_arith)
            requires
                above == 2 * c + (2 * t + 1) * k,
                tt == t * t * k,
                c1 == c + k * t,
        ;
        assert(8 * big < 8 * (c * t) + 4 * tt + 4 * c1 + k) by (nonlinear_arith)
            requires
                d4 < above * above,
                d4 == 4 * (c * c) + 8 * (k * big),
                above * above == 4 * (c * c) + k * (8 * (c * t) + 4 * tt + 4 * c1 + k),
                k > 0,
        ;
        assert(8 * big < 8 * n + 4 * c2);
        assert(s2 * (8 * v) < s2 * (8 * w + 4 * q + 12)) by (nonlinear_arith)
            requires
                8 * big < 8 * n + 4 * c2,
                big == v * s2,
                n < s2 * w + s2,
                c2 < s2 * q + s2,
        ;
        assert(8 * v < 8 * w + 4 * q + 12) by (nonlinear_arith)
            requires
                s2 * (8 * v) < s2 * (8 * w + 4 * q + 12),
                s2 > 0,
        ;
        if t == 0 {
            assert(n == 0);
            assert(w == 0);
        } else {
            let below = 2 * c + (2 * t - 1) * k;
            assert(below * below == 4 * (c * c) + k * (8 * (c * t) + 4 * tt - 4 * c1 + k))
                by (nonlinear_arith)
                requires
                    below == 2 * c + (2 * t - 1) * k,
                    tt == t * t * k,
                    c1 == c + k * t,
            ;
            assert(8 * (c * t) + 4 * tt + k <= 8 * big + 4 * c1) by (nonlinear_arith)
                requires
                    below * below <= d4,
                    d4 == 4 * (c * c) + 8 * (k * big),
                    below * below == 4 * (c * c) + k * (8 * (c * t) + 4 * tt - 4 * c1 + k),
                    k > 0,
            ;
            assert(8 * n <= 8 * big + 4 * c1 + 3);
            assert(s2 * (8 * w) < s2 * (8 * v + 4 * q + 5)) by (nonlinear_arith)
                requires
                    8 * n <= 8 * big + 4 * c1 + 3,
                    big == v * s2,
                    n >= s2 * w,
                    c1 < s2 * q + s2,
                    s2 >= 4,
            ;
            assert(8 * w < 8 * v + 4 * q + 5) by (nonlinear_arith)
                requires
                    s2 * (8 * w) < s2 * (8 * v + 4 * q + 5),
                    s2 > 0,
            ;
        }
    }
}

} // verus!
