//! How a payment or a redemption is split between the curve, the project and
//! the platform.
//!
//! The two estimates are asymmetric on purpose. A mint takes the fees off the
//! payment and evaluates the curve on what is left; a burn evaluates the
//! curve on the tokens and takes the fees off what the curve returns.

use vstd::prelude::*;
use crate::instructions::burve::MAX_PLATFORM_TAX_RATE;
use crate::instructions::token_factory::{BondingCurveType, MAX_PROJECT_TAX_RATE};
use crate::utils::{Errors, MAX_TAX_RATE_DENOMINATOR};

verus! {

/// The outcome of a mint: the tokens to credit, the part of the payment that
/// went into the curve, and the two fees taken off the payment.
#[derive(Debug, Clone, Copy, PartialEq, Eq, Structural)]
pub struct EstimateMintResult {
    pub calculated_receiving_amount: u64,
    pub actual_paid_amount: u64,
    pub project_fee: u64,
    pub burve_fee: u64,
}

/// The outcome of a burn: the value paid out, and the two fees taken off what
/// the curve returned.
#[derive(Debug, Clone, Copy, PartialEq, Eq, Structural)]
pub struct EstimateBurnResult {
    pub actual_received_amount: u64,
    pub project_fee: u64,
    pub burve_fee: u64,
}

/// Both rates are within the maximum configured for them.
pub open spec fn tax_rates_valid(burve_tax: u16, project_tax: u16) -> bool {
    burve_tax <= MAX_PLATFORM_TAX_RATE && project_tax <= MAX_PROJECT_TAX_RATE
}

/// The fee on `amount` at `rate` parts of the denominator, rounded down.
pub open spec fn tax_fee(amount: nat, rate: nat) -> nat {
    amount * rate / (MAX_TAX_RATE_DENOMINATOR as nat)
}

/// What is left of `amount` after both fees.
pub open spec fn amount_after_fees(amount: nat, burve_tax: nat, project_tax: nat) -> int {
    amount - tax_fee(amount, project_tax) - tax_fee(amount, burve_tax)
}

/// What `estimate_mint_amount_from_bonding_curve` returns: the fees are
/// taken off `paid_amount`, and the curve is evaluated on the rest.
pub open spec fn estimate_mint_outcome(
    bonding_curve_type: BondingCurveType,
    paid_amount: u64,
    mint_supply: u64,
    burve_tax: u16,
    project_tax: u16,
) -> Result<EstimateMintResult, Errors> {
    let net = amount_after_fees(paid_amount as nat, burve_tax as nat, project_tax as nat);
    if !tax_rates_valid(burve_tax, project_tax) {
        Err(Errors::TaxRateNotValid)
    } else {
        match bonding_curve_type.mint_outcome(net as u64, mint_supply) {
            Err(e) => Err(e),
            Ok(minted) => Ok(
                EstimateMintResult {
                    calculated_receiving_amount: minted.0,
                    actual_paid_amount: net as u64,
                    project_fee: tax_fee(paid_amount as nat, project_tax as nat) as u64,
                    burve_fee: tax_fee(paid_amount as nat, burve_tax as nat) as u64,
                },
            ),
        }
    }
}

/// What `estimate_burn_amount_from_bonding_curve` returns: the curve is
/// evaluated on `burning_amount`, and the fees are taken off what it returns.
pub open spec fn estimate_burn_outcome(
    bonding_curve_type: BondingCurveType,
    burning_amount: u64,
    mint_supply: u64,
    burve_tax: u16,
    project_tax: u16,
) -> Result<EstimateBurnResult, Errors> {
    if !tax_rates_valid(burve_tax, project_tax) {
        Err(Errors::TaxRateNotValid)
    } else {
        match bonding_curve_type.burn_outcome(burning_amount, mint_supply) {
            Err(e) => Err(e),
            Ok(burned) => Ok(
                EstimateBurnResult {
                    actual_received_amount: amount_after_fees(
                        burned.1 as nat,
                        burve_tax as nat,
                        project_tax as nat,
                    ) as u64,
                    project_fee: tax_fee(burned.1 as nat, project_tax as nat) as u64,
                    burve_fee: tax_fee(burned.1 as nat, burve_tax as nat) as u64,
                },
            ),
        }
    }
}

/// The fee on `amount` at a rate that does not exceed the denominator.
fn compute_tax_fee(amount: u64, rate: u16) -> (fee: u64)
    requires
        rate <= MAX_TAX_RATE_DENOMINATOR,
    ensures
        fee == tax_fee(amount as nat, rate as nat),
{
    assert((amount as u128) * (rate as u128) <= 0xffff_ffff_ffff_ffff * 0xffff) by (nonlinear_arith);
    let product: u128 = (amount as u128) * (rate as u128);
    let fee: u128 = product / (MAX_TAX_RATE_DENOMINATOR as u128);
    proof {
        lemma_fees_within_amount(amount as nat, rate as nat, 0);
    }
    fee as u64
}

/// Two fees whose rates together do not exceed the denominator never take
/// more than the amount they are charged on.
pub proof fn lemma_fees_within_amount(amount: nat, first_rate: nat, second_rate: nat)
    requires
        first_rate + second_rate <= MAX_TAX_RATE_DENOMINATOR,
    ensures
        tax_fee(amount, first_rate) + tax_fee(amount, second_rate) <= amount,
{
    let d = MAX_TAX_RATE_DENOMINATOR as nat;
    let f1 = amount * first_rate / d;
    let f2 = amount * second_rate / d;
    assert(f1 * d <= amount * first_rate) by (nonlinear_arith)
        requires
            f1 == amount * first_rate / d,
            d == 10_000,
    ;
    assert(f2 * d <= amount * second_rate) by (nonlinear_arith)
        requires
            f2 == amount * second_rate / d,
            d == 10_000,
    ;
    assert(f1 + f2 <= amount) by (nonlinear_arith)
        requires
            f1 * d <= amount * first_rate,
            f2 * d <= amount * second_rate,
            first_rate + second_rate <= d,
            d == 10_000,
    ;
}

/// With both rates within their maxima the two fees never take more than
/// the amount they are charged on, so what is left is not negative.
pub proof fn lemma_fee_invariant(amount: u64, burve_tax: u16, project_tax: u16)
    requires
        tax_rates_valid(burve_tax, project_tax),
    ensures
        tax_fee(amount as nat, project_tax as nat) + tax_fee(amount as nat, burve_tax as nat)
            <= amount,
        0 <= amount_after_fees(amount as nat, burve_tax as nat, project_tax as nat) <= amount,
{
    lemma_fees_within_amount(amount as nat, project_tax as nat, burve_tax as nat);
}

/// Splits a payment of `paid_amount` and prices the mint at `mint_supply`.
pub fn estimate_mint_amount_from_bonding_curve(
    bonding_curve_type: BondingCurveType,
    paid_amount: u64,
    mint_supply: u64,
    burve_tax: u16,
    project_tax: u16,
) -> (r: Result<EstimateMintResult, Errors>)
    ensures
        r == estimate_mint_outcome(bonding_curve_type, paid_amount, mint_supply, burve_tax, project_tax),
        r matches Ok(estimate) ==> estimate.project_fee + estimate.burve_fee
            + estimate.actual_paid_amount == paid_amount,
{
    if burve_tax > MAX_PLATFORM_TAX_RATE || project_tax > MAX_PROJECT_TAX_RATE {
        return Err(Errors::TaxRateNotValid);
    }
    let project_fee = compute_tax_fee(paid_amount, project_tax);
    let burve_fee = compute_tax_fee(paid_amount, burve_tax);
    proof {
        lemma_fees_within_amount(paid_amount as nat, project_tax as nat, burve_tax as nat);
    }
    let actual_paid_amount = paid_amount - project_fee - burve_fee;
    match bonding_curve_type.mint_amount_from_bonding_curve(actual_paid_amount, mint_supply) {
        Err(e) => Err(e),
        Ok(minted) => Ok(
            EstimateMintResult {
                calculated_receiving_amount: minted.0,
                actual_paid_amount,
                project_fee,
                burve_fee,
            },
        ),
    }
}

/// Prices the burn of `burning_amount` at `mint_supply` and splits what the
/// curve returns.
pub fn estimate_burn_amount_from_bonding_curve(
    bonding_curve_type: BondingCurveType,
    burning_amount: u64,
    mint_supply: u64,
    burve_tax: u16,
    project_tax: u16,
) -> (r: Result<EstimateBurnResult, Errors>)
    ensures
        r == estimate_burn_outcome(
            bonding_curve_type,
            burning_amount,
            mint_supply,
            burve_tax,
            project_tax,
        ),
        r matches Ok(estimate) ==> bonding_curve_type.burn_outcome(burning_amount, mint_supply)
            matches Ok(burned) && estimate.project_fee + estimate.burve_fee
            + estimate.actual_received_amount == burned.1,
{
    if burve_tax > MAX_PLATFORM_TAX_RATE || project_tax > MAX_PROJECT_TAX_RATE {
        return Err(Errors::TaxRateNotValid);
    }
    match bonding_curve_type.burn_amount_from_bonding_curve(burning_amount, mint_supply) {
        Err(e) => Err(e),
        Ok(burned) => {
            let calculated_receiving_amount = burned.1;
            let project_fee = compute_tax_fee(calculated_receiving_amount, project_tax);
            let burve_fee = compute_tax_fee(calculated_receiving_amount, burve_tax);
            proof {
                lemma_fees_within_amount(
                    calculated_receiving_amount as nat,
                    project_tax as nat,
                    burve_tax as nat,
                );
            }
            let actual_received_amount = calculated_receiving_amount - project_fee - burve_fee;
            Ok(EstimateBurnResult { actual_received_amount, project_fee, burve_fee })
        },
    }
}

/// What a mint moves: the payment less the project fee goes to the vault,
/// the project fee to the project treasury, and the minted tokens to the
/// payer. The platform fee stays in the vault and is added to the counter
/// from which the platform claims it.
#[derive(Debug, Clone, Copy, PartialEq, Eq, Structural)]
pub struct MintSettlement {
    pub vault_amount: u64,
    pub treasury_amount: u64,
    pub mint_amount: u64,
    pub burve_tax_counter: u64,
}

/// What a burn moves: the tokens are burnt, the value less both fees goes
/// from the vault to the redeemer and the project fee to the project
/// treasury. The platform fee stays in the vault and is added to the counter.
#[derive(Debug, Clone, Copy, PartialEq, Eq, Structural)]
pub struct BurnSettlement {
    pub burn_amount: u64,
    pub payout_amount: u64,
    pub treasury_amount: u64,
    pub burve_tax_counter: u64,
}

/// What `route_mint_token` returns.
pub open spec fn route_mint_outcome(
    bonding_curve_type: BondingCurveType,
    amount: u64,
    mint_supply: u64,
    burve_tax: u16,
    project_tax: u16,
    min_receive: u64,
    burve_tax_counter: u64,
) -> Result<MintSettlement, Errors> {
    match estimate_mint_outcome(bonding_curve_type, amount, mint_supply, burve_tax, project_tax) {
        Err(e) => Err(e),
        Ok(estimate) => if estimate.calculated_receiving_amount < min_receive {
            Err(Errors::MinReceiveNotMet)
        } else if burve_tax_counter + estimate.burve_fee > u64::MAX {
            Err(Errors::Overflow)
        } else {
            Ok(
                MintSettlement {
                    vault_amount: (estimate.actual_paid_amount + estimate.burve_fee) as u64,
                    treasury_amount: estimate.project_fee,
                    mint_amount: estimate.calculated_receiving_amount,
                    burve_tax_counter: (burve_tax_counter + estimate.burve_fee) as u64,
                },
            )
        },
    }
}

/// What `route_burn_token` returns.
pub open spec fn route_burn_outcome(
    bonding_curve_type: BondingCurveType,
    amount: u64,
    mint_supply: u64,
    burve_tax: u16,
    project_tax: u16,
    min_receive: u64,
    burve_tax_counter: u64,
) -> Result<BurnSettlement, Errors> {
    match estimate_burn_outcome(bonding_curve_type, amount, mint_supply, burve_tax, project_tax) {
        Err(e) => Err(e),
        Ok(estimate) => if estimate.actual_received_amount < min_receive {
            Err(Errors::MinReceiveNotMet)
        } else if burve_tax_counter + estimate.burve_fee > u64::MAX {
            Err(Errors::Overflow)
        } else {
            Ok(
                BurnSettlement {
                    burn_amount: amount,
                    payout_amount: estimate.actual_received_amount,
                    treasury_amount: estimate.project_fee,
                    burve_tax_counter: (burve_tax_counter + estimate.burve_fee) as u64,
                },
            )
        },
    }
}

/// Decides a mint for a payment of `amount`: prices it, holds the result
/// against the least amount of tokens that the payer accepts, and says what
/// is to be moved. The amounts moved out of the payer's account add up to
/// `amount`.
pub fn route_mint_token(
    bonding_curve_type: BondingCurveType,
    amount: u64,
    mint_supply: u64,
    burve_tax: u16,
    project_tax: u16,
    min_receive: u64,
    burve_tax_counter: u64,
) -> (r: Result<MintSettlement, Errors>)
    ensures
        r == route_mint_outcome(
            bonding_curve_type,
            amount,
            mint_supply,
            burve_tax,
            project_tax,
            min_receive,
            burve_tax_counter,
        ),
        r matches Ok(settlement) ==> settlement.vault_amount + settlement.treasury_amount
            == amount && settlement.mint_amount >= min_receive,
{
    let estimate = match estimate_mint_amount_from_bonding_curve(
        bonding_curve_type,
        amount,
        mint_supply,
        burve_tax,
        project_tax,
    ) {
        Err(e) => { return Err(e); },
        Ok(estimate) => estimate,
    };
    if estimate.calculated_receiving_amount < min_receive {
        return Err(Errors::MinReceiveNotMet);
    }
    if estimate.burve_fee > u64::MAX - burve_tax_counter {
        return Err(Errors::Overflow);
    }
    Ok(
        MintSettlement {
            vault_amount: estimate.actual_paid_amount + estimate.burve_fee,
            treasury_amount: estimate.project_fee,
            mint_amount: estimate.calculated_receiving_amount,
            burve_tax_counter: burve_tax_counter + estimate.burve_fee,
        },
    )
}

/// Decides a burn of `amount` tokens: prices it, holds the result against
/// the least value that the redeemer accepts, and says what is to be moved.
pub fn route_burn_token(
    bonding_curve_type: BondingCurveType,
    amount: u64,
    mint_supply: u64,
    burve_tax: u16,
    project_tax: u16,
    min_receive: u64,
    burve_tax_counter: u64,
) -> (r: Result<BurnSettlement, Errors>)
    ensures
        r == route_burn_outcome(
            bonding_curve_type,
            amount,
            mint_supply,
            burve_tax,
            project_tax,
            min_receive,
            burve_tax_counter,
        ),
        r matches Ok(settlement) ==> settlement.payout_amount >= min_receive,
{
    let estimate = match estimate_burn_amount_from_bonding_curve(
        bonding_curve_type,
        amount,
        mint_supply,
        burve_tax,
        project_tax,
    ) {
        Err(e) => { return Err(e); },
        Ok(estimate) => estimate,
    };
    if estimate.actual_received_amount < min_receive {
        return Err(Errors::MinReceiveNotMet);
    }
    if estimate.burve_fee > u64::MAX - burve_tax_counter {
        return Err(Errors::Overflow);
    }
    Ok(
        BurnSettlement {
            burn_amount: amount,
            payout_amount: estimate.actual_received_amount,
            treasury_amount: estimate.project_fee,
            burve_tax_counter: burve_tax_counter + estimate.burve_fee,
        },
    )
}

/// Decides a claim of the platform's fees: all that the counter holds is
/// paid out, and the counter starts again at zero.
pub fn route_claim_burve_tax(burve_tax_counter: u64) -> (r: (u64, u64))
    ensures
        r.0 == burve_tax_counter,
        r.1 == 0,
{
    (burve_tax_counter, 0)
}

} // verus!
