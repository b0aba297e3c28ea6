//! The curve of a project.

use vstd::prelude::*;
use crate::calculations::bonding_curve::{BondingCurve, Parameters};
use crate::calculations::exp_bonding_curve::{
    exp_round_trip_tolerance, lemma_exp_mint_stays_in_range, lemma_exp_price_at_least_start,
    lemma_exp_price_monotonic, lemma_exp_round_trip, ExpMixedBondingSwap,
};
use crate::calculations::linear_bonding_curve::{
    lemma_linear_price_monotonic, lemma_linear_price_positive, lemma_linear_round_trip,
    linear_round_trip_tolerance, LinearMixedBondingSwap,
};
use crate::utils::{Errors, Pubkey};

verus! {

/// The highest tax rate that a project may charge: fifty percent.
pub const MAX_PROJECT_TAX_RATE: u16 = 5000;

/// The curve family of a project with its two parameters, chosen once when
/// the project is created.
#[derive(Debug, Clone, Copy, PartialEq, Eq, Structural)]
pub enum BondingCurveType {
    Linear { a: u64, b: u64 },
    Exponential { a: u64, b: u64 },
}

impl BondingCurveType {
    /// What a mint of `input_value` at `current_supply` yields on this curve.
    pub open spec fn mint_outcome(self, input_value: u64, current_supply: u64) -> Result<
        (u64, u64),
        Errors,
    > {
        match self {
            BondingCurveType::Linear { a, b } => LinearMixedBondingSwap::mint_outcome(
                input_value,
                current_supply,
                Parameters { a, b },
            ),
            BondingCurveType::Exponential { a, b } => ExpMixedBondingSwap::mint_outcome(
                input_value,
                current_supply,
                Parameters { a, b },
            ),
        }
    }

    /// What a burn of `tokens_in` at `current_supply` yields on this curve.
    pub open spec fn burn_outcome(self, tokens_in: u64, current_supply: u64) -> Result<
        (u64, u64),
        Errors,
    > {
        match self {
            BondingCurveType::Linear { a, b } => LinearMixedBondingSwap::burn_outcome(
                tokens_in,
                current_supply,
                Parameters { a, b },
            ),
            BondingCurveType::Exponential { a, b } => ExpMixedBondingSwap::burn_outcome(
                tokens_in,
                current_supply,
                Parameters { a, b },
            ),
        }
    }

    /// The price at `current_supply` on this curve.
    pub open spec fn price_outcome(self, current_supply: u64) -> Result<u64, Errors> {
        match self {
            BondingCurveType::Linear { a, b } => LinearMixedBondingSwap::price_outcome(
                current_supply,
                Parameters { a, b },
            ),
            BondingCurveType::Exponential { a, b } => ExpMixedBondingSwap::price_outcome(
                current_supply,
                Parameters { a, b },
            ),
        }
    }

    /// The tokens issued for `input_value`, and the value consumed, which is
    /// `input_value` itself.
    pub fn mint_amount_from_bonding_curve(self, input_value: u64, current_supply: u64) -> (r:
        Result<(u64, u64), Errors>)
        ensures
            r == self.mint_outcome(input_value, current_supply),
    {
        match self {
            BondingCurveType::Linear {
                a,
                b,
            } => LinearMixedBondingSwap::calculate_mint_amount_from_bonding_curve(
                input_value,
                current_supply,
                Parameters { a, b },
            ),
            BondingCurveType::Exponential {
                a,
                b,
            } => ExpMixedBondingSwap::calculate_mint_amount_from_bonding_curve(
                input_value,
                current_supply,
                Parameters { a, b },
            ),
        }
    }

    /// The tokens consumed, which are `tokens_in` themselves, and the value
    /// returned for them.
    pub fn burn_amount_from_bonding_curve(self, tokens_in: u64, current_supply: u64) -> (r: Result<
        (u64, u64),
        Errors,
    >)
        ensures
            r == self.burn_outcome(tokens_in, current_supply),
    {
        match self {
            BondingCurveType::Linear {
                a,
                b,
            } => LinearMixedBondingSwap::calculate_burn_amount_from_bonding_curve(
                tokens_in,
                current_supply,
                Parameters { a, b },
            ),
            BondingCurveType::Exponential {
                a,
                b,
            } => ExpMixedBondingSwap::calculate_burn_amount_from_bonding_curve(
                tokens_in,
                current_supply,
                Parameters { a, b },
            ),
        }
    }

    /// The marginal price at `current_supply`.
    pub fn price(self, current_supply: u64) -> (r: Result<u64, Errors>)
        ensures
            r == self.price_outcome(current_supply),
    {
        match self {
            BondingCurveType::Linear { a, b } => LinearMixedBondingSwap::price(
                current_supply,
                Parameters { a, b },
            ),
            BondingCurveType::Exponential { a, b } => ExpMixedBondingSwap::price(
                current_supply,
                Parameters { a, b },
            ),
        }
    }
}

impl BondingCurveType {
    /// How far the value returned by a burn may lie from the value that
    /// minted the tokens, when `supply` is the supply after the mint.
    pub open spec fn round_trip_tolerance(self, supply: nat) -> nat {
        match self {
            BondingCurveType::Linear { a, b } => linear_round_trip_tolerance(
                supply,
                a as nat,
                b as nat,
            ),
            BondingCurveType::Exponential { a, b } => exp_round_trip_tolerance(
                supply,
                a as nat,
                b as nat,
            ),
        }
    }
}

/// The state of a project.
#[derive(Debug, Clone)]
pub struct ProjectMetadata {
    pub admin: Pubkey,
    pub treasury: Pubkey,
    pub symbol: String,
    pub mint_tax: u16,
    pub burn_tax: u16,
    /// The token in which the project is paid, or `None` when it is paid in
    /// the native coin.
    pub raising_token: Option<Pubkey>,
    pub bonding_curve_type: BondingCurveType,
    /// The platform's fees that have been collected and not yet claimed.
    pub burve_tax_counter: u64,
}

/// What a new project is created from.
#[derive(Debug, Clone)]
pub struct CreateProjectArgs {
    pub name: String,
    pub symbol: String,
    pub uri: String,
    pub admin: Pubkey,
    pub treasury: Pubkey,
    pub mint_tax: u16,
    pub burn_tax: u16,
    pub bonding_curve_type: BondingCurveType,
}

/// A project's new tax rates.
#[derive(Debug, Clone, Copy)]
pub struct SetProjectTaxArgs {
    pub new_mint_tax: u16,
    pub new_burn_tax: u16,
}

/// Both rates are within the maximum for a project.
pub open spec fn project_tax_valid(mint_tax: u16, burn_tax: u16) -> bool {
    mint_tax <= MAX_PROJECT_TAX_RATE && burn_tax <= MAX_PROJECT_TAX_RATE
}

/// The state of a new project that is paid in the token `raising_token`. Its
/// treasury is the token account `project_treasury`, not the one in `args`.
/// Tax rates above the maximum are refused.
pub fn factory_create_project_with_spl(
    args: CreateProjectArgs,
    project_treasury: Pubkey,
    raising_token: Pubkey,
) -> (r: Result<ProjectMetadata, Errors>)
    ensures
        !project_tax_valid(args.mint_tax, args.burn_tax) ==> r == Err::<ProjectMetadata, Errors>(
            Errors::TaxRateNotValid,
        ),
        project_tax_valid(args.mint_tax, args.burn_tax) ==> r == Ok::<ProjectMetadata, Errors>(
            ProjectMetadata {
                admin: args.admin,
                treasury: project_treasury,
                symbol: args.symbol,
                mint_tax: args.mint_tax,
                burn_tax: args.burn_tax,
                raising_token: Some(raising_token),
                bonding_curve_type: args.bonding_curve_type,
                burve_tax_counter: 0,
            },
        ),
{
    if args.mint_tax > MAX_PROJECT_TAX_RATE || args.burn_tax > MAX_PROJECT_TAX_RATE {
        return Err(Errors::TaxRateNotValid);
    }
    Ok(
        ProjectMetadata {
            admin: args.admin,
            treasury: project_treasury,
            symbol: args.symbol,
            mint_tax: args.mint_tax,
            burn_tax: args.burn_tax,
            raising_token: Some(raising_token),
            bonding_curve_type: args.bonding_curve_type,
            burve_tax_counter: 0,
        },
    )
}

/// The state of a new project that is paid in the native coin. Tax rates
/// above the maximum are refused.
pub fn factory_create_project_with_sol(args: CreateProjectArgs) -> (r: Result<
    ProjectMetadata,
    Errors,
>)
    ensures
        !project_tax_valid(args.mint_tax, args.burn_tax) ==> r == Err::<ProjectMetadata, Errors>(
            Errors::TaxRateNotValid,
        ),
        project_tax_valid(args.mint_tax, args.burn_tax) ==> r == Ok::<ProjectMetadata, Errors>(
            ProjectMetadata {
                admin: args.admin,
                treasury: args.treasury,
                symbol: args.symbol,
                mint_tax: args.mint_tax,
                burn_tax: args.burn_tax,
                raising_token: None,
                bonding_curve_type: args.bonding_curve_type,
                burve_tax_counter: 0,
            },
        ),
{
    if args.mint_tax > MAX_PROJECT_TAX_RATE || args.burn_tax > MAX_PROJECT_TAX_RATE {
        return Err(Errors::TaxRateNotValid);
    }
    Ok(
        ProjectMetadata {
            admin: args.admin,
            treasury: args.treasury,
            symbol: args.symbol,
            mint_tax: args.mint_tax,
            burn_tax: args.burn_tax,
            raising_token: None,
            bonding_curve_type: args.bonding_curve_type,
            burve_tax_counter: 0,
        },
    )
}

/// Hands the project to a new administrator.
pub fn factory_set_project_admin(metadata: &mut ProjectMetadata, new_admin: Pubkey)
    ensures
        *final(metadata) == (ProjectMetadata { admin: new_admin, ..*old(metadata) }),
{
    metadata.admin = new_admin;
}

/// Directs the project's fees to a new treasury.
pub fn factory_set_project_treasury(metadata: &mut ProjectMetadata, new_treasury: Pubkey)
    ensures
        *final(metadata) == (ProjectMetadata { treasury: new_treasury, ..*old(metadata) }),
{
    metadata.treasury = new_treasury;
}

/// Sets the project's tax rates. Rates above the maximum are refused and
/// leave the state as it was.
pub fn factory_set_project_tax(metadata: &mut ProjectMetadata, args: SetProjectTaxArgs) -> (r:
    Result<(), Errors>)
    ensures
        project_tax_valid(args.new_mint_tax, args.new_burn_tax) ==> r is Ok && *final(metadata)
            == (ProjectMetadata {
            mint_tax: args.new_mint_tax,
            burn_tax: args.new_burn_tax,
            ..*old(metadata)
        }),
        !project_tax_valid(args.new_mint_tax, args.new_burn_tax) ==> r == Err::<(), Errors>(
            Errors::TaxRateNotValid,
        ) && *final(metadata) == *old(metadata),
{
    if args.new_mint_tax > MAX_PROJECT_TAX_RATE || args.new_burn_tax > MAX_PROJECT_TAX_RATE {
        return Err(Errors::TaxRateNotValid);
    }
    metadata.mint_tax = args.new_mint_tax;
    metadata.burn_tax = args.new_burn_tax;
    Ok(())
}

/// On either curve the price never falls when the supply grows.
pub proof fn lemma_price_monotonic(
    curve: BondingCurveType,
    lower_supply: u64,
    higher_supply: u64,
    lower_price: u64,
    higher_price: u64,
)
    requires
        lower_supply < higher_supply,
        curve.price_outcome(lower_supply) == Ok::<u64, Errors>(lower_price),
        curve.price_outcome(higher_supply) == Ok::<u64, Errors>(higher_price),
    ensures
        lower_price <= higher_price,
{
    match curve {
        BondingCurveType::Linear { a, b } => {
            lemma_linear_price_monotonic(
                lower_supply as nat,
                higher_supply as nat,
                a as nat,
                b as nat,
            );
        },
        BondingCurveType::Exponential { a, b } => {
            lemma_exp_price_monotonic(
                lower_supply as nat,
                higher_supply as nat,
                a as nat,
                b as nat,
            );
        },
    }
}

/// The price is positive: on the exponential curve always, on the linear
/// curve when the offset is positive.
pub proof fn lemma_price_positive(curve: BondingCurveType, x: u64, p: u64)
    requires
        curve.price_outcome(x) == Ok::<u64, Errors>(p),
        curve matches BondingCurveType::Linear { a, b } ==> b > 0,
    ensures
        p > 0,
{
    match curve {
        BondingCurveType::Linear { a, b } => {
            lemma_linear_price_positive(x as nat, a as nat, b as nat);
        },
        BondingCurveType::Exponential { a, b } => {
            lemma_exp_price_at_least_start(x as nat, a as nat, b as nat);
        },
    }
}

/// A mint consumes exactly the value offered, and a burn exactly the tokens
/// offered.
pub proof fn lemma_amounts_echoed(curve: BondingCurveType, amount: u64, supply: u64)
    ensures
        curve.mint_outcome(amount, supply) matches Ok(minted) ==> minted.1 == amount,
        curve.burn_outcome(amount, supply) matches Ok(burned) ==> burned.0 == amount,
{
}

/// On either curve the supply after a mint fits in 64 bits.
pub proof fn lemma_mint_keeps_supply_representable(
    curve: BondingCurveType,
    v: u64,
    x: u64,
    t: u64,
)
    requires
        curve.mint_outcome(v, x) == Ok::<(u64, u64), Errors>((t, v)),
    ensures
        x + t <= u64::MAX,
{
    match curve {
        BondingCurveType::Linear { a, b } => {},
        BondingCurveType::Exponential { a, b } => {
            lemma_exp_mint_stays_in_range(v, x, Parameters { a, b }, t);
        },
    }
}

/// On either curve, minting for `v` and burning the minted tokens at once
/// returns `v` up to the tolerance of the curve at the supply in between.
pub proof fn lemma_round_trip(curve: BondingCurveType, v: u64, x: u64, t: u64, w: u64)
    requires
        curve.mint_outcome(v, x) == Ok::<(u64, u64), Errors>((t, v)),
        curve.burn_outcome(t, (x + t) as u64) == Ok::<(u64, u64), Errors>((t, w)),
    ensures
        w <= v + curve.round_trip_tolerance((x + t) as nat),
        v <= w + curve.round_trip_tolerance((x + t) as nat),
{
    match curve {
        BondingCurveType::Linear { a, b } => {
            lemma_linear_round_trip(v, x, Parameters { a, b }, t, w);
        },
        BondingCurveType::Exponential { a, b } => {
            lemma_exp_round_trip(v, x, Parameters { a, b }, t, w);
        },
    }
}

} // verus!
