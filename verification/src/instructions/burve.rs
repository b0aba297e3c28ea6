//! The platform's own account: who administers it, where its fees go, and
//! the tax rates it charges.

use vstd::prelude::*;
use crate::utils::{Errors, Pubkey};

verus! {

/// The highest tax rate that the platform may charge: one percent.
pub const MAX_PLATFORM_TAX_RATE: u16 = 100;

/// Who is to administer the platform and where its fees are to go.
#[derive(Debug, Clone, Copy)]
pub struct InitializeArgs {
    pub admin: Pubkey,
    pub treasury: Pubkey,
}

/// The platform's new tax rates.
#[derive(Debug, Clone, Copy)]
pub struct SetBurveTaxArgs {
    pub new_mint_tax: u16,
    pub new_burn_tax: u16,
}

/// The state of the platform.
#[derive(Debug, Clone, Copy)]
pub struct BurveBase {
    pub admin: Pubkey,
    pub treasury: Pubkey,
    pub mint_tax: u16,
    pub burn_tax: u16,
}

/// The platform as it starts: both taxes at their maximum.
pub fn initialize(args: InitializeArgs) -> (base: BurveBase)
    ensures
        base.admin == args.admin,
        base.treasury == args.treasury,
        base.mint_tax == MAX_PLATFORM_TAX_RATE,
        base.burn_tax == MAX_PLATFORM_TAX_RATE,
{
    BurveBase {
        admin: args.admin,
        treasury: args.treasury,
        mint_tax: MAX_PLATFORM_TAX_RATE,
        burn_tax: MAX_PLATFORM_TAX_RATE,
    }
}

/// Hands the platform to a new administrator.
pub fn set_burve_admin(base: &mut BurveBase, new_admin: Pubkey)
    ensures
        *final(base) == (BurveBase { admin: new_admin, ..*old(base) }),
{
    base.admin = new_admin;
}

/// Directs the platform's fees to a new treasury.
pub fn set_burve_treasury(base: &mut BurveBase, new_treasury: Pubkey)
    ensures
        *final(base) == (BurveBase { treasury: new_treasury, ..*old(base) }),
{
    base.treasury = new_treasury;
}

/// Sets the platform's tax rates. Rates above the maximum are refused and
/// leave the state as it was.
pub fn set_burve_tax(base: &mut BurveBase, args: SetBurveTaxArgs) -> (r: Result<(), Errors>)
    ensures
        args.new_mint_tax <= MAX_PLATFORM_TAX_RATE && args.new_burn_tax <= MAX_PLATFORM_TAX_RATE
            ==> r is Ok && *final(base) == (BurveBase {
            mint_tax: args.new_mint_tax,
            burn_tax: args.new_burn_tax,
            ..*old(base)
        }),
        args.new_mint_tax > MAX_PLATFORM_TAX_RATE || args.new_burn_tax > MAX_PLATFORM_TAX_RATE
            ==> r == Err::<(), Errors>(Errors::TaxRateNotValid) && *final(base) == *old(base),
{
    if args.new_mint_tax > MAX_PLATFORM_TAX_RATE {
        return Err(Errors::TaxRateNotValid);
    }
    if args.new_burn_tax > MAX_PLATFORM_TAX_RATE {
        return Err(Errors::TaxRateNotValid);
    }
    base.mint_tax = args.new_mint_tax;
    base.burn_tax = args.new_burn_tax;
    Ok(())
}

} // verus!
