//! Pricing of token issuance and redemption along a bonding curve.
//!
//! The crate computes, from the outstanding supply and an amount, how many
//! units a mint produces or a burn returns, and how the value is split between
//! the depositor, the project treasury and the platform treasury. It holds no
//! state and moves no value.

pub mod calculations;
pub mod instructions;
pub mod utils;

pub use calculations::{
    BondingCurve, ExpMixedBondingSwap, LinearMixedBondingSwap, Parameters, MAX_EXPONENT,
};
pub use instructions::{
    estimate_burn_amount_from_bonding_curve, estimate_mint_amount_from_bonding_curve,
    BondingCurveType, EstimateBurnResult, EstimateMintResult,
};
pub use utils::{Errors, Pubkey, MAX_TAX_RATE_DENOMINATOR, TOKEN_SCALE};
