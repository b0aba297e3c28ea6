//! The interface that both curve families offer.

use vstd::prelude::*;
use crate::utils::Errors;

verus! {

/// The two scaling constants of one curve. What they mean depends on the
/// curve family.
#[derive(Debug, Clone, Copy)]
pub struct Parameters {
    pub a: u64,
    pub b: u64,
}

/// A bonding curve: a price as a function of the outstanding supply, with the
/// amounts that a mint produces and a burn returns.
///
/// Each operation is a pure function of its arguments. The three spec
/// functions say what the operations return; an implementation defines them
/// and its executable functions compute exactly them.
pub trait BondingCurve {
    /// What a mint of `native_asset` units of value at `current_supply` yields:
    /// the tokens to issue and the value consumed, or the reason for refusing.
    spec fn mint_outcome(native_asset: u64, current_supply: u64, params: Parameters) -> Result<
        (u64, u64),
        Errors,
    >;

    /// What a burn of `token_amount` tokens at `current_supply` yields: the
    /// tokens consumed and the value returned, or the reason for refusing.
    spec fn burn_outcome(token_amount: u64, current_supply: u64, params: Parameters) -> Result<
        (u64, u64),
        Errors,
    >;

    /// The marginal price at `current_supply`, or the reason for refusing.
    spec fn price_outcome(current_supply: u64, params: Parameters) -> Result<u64, Errors>;

    /// Prices a mint: the tokens to issue for `native_asset` units of value,
    /// and the value consumed, which is `native_asset` itself.
    fn calculate_mint_amount_from_bonding_curve(
        native_asset: u64,
        current_supply: u64,
        params: Parameters,
    ) -> (r: Result<(u64, u64), Errors>)
        ensures
            r == Self::mint_outcome(native_asset, current_supply, params),
    ;

    /// Prices a burn: the tokens consumed, which are `token_amount`
    /// themselves, and the value returned for them.
    fn calculate_burn_amount_from_bonding_curve(
        token_amount: u64,
        current_supply: u64,
        params: Parameters,
    ) -> (r: Result<(u64, u64), Errors>)
        ensures
            r == Self::burn_outcome(token_amount, current_supply, params),
    ;

    /// The marginal price of one whole token at `current_supply`.
    fn price(current_supply: u64, params: Parameters) -> (r: Result<u64, Errors>)
        ensures
            r == Self::price_outcome(current_supply, params),
    ;
}

} // verus!
