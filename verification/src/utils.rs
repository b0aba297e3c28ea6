//! Constants and the error type shared by the whole crate.

use vstd::prelude::*;

verus! {

/// Units of supply in one whole token. Token amounts carry nine decimals.
pub const TOKEN_SCALE: u64 = 1_000_000_000;

/// The square of `TOKEN_SCALE`.
pub const TOKEN_SCALE_SQUARED: u64 = 1_000_000_000_000_000_000;

/// Tax rates are parts of this denominator: a rate of 100 is one percent.
pub const MAX_TAX_RATE_DENOMINATOR: u64 = 10_000;

/// The address of an account: 32 bytes.
#[derive(Debug, Clone, Copy, PartialEq, Eq)]
pub struct Pubkey {
    pub bytes: [u8; 32],
}

/// Why an operation was refused.
#[derive(Debug, Clone, Copy, PartialEq, Eq, Structural)]
pub enum Errors {
    /// A tax rate is above the maximum configured for it.
    TaxRateNotValid,
    /// The curve parameters are degenerate: the curve would be zero
    /// everywhere, or evaluating it would divide by zero.
    InvalidParameters,
    /// More tokens were offered for redemption than are outstanding.
    BurnExceedsSupply,
    /// The supply lies outside the range on which the curve is evaluated.
    SupplyOutOfRange,
    /// A result does not fit in 64 bits.
    Overflow,
    /// The amount to receive is below the minimum that the caller accepts.
    MinReceiveNotMet,
}

} // verus!
