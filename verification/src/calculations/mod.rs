//! Curve arithmetic: the wide-integer substrate and the curve families built on it.

pub mod biguint;
pub mod bonding_curve;
pub mod exp_bonding_curve;
pub mod linear_bonding_curve;
pub mod math;

pub use bonding_curve::{BondingCurve, Parameters};
pub use exp_bonding_curve::{ExpMixedBondingSwap, MAX_EXPONENT};
pub use linear_bonding_curve::LinearMixedBondingSwap;
