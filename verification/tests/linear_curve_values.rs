use burve_solana_contract::calculations::{BondingCurve, LinearMixedBondingSwap, Parameters};
use burve_solana_contract::Errors;

#[test]
fn linear_mint_rounds_the_root_to_the_nearest_token() {
    let minted = LinearMixedBondingSwap::calculate_mint_amount_from_bonding_curve(
        100,
        50,
        Parameters { a: 2, b: 3 },
    );
    assert_eq!(minted, Ok((8_611_874_165, 100)));

    let minted = LinearMixedBondingSwap::calculate_mint_amount_from_bonding_curve(
        1_000_000_000,
        1_000_000_000_000,
        Parameters { a: 1_000_000, b: 1_000_000 },
    );
    assert_eq!(minted, Ok((998_502_993, 1_000_000_000)));
}

#[test]
fn linear_mint_with_slope_zero_is_a_fixed_price_sale() {
    let minted = LinearMixedBondingSwap::calculate_mint_amount_from_bonding_curve(
        7,
        5,
        Parameters { a: 0, b: 3 },
    );
    assert_eq!(minted, Ok((2_333_333_333, 7)));
}

#[test]
fn linear_mint_yields_nothing_below_the_price_of_a_unit() {
    let params = Parameters { a: 0, b: 2_000_000_000 };
    assert_eq!(
        LinearMixedBondingSwap::calculate_mint_amount_from_bonding_curve(1, 0, params),
        Ok((0, 1))
    );
    assert_eq!(
        LinearMixedBondingSwap::calculate_mint_amount_from_bonding_curve(2, 0, params),
        Ok((1, 2))
    );
}

#[test]
fn linear_mint_of_the_largest_value_fits() {
    let minted = LinearMixedBondingSwap::calculate_mint_amount_from_bonding_curve(
        u64::MAX,
        0,
        Parameters { a: 1, b: 1 },
    );
    assert_eq!(minted, Ok((6_074_000_998_952_099_385, u64::MAX)));
}

#[test]
fn linear_mint_refuses_a_supply_beyond_64_bits() {
    let minted = LinearMixedBondingSwap::calculate_mint_amount_from_bonding_curve(
        u64::MAX,
        u64::MAX - 5,
        Parameters { a: 0, b: 1 },
    );
    assert_eq!(minted, Err(Errors::Overflow));
}

#[test]
fn linear_burn_divides_the_whole_numerator_once() {
    let burned = LinearMixedBondingSwap::calculate_burn_amount_from_bonding_curve(
        1_000_000_000_000,
        2_000_000_000_000,
        Parameters { a: 1_000_000, b: 1_000_000 },
    );
    assert_eq!(burned, Ok((1_000_000_000_000, 1_501_000_000_000)));
}

#[test]
fn linear_burn_refuses_more_than_the_supply() {
    let burned = LinearMixedBondingSwap::calculate_burn_amount_from_bonding_curve(
        101,
        100,
        Parameters { a: 2, b: 3 },
    );
    assert_eq!(burned, Err(Errors::BurnExceedsSupply));
}

#[test]
fn linear_burn_refuses_a_value_beyond_64_bits() {
    let burned = LinearMixedBondingSwap::calculate_burn_amount_from_bonding_curve(
        u64::MAX,
        u64::MAX,
        Parameters { a: u64::MAX, b: u64::MAX },
    );
    assert_eq!(burned, Err(Errors::Overflow));
}

#[test]
fn linear_price_is_slope_times_supply_plus_offset() {
    assert_eq!(LinearMixedBondingSwap::price(100, Parameters { a: 2, b: 3 }), Ok(3));
    assert_eq!(
        LinearMixedBondingSwap::price(
            1_000_000_000_000,
            Parameters { a: 1_000_000, b: 1_000_000 }
        ),
        Ok(1_001_000_000)
    );
    assert_eq!(
        LinearMixedBondingSwap::price(u64::MAX, Parameters { a: 1_000_000_000, b: 0 }),
        Ok(u64::MAX)
    );
}

#[test]
fn linear_price_refuses_a_price_beyond_64_bits() {
    assert_eq!(
        LinearMixedBondingSwap::price(u64::MAX, Parameters { a: u64::MAX, b: u64::MAX }),
        Err(Errors::Overflow)
    );
    assert_eq!(
        LinearMixedBondingSwap::price(u64::MAX, Parameters { a: 1_000_000_000, b: 1 }),
        Err(Errors::Overflow)
    );
}

#[test]
fn linear_curve_refuses_parameters_that_are_both_zero() {
    let params = Parameters { a: 0, b: 0 };
    assert_eq!(
        LinearMixedBondingSwap::calculate_mint_amount_from_bonding_curve(1, 0, params),
        Err(Errors::InvalidParameters)
    );
    assert_eq!(
        LinearMixedBondingSwap::calculate_burn_amount_from_bonding_curve(0, 0, params),
        Err(Errors::InvalidParameters)
    );
    assert_eq!(LinearMixedBondingSwap::price(0, params), Err(Errors::InvalidParameters));
}

#[test]
fn linear_price_never_falls_with_the_supply() {
    let params = Parameters { a: 123_456_789, b: 7 };
    let supplies: [u64; 6] = [0, 1, 8, 9, 1_000_000, u64::MAX / 1_000_000_000];
    let mut last: u64 = 0;
    for supply in supplies {
        let price = LinearMixedBondingSwap::price(supply, params).unwrap();
        assert!(price >= last);
        assert!(price > 0);
        last = price;
    }
}

#[test]
fn linear_round_trip_stays_within_the_price_of_a_unit() {
    let params = Parameters { a: 1_000_000, b: 1_000_000 };
    let supply: u64 = 1_000_000_000_000;
    let value: u64 = 1_000_000_000;
    let (tokens, consumed) =
        LinearMixedBondingSwap::calculate_mint_amount_from_bonding_curve(value, supply, params)
            .unwrap();
    assert_eq!(consumed, value);
    let (burnt, returned) = LinearMixedBondingSwap::calculate_burn_amount_from_bonding_curve(
        tokens,
        supply + tokens,
        params,
    )
    .unwrap();
    assert_eq!(burnt, tokens);
    assert_eq!(returned, 1_000_000_000);
    let tolerance: u64 = 2;
    assert!(returned <= value + tolerance && value <= returned + tolerance);
}
