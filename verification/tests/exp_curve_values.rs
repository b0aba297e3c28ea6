use burve_solana_contract::calculations::{BondingCurve, ExpMixedBondingSwap, Parameters};
use burve_solana_contract::Errors;

fn curve() -> Parameters {
    Parameters { a: 10_000_000, b: 100_000 }
}

#[test]
fn exp_mint_at_zero_supply() {
    let minted =
        ExpMixedBondingSwap::calculate_mint_amount_from_bonding_curve(2_000_000_000_000, 0, curve());
    assert_eq!(minted, Ok((2_141_641, 2_000_000_000_000)));
    let minted = ExpMixedBondingSwap::calculate_mint_amount_from_bonding_curve(1, 0, curve());
    assert_eq!(minted, Ok((100, 1)));
}

#[test]
fn exp_mint_above_zero_supply() {
    let minted =
        ExpMixedBondingSwap::calculate_mint_amount_from_bonding_curve(1_000_000_000, 1_000_000, curve());
    assert_eq!(minted, Ok((383_730, 1_000_000_000)));
}

#[test]
fn exp_mint_yields_nothing_when_the_first_half_token_costs_more() {
    let minted =
        ExpMixedBondingSwap::calculate_mint_amount_from_bonding_curve(1_000_000_000, 3_000_000, curve());
    assert_eq!(minted, Ok((0, 1_000_000_000)));
}

#[test]
fn exp_burn_returns_the_area_under_the_curve() {
    let burned =
        ExpMixedBondingSwap::calculate_burn_amount_from_bonding_curve(2_141_641, 2_141_641, curve());
    assert_eq!(burned, Ok((2_141_641, 1_999_993_963_996)));
    let burned =
        ExpMixedBondingSwap::calculate_burn_amount_from_bonding_curve(500_000, 1_000_000, curve());
    assert_eq!(burned, Ok((500_000, 21_878_053)));
    let burned = ExpMixedBondingSwap::calculate_burn_amount_from_bonding_curve(0, 1_000_000, curve());
    assert_eq!(burned, Ok((0, 0)));
}

#[test]
fn exp_price_is_the_start_price_times_the_growth() {
    assert_eq!(ExpMixedBondingSwap::price(0, curve()), Ok(10_000_000));
    assert_eq!(ExpMixedBondingSwap::price(1_000_000, curve()), Ok(220_264_657_948));
    assert_eq!(ExpMixedBondingSwap::price(2_141_641, curve()), Ok(19_999_939_649_963_924));
}

#[test]
fn exp_curve_refuses_a_parameter_that_is_zero() {
    for params in [Parameters { a: 0, b: 5 }, Parameters { a: 5, b: 0 }, Parameters { a: 0, b: 0 }] {
        assert_eq!(
            ExpMixedBondingSwap::calculate_mint_amount_from_bonding_curve(1, 0, params),
            Err(Errors::InvalidParameters)
        );
        assert_eq!(
            ExpMixedBondingSwap::calculate_burn_amount_from_bonding_curve(0, 0, params),
            Err(Errors::InvalidParameters)
        );
        assert_eq!(ExpMixedBondingSwap::price(0, params), Err(Errors::InvalidParameters));
    }
}

#[test]
fn exp_burn_refuses_more_than_the_supply() {
    let burned = ExpMixedBondingSwap::calculate_burn_amount_from_bonding_curve(11, 10, curve());
    assert_eq!(burned, Err(Errors::BurnExceedsSupply));
}

#[test]
fn exp_curve_refuses_a_supply_out_of_range() {
    let supply: u64 = 45 * 100_000;
    assert_eq!(ExpMixedBondingSwap::price(supply, curve()), Err(Errors::SupplyOutOfRange));
    assert_eq!(
        ExpMixedBondingSwap::calculate_burn_amount_from_bonding_curve(1, supply, curve()),
        Err(Errors::SupplyOutOfRange)
    );
    assert_eq!(
        ExpMixedBondingSwap::calculate_mint_amount_from_bonding_curve(1, supply, curve()),
        Err(Errors::SupplyOutOfRange)
    );
    assert!(ExpMixedBondingSwap::price(supply - 1, Parameters { a: 1, b: 100_000 }).is_err());
}

#[test]
fn exp_mint_refuses_to_leave_the_range() {
    let minted = ExpMixedBondingSwap::calculate_mint_amount_from_bonding_curve(
        u64::MAX,
        0,
        Parameters { a: 1, b: 1 },
    );
    assert_eq!(minted, Err(Errors::SupplyOutOfRange));
}

#[test]
fn exp_mint_refuses_a_supply_beyond_64_bits() {
    let minted = ExpMixedBondingSwap::calculate_mint_amount_from_bonding_curve(
        u64::MAX,
        0,
        Parameters { a: 1, b: 1 << 62 },
    );
    assert_eq!(minted, Err(Errors::Overflow));
}

#[test]
fn exp_price_refuses_a_price_beyond_64_bits() {
    let params = Parameters { a: 1, b: 100_000 };
    assert_eq!(ExpMixedBondingSwap::price(44 * 100_000, params), Ok(12_851_600_114_359_308_200));
    assert_eq!(ExpMixedBondingSwap::price(45 * 100_000 - 1, params), Err(Errors::Overflow));
}

#[test]
fn exp_burn_refuses_a_value_beyond_64_bits() {
    let params = Parameters { a: u64::MAX, b: 100_000 };
    assert_eq!(
        ExpMixedBondingSwap::calculate_burn_amount_from_bonding_curve(4_000_000, 4_000_000, params),
        Err(Errors::Overflow)
    );
}

#[test]
fn exp_price_never_falls_with_the_supply() {
    let supplies: [u64; 8] = [0, 1, 2, 99_999, 100_000, 100_001, 2_141_641, 2_800_000];
    let mut last: u64 = 0;
    for supply in supplies {
        let price = ExpMixedBondingSwap::price(supply, curve()).unwrap();
        assert!(price >= last);
        assert!(price > 0);
        last = price;
    }
}

#[test]
fn exp_round_trip_stays_within_the_cost_of_a_unit() {
    let value: u64 = 2_000_000_000_000;
    let (tokens, consumed) =
        ExpMixedBondingSwap::calculate_mint_amount_from_bonding_curve(value, 0, curve()).unwrap();
    assert_eq!(consumed, value);
    let (_, returned) =
        ExpMixedBondingSwap::calculate_burn_amount_from_bonding_curve(tokens, tokens, curve())
            .unwrap();
    let tolerance: u64 = 19_999_940;
    assert!(returned <= value + tolerance && value <= returned + tolerance);
}

#[test]
fn exp_mint_then_mint_again_from_the_new_supply() {
    let (first, _) =
        ExpMixedBondingSwap::calculate_mint_amount_from_bonding_curve(1_000_000_000, 0, curve())
            .unwrap();
    let (second, _) =
        ExpMixedBondingSwap::calculate_mint_amount_from_bonding_curve(1_000_000_000, first, curve())
            .unwrap();
    assert_eq!(first, 1_381_551);
    assert!(second < first);
    assert!(second > 0);
}
