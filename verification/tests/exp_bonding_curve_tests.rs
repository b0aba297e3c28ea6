use burve_solana_contract::calculations::{BondingCurve, ExpMixedBondingSwap};
use burve_solana_contract::Parameters;
use rand::Rng;

fn setup() -> (u64, u64, u64, Parameters) {
    let supply: u64 = 10_000_000 * 1_000_000_000;
    let px: u64 = 1_000 * 1_000;
    let tvl: u64 = 2_000 * 1_000_000_000;

    let a: u64 = 10_000_000;
    let b: u64 = (1_000 * 1_000_000_000 / a as u128) as u64;
    let parameters = Parameters { a, b };

    (supply, px, tvl, parameters)
}

#[test]
fn test_calculation() {
    let (_supply, _px, tvl, parameters) = setup();
    let native_asset: u64 = tvl.clone();

    let (token_amount1, raising_token_amount1) =
        ExpMixedBondingSwap::calculate_mint_amount_from_bonding_curve(
            native_asset.clone(),
            0,
            parameters.clone(),
        )
        .unwrap();
    let (_token_amount2, _raising_token_amount2) =
        ExpMixedBondingSwap::calculate_burn_amount_from_bonding_curve(
            token_amount1.clone(),
            token_amount1.clone(),
            parameters.clone(),
        )
        .unwrap();
    let price = ExpMixedBondingSwap::price(token_amount1.clone(), parameters.clone()).unwrap();

    assert_eq!(raising_token_amount1, native_asset);
    assert!(token_amount1 > 0);
    assert!(price > 0);
}

#[test]
fn test_estimate_mint_burn() {
    let (_supply, _px, _tvl, parameters) = setup();
    let user1: u64 = 1_000_000_000u64;

    let (received_amount, _raising_token_amount) =
        ExpMixedBondingSwap::calculate_mint_amount_from_bonding_curve(
            user1,
            0,
            parameters.clone(),
        )
        .unwrap();
    assert!(received_amount > 0);

    let erc20_balance: u64 = received_amount.clone();
    let (_, amount_return) = ExpMixedBondingSwap::calculate_burn_amount_from_bonding_curve(
        erc20_balance.clone(),
        erc20_balance.clone(),
        parameters.clone(),
    )
    .unwrap();
    assert!(amount_return > 0);
}

#[test]
fn test_multi_mint() {
    let (_supply, _px, _tvl, parameters) = setup();
    let user1: u64 = 1_000_000_000u64;
    let round: u32 = 100;

    for _ in 0..round {
        let (minted_amount, _raising_token_amount) =
            ExpMixedBondingSwap::calculate_mint_amount_from_bonding_curve(
                user1,
                0,
                parameters.clone(),
            )
            .unwrap();
        assert!(minted_amount > 0);
    }
}

#[test]
fn test_multi_burn() {
    let (_supply, _px, _tvl, parameters) = setup();
    let user1: u64 = 5_000_000_000u64;
    let round: u32 = 100;

    let (initial_minted_amount, _raising_token_amount) =
        ExpMixedBondingSwap::calculate_mint_amount_from_bonding_curve(
            user1,
            0,
            parameters.clone(),
        )
        .unwrap();
    assert!(initial_minted_amount > 0);

    for _ in 0..round {
        let (minted_amount, _raising_token_amount) =
            ExpMixedBondingSwap::calculate_mint_amount_from_bonding_curve(
                1_000_000_000u64,
                0,
                parameters.clone(),
            )
            .unwrap();
        assert!(minted_amount > 0);

        let (_, amount_return) = ExpMixedBondingSwap::calculate_burn_amount_from_bonding_curve(
            initial_minted_amount,
            initial_minted_amount,
            parameters.clone(),
        )
        .unwrap();
        assert!(amount_return > 0);
    }
}

#[test]
fn test_random_mint_and_burn() {
    let (_supply, _px, _tvl, parameters) = setup();
    let round: u32 = 100;

    for _ in 0..round {
        let mut rng = rand::thread_rng();
        let amount1: u64 = rng.gen_range(1..=49) * 100_000_000_000_000_000u64;
        let amount2: u64 = rng.gen_range(1..=999) * 100_000_000_000_000_000u64;
        let amount3: u64 = rng.gen_range(100..=999) * 100_000_000_000_000_000u64;

        let (minted_amount1, _raising_token_amount1) =
            ExpMixedBondingSwap::calculate_mint_amount_from_bonding_curve(
                amount1,
                0,
                parameters.clone(),
            )
            .unwrap();
        assert!(minted_amount1 > 0);

        let (minted_amount2, _raising_token_amount2) =
            ExpMixedBondingSwap::calculate_mint_amount_from_bonding_curve(
                amount2,
                0,
                parameters.clone(),
            )
            .unwrap();
        assert!(minted_amount2 > 0);

        let (_, burn_amount_return) =
            ExpMixedBondingSwap::calculate_burn_amount_from_bonding_curve(
                minted_amount2,
                minted_amount2,
                parameters.clone(),
            )
            .unwrap();
        assert!(burn_amount_return > 0);

        let (minted_amount3, _raising_token_amount3) =
            ExpMixedBondingSwap::calculate_mint_amount_from_bonding_curve(
                amount3,
                0,
                parameters.clone(),
            )
            .unwrap();
        assert!(minted_amount3 > 0);

        if rng.gen_bool(0.2) {
            let (_, burn_amount_return) =
                ExpMixedBondingSwap::calculate_burn_amount_from_bonding_curve(
                    minted_amount3,
                    minted_amount3,
                    parameters.clone(),
                )
                .unwrap();
            assert!(burn_amount_return > 0);
        }
    }
}

#[test]
fn test_fuzz() {
    let (_supply, _px, _tvl, parameters) = setup();
    let amount: u64 = 979_999_999_999_999_107u64;
    assert!(amount > 0);

    let (minted_amount, _raising_token_amount) =
        ExpMixedBondingSwap::calculate_mint_amount_from_bonding_curve(
            amount,
            0,
            parameters.clone(),
        )
        .unwrap();
    assert!(minted_amount > 0);

    let (_, burn_amount_return) = ExpMixedBondingSwap::calculate_burn_amount_from_bonding_curve(
        minted_amount,
        minted_amount,
        parameters.clone(),
    )
    .unwrap();
    assert!(burn_amount_return > 0);
}
