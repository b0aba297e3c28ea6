use burve_solana_contract::calculations::math::{
    e, exp_fixed_wide, exp_series_wide, exp_whole_wide, ln, FIXED_E, FIXED_ONE, PRECISION,
};
use num_bigint::BigUint;

fn big(digits: &str) -> BigUint {
    BigUint::parse_bytes(digits.as_bytes(), 10).unwrap()
}

#[test]
fn e_is_scaled_to_the_precision() {
    assert_eq!(e(), BigUint::from(2_718_281_828_459_045_235u64));
    assert_eq!(e(), BigUint::from(FIXED_E));
    assert_eq!(BigUint::from(FIXED_ONE), BigUint::from(10u32).pow(PRECISION as u32));
}

#[test]
fn ln_counts_divisions_by_e() {
    assert_eq!(ln(BigUint::from(0u32)), BigUint::from(0u32));
    assert_eq!(ln(BigUint::from(1u32)), BigUint::from(0u32));
    assert_eq!(ln(BigUint::from(2u32)), BigUint::from(1u32));
    assert_eq!(ln(e()), BigUint::from(1u32));
    assert_eq!(ln(e() * 2u32 - 1u32), BigUint::from(1u32));
    assert_eq!(ln(e() * 2u32), BigUint::from(2u32));
    assert_eq!(ln(big("10000000000000000000000000000000000000000")), BigUint::from(3u32));
}

#[test]
fn series_at_zero_is_one_and_at_one_is_e() {
    assert_eq!(exp_series_wide(0, 7), BigUint::from(FIXED_ONE));
    assert_eq!(exp_series_wide(1, 1), e());
    assert_eq!(exp_series_wide(12, 12), e());
    assert_eq!(exp_series_wide(1, 3), BigUint::from(1_395_612_425_086_089_528u64));
}

#[test]
fn whole_powers_multiply_by_e() {
    assert_eq!(exp_whole_wide(0), BigUint::from(FIXED_ONE));
    assert_eq!(exp_whole_wide(1), e());
    assert_eq!(exp_whole_wide(3), big("20085536923187667732"));
    assert_eq!(exp_whole_wide(45), big("34934271057485095137515949026807533863"));
}

#[test]
fn exponential_of_a_fraction() {
    assert_eq!(exp_fixed_wide(0, 5), BigUint::from(FIXED_ONE));
    assert_eq!(exp_fixed_wide(1, 2), BigUint::from(1_648_721_270_700_128_146u64));
    assert_eq!(exp_fixed_wide(5, 2), BigUint::from(12_182_493_960_703_473_428u64));
    assert_eq!(exp_fixed_wide(10, 4), exp_fixed_wide(5, 2));
}

#[test]
fn exponential_never_falls() {
    let mut last = BigUint::from(0u32);
    for n in 0u128..400 {
        let value = exp_fixed_wide(n, 97);
        assert!(value >= last);
        last = value;
    }
}
