use burve_solana_contract::instructions::{
    factory_create_project_with_sol, factory_create_project_with_spl, factory_set_project_admin,
    factory_set_project_tax, factory_set_project_treasury, initialize, set_burve_admin,
    set_burve_tax, set_burve_treasury, BondingCurveType, CreateProjectArgs, InitializeArgs,
    SetBurveTaxArgs, SetProjectTaxArgs,
};
use burve_solana_contract::{Errors, Pubkey};

fn key(byte: u8) -> Pubkey {
    Pubkey { bytes: [byte; 32] }
}

fn project_args(mint_tax: u16, burn_tax: u16) -> CreateProjectArgs {
    CreateProjectArgs {
        name: String::from("Token"),
        symbol: String::from("TKN"),
        uri: String::from("https://example.org/tkn"),
        admin: key(1),
        treasury: key(2),
        mint_tax,
        burn_tax,
        bonding_curve_type: BondingCurveType::Linear { a: 2, b: 3 },
    }
}

#[test]
fn platform_starts_with_both_taxes_at_one_percent() {
    let base = initialize(InitializeArgs { admin: key(1), treasury: key(2) });
    assert_eq!(base.admin, key(1));
    assert_eq!(base.treasury, key(2));
    assert_eq!(base.mint_tax, 100);
    assert_eq!(base.burn_tax, 100);
}

#[test]
fn platform_admin_and_treasury_can_be_replaced() {
    let mut base = initialize(InitializeArgs { admin: key(1), treasury: key(2) });
    set_burve_admin(&mut base, key(3));
    set_burve_treasury(&mut base, key(4));
    assert_eq!(base.admin, key(3));
    assert_eq!(base.treasury, key(4));
    assert_eq!((base.mint_tax, base.burn_tax), (100, 100));
}

#[test]
fn platform_tax_is_bounded_by_one_percent() {
    let mut base = initialize(InitializeArgs { admin: key(1), treasury: key(2) });
    assert_eq!(set_burve_tax(&mut base, SetBurveTaxArgs { new_mint_tax: 30, new_burn_tax: 100 }), Ok(()));
    assert_eq!((base.mint_tax, base.burn_tax), (30, 100));
    assert_eq!(
        set_burve_tax(&mut base, SetBurveTaxArgs { new_mint_tax: 101, new_burn_tax: 0 }),
        Err(Errors::TaxRateNotValid)
    );
    assert_eq!(
        set_burve_tax(&mut base, SetBurveTaxArgs { new_mint_tax: 0, new_burn_tax: 101 }),
        Err(Errors::TaxRateNotValid)
    );
    assert_eq!((base.mint_tax, base.burn_tax), (30, 100));
}

#[test]
fn project_paid_in_a_token_takes_the_treasury_account() {
    let metadata = factory_create_project_with_spl(project_args(5000, 0), key(8), key(9)).unwrap();
    assert_eq!(metadata.admin, key(1));
    assert_eq!(metadata.treasury, key(8));
    assert_eq!(metadata.symbol, "TKN");
    assert_eq!((metadata.mint_tax, metadata.burn_tax), (5000, 0));
    assert_eq!(metadata.raising_token, Some(key(9)));
    assert_eq!(metadata.bonding_curve_type, BondingCurveType::Linear { a: 2, b: 3 });
    assert_eq!(metadata.burve_tax_counter, 0);
}

#[test]
fn project_paid_in_the_native_coin_takes_the_treasury_of_its_arguments() {
    let metadata = factory_create_project_with_sol(project_args(1, 2)).unwrap();
    assert_eq!(metadata.treasury, key(2));
    assert_eq!(metadata.raising_token, None);
    assert_eq!(metadata.symbol, "TKN");
    assert_eq!(metadata.burve_tax_counter, 0);
}

#[test]
fn project_tax_is_bounded_by_fifty_percent() {
    assert_eq!(
        factory_create_project_with_spl(project_args(5001, 0), key(8), key(9)).err(),
        Some(Errors::TaxRateNotValid)
    );
    assert_eq!(
        factory_create_project_with_sol(project_args(0, 5001)).err(),
        Some(Errors::TaxRateNotValid)
    );
    let mut metadata = factory_create_project_with_sol(project_args(1, 2)).unwrap();
    assert_eq!(
        factory_set_project_tax(
            &mut metadata,
            SetProjectTaxArgs { new_mint_tax: 5001, new_burn_tax: 0 }
        ),
        Err(Errors::TaxRateNotValid)
    );
    assert_eq!((metadata.mint_tax, metadata.burn_tax), (1, 2));
    assert_eq!(
        factory_set_project_tax(
            &mut metadata,
            SetProjectTaxArgs { new_mint_tax: 5000, new_burn_tax: 40 }
        ),
        Ok(())
    );
    assert_eq!((metadata.mint_tax, metadata.burn_tax), (5000, 40));
}

#[test]
fn project_admin_and_treasury_can_be_replaced() {
    let mut metadata = factory_create_project_with_sol(project_args(1, 2)).unwrap();
    factory_set_project_admin(&mut metadata, key(5));
    factory_set_project_treasury(&mut metadata, key(6));
    assert_eq!(metadata.admin, key(5));
    assert_eq!(metadata.treasury, key(6));
    assert_eq!(metadata.symbol, "TKN");
}
