//! What the program's instructions decide: the state of the platform and of
//! a project, and how a payment or a redemption is split.

pub mod burve;
pub mod route;
pub mod token_factory;

pub use burve::{
    initialize, set_burve_admin, set_burve_tax, set_burve_treasury, BurveBase, InitializeArgs,
    SetBurveTaxArgs, MAX_PLATFORM_TAX_RATE,
};
pub use route::{
    estimate_burn_amount_from_bonding_curve, estimate_mint_amount_from_bonding_curve,
    route_burn_token, route_claim_burve_tax, route_mint_token, BurnSettlement,
    EstimateBurnResult, EstimateMintResult, MintSettlement,
};
pub use token_factory::{
    factory_create_project_with_sol, factory_create_project_with_spl, factory_set_project_admin,
    factory_set_project_tax, factory_set_project_treasury, BondingCurveType, CreateProjectArgs,
    ProjectMetadata, SetProjectTaxArgs, MAX_PROJECT_TAX_RATE,
};
