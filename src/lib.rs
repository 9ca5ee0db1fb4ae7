//! Business and stock-market arithmetic: least-squares regression, business
//! models, ownership shares and stock time series.
pub mod business_modelling;
pub mod business_organization;
pub mod decimal;
pub mod error;
pub mod linreg;
pub mod stock_market;
pub mod stock_portfolio;
