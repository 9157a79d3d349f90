//! A payments engine: deposits, withdrawals, disputes, resolves and
//! chargebacks over client accounts, with exact decimal amounts.
pub mod decimal;
pub mod engine;
pub mod laws;
pub mod text;
pub mod types;
