//! Payroll escrow: per-employer token allow-lists, a balance ledger, an
//! employee registry and interval-gated recurring payments.
pub mod word;
pub mod types;
pub mod jar;
pub mod laws;
mod store;

pub use jar::GainJar;
pub use types::{
    Account, EmployeeAdded, EmployeeRecord, FundsDeposited, GainJarErrors, PaymentExecuted,
};
pub use word::Uint256;
