//! An account-based fungible token ledger with an attached native-currency
//! exchange mechanism and a delegated-transfer (allowance) model.
//!
//! The ledger is deterministic, single-threaded state-machine logic: the host
//! environment resolves the caller identity and any attached payment and hands
//! them to each operation as explicit arguments.

pub mod account;
pub mod amount;
pub mod ledger;
