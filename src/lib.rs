//! A fungible-token ledger: balances, delegated allowances, and a single
//! mint authority, with every operation proved to keep the supply equal to
//! the sum of all balances.
pub mod account;
pub mod laws;
pub mod ledger;
pub mod state;
pub mod table;

pub use account::AccountId;
pub use ledger::{Approval, A1Token, Error, Event, Transfer};
pub use state::LedgerState;
