//! A ledger of client accounts that is driven by an ordered stream of
//! transaction records: deposits, withdrawals, disputes, resolutions and
//! chargebacks.

pub mod account;
pub mod amount;
pub mod engine;
pub mod transaction;

pub use account::Account;
pub use account::Accounts;
pub use account::Action;
pub use amount::Amount;
pub use engine::Engine;
pub use transaction::Transaction;
pub use transaction::Transactions;
pub use transaction::Type;
