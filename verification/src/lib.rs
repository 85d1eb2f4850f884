//! A prediction market as a state machine: markets over outcomes that exclude each other are
//! opened, their outcomes are bought for ever higher prices, the clock closes them, an oracle
//! names the outcome that came true, and whoever holds that outcome is paid what was staked.
//!
//! `pallet` holds the engine and its calls, `model` says in mathematics what each call does to
//! the state of `state`, and `laws` holds what follows for every run of calls. The collateral
//! is kept by a ledger outside the engine: a call hands back what the ledger is to do, and
//! `ledger` says what that means for the balances.

pub mod account;
pub mod bounded;
pub mod history;
pub mod laws;
pub mod ledger;
pub mod model;
pub mod pallet;
pub mod pricing;
pub mod state;
pub mod types;
pub mod weight;
