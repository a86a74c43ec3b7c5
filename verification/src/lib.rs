//! An escrow-based token swap: a maker locks a quantity of one asset in a
//! program-controlled vault and records an offer naming the asset and amount
//! wanted in exchange; a taker later fulfills the offer atomically, paying the
//! maker and receiving the locked asset, after which the vault and the offer
//! record are destroyed together.
//!
//! The ledger of token accounts, offer records and vaults is modelled
//! explicitly, and the two lifecycle transitions `make_offer` and `take_offer`
//! are verified: each either completes in full or returns an error with the
//! ledger unchanged, conserves the total supply of every asset, and preserves
//! the coupling of each offer record with its funded vault.

pub mod error;
pub mod state;
pub mod transfer;
pub mod ledger;
pub mod lifecycle;
