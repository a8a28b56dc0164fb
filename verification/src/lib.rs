//! Verified core of the Zenith contracts: an M-of-N approval tracker, a
//! per-tag escrow ledger, a price-feed registry and a European options
//! market, each written as a state machine over plain values.

pub mod ids;
pub mod multisig;
pub mod vault;
pub mod options_market;
pub mod price_oracle;
