//! European-style put/call options: the admin lists series, buyers pay
//! premium for long positions, writers lock collateral for short ones, and
//! settlement happens at expiry against an oracle-reported price.

pub mod error;
pub mod market;
pub mod math;
pub mod types;
