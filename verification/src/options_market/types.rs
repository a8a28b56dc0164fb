use vstd::prelude::*;
use crate::ids::{AccountId, SymbolId};

verus! {

/// Whether an option gives the right to buy or to sell at the strike.
#[derive(Clone, Copy, Debug, PartialEq, Eq, Structural)]
pub enum OptionType {
    /// Right to buy at the strike.
    Call,
    /// Right to sell at the strike.
    Put,
}

/// Where a series stands in its life.
#[derive(Clone, Copy, Debug, PartialEq, Eq, Structural)]
pub enum SeriesState {
    /// Accepting trades.
    Active,
    /// Past expiry, awaiting settlement.
    Expired,
    /// Final settlement price set.
    Settled,
    /// Cancelled by the admin.
    Cancelled,
}

/// Which side of a series a position is on.
#[derive(Clone, Copy, Debug, PartialEq, Eq, Structural)]
pub enum PositionSide {
    /// Bought the option (paid premium).
    Long,
    /// Wrote the option (received premium, locked collateral).
    Short,
}

/// One option series: one expiry, one strike, one type, one underlying.
#[derive(Clone, Copy, Debug, PartialEq, Eq, Structural)]
pub struct OptionSeries {
    pub series_id: u64,
    pub underlying: SymbolId,
    pub option_type: OptionType,
    /// At `PRICE_PRECISION` scale.
    pub strike_price: i128,
    /// Unix timestamp.
    pub expiry: u64,
    /// Premium per contract (1 contract = 1 unit of underlying), at `PRICE_PRECISION` scale.
    pub premium: i128,
    /// Implied volatility used to price, at `RATE_PRECISION` scale.
    pub implied_vol: i128,
    /// Total contracts outstanding.
    pub open_interest: i128,
    pub state: SeriesState,
    pub settlement_price: Option<i128>,
    pub created_at: u64,
}

/// One account's position in a series.
#[derive(Clone, Copy, Debug, PartialEq, Eq, Structural)]
pub struct OptionPosition {
    pub position_id: u64,
    pub series_id: u64,
    pub owner: AccountId,
    pub side: PositionSide,
    /// At `PRICE_PRECISION` scale (1.0 = 10_000_000).
    pub contracts: i128,
    /// Premium paid (gross, fee included, for longs) or received (net of fee, for shorts).
    pub premium_paid: i128,
    /// Protocol fee deducted at open time (longs only; zero for shorts).
    pub fee_paid: i128,
    /// Collateral locked (shorts only).
    pub collateral_locked: i128,
    pub is_exercised: bool,
    pub is_settled: bool,
    pub opened_at: u64,
}

} // verus!
