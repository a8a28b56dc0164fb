use vstd::prelude::*;
use crate::options_market::types::OptionType;

verus! {

/// Fixed-point scale of prices, premiums and contract amounts (1e7).
pub const PRICE_PRECISION: i128 = 10_000_000;

/// Fixed-point scale of rates such as implied volatility (1e9).
pub const RATE_PRECISION: i128 = 1_000_000_000;

/// 110% over-collateralization for puts, at `RATE_PRECISION` scale.
pub const MIN_COLLATERAL_RATIO: i128 = 1_100_000_000;

/// Seconds after expiry during which a long position may be exercised (24h).
pub const SETTLEMENT_WINDOW: u64 = 86_400;

/// The protocol fee rate, in basis points (0.5%).
pub const DEFAULT_FEE_RATE_BPS: i128 = 50;

/// The highest fee rate the protocol allows, in basis points (10%).
pub const MAX_FEE_RATE_BPS: i128 = 1_000;

/// The most series that may ever be listed for one underlying symbol.
pub const MAX_SERIES_PER_UNDERLYING: u32 = 50;

/// Integer division rounding toward zero, as machine division does (`d > 0`).
pub open spec fn tdiv(x: int, d: int) -> int {
    if x >= 0 {
        x / d
    } else {
        -((-x) / d)
    }
}

/// The fee on `amount` at `bps` basis points, truncated toward zero.
pub open spec fn fee_of(amount: int, bps: int) -> int {
    tdiv(amount * bps, 10_000)
}

/// The hard-coded 0.5% protocol fee: `amount * 5 / 1000`, truncated toward zero.
pub open spec fn protocol_fee_of(amount: int) -> int {
    tdiv(amount * 5, 1000)
}

/// What one unit of the option is worth at `settlement`: the amount by
/// which it is in the money, or zero.
pub open spec fn intrinsic_value(option_type: OptionType, strike: int, settlement: int) -> int {
    match option_type {
        OptionType::Call => if settlement - strike > 0 { settlement - strike } else { 0 },
        OptionType::Put => if strike - settlement > 0 { strike - settlement } else { 0 },
    }
}

/// The cash payout of `contracts` (at `PRICE_PRECISION` scale) at settlement.
pub open spec fn payout_of(option_type: OptionType, strike: int, settlement: int, contracts: int) -> int {
    tdiv(contracts * intrinsic_value(option_type, strike, settlement), PRICE_PRECISION as int)
}

/// The inputs on which `calc_payout` stays within machine integers.
pub open spec fn payout_fits(option_type: OptionType, strike: int, settlement: int, contracts: int) -> bool {
    &&& match option_type {
        OptionType::Call => i128::MIN <= settlement - strike <= i128::MAX,
        OptionType::Put => i128::MIN <= strike - settlement <= i128::MAX,
    }
    &&& i128::MIN <= contracts * intrinsic_value(option_type, strike, settlement) <= i128::MAX
}

/// `x / d` rounded toward zero, for a product `x` already computed.
pub(crate) fn div_toward_zero(x: i128, d: i128) -> (r: i128)
    requires
        d > 0,
    ensures
        r == tdiv(x as int, d as int),
{
    match x.checked_div(d) {
        Some(q) => q,
        None => 0,
    }
}

/// Protocol fee on an amount, given a rate in basis points (1 bps = 0.01%).
pub fn calc_fee(amount: i128, fee_rate_bps: i128) -> (r: i128)
    requires
        i128::MIN <= amount * fee_rate_bps <= i128::MAX,
    ensures
        r == fee_of(amount as int, fee_rate_bps as int),
{
    match amount.checked_mul(fee_rate_bps) {
        Some(p) => div_toward_zero(p, 10_000),
        None => 0,
    }
}

/// The 0.5% fee the market takes on a premium: `amount * 5 / 1000`.
pub fn protocol_fee(amount: i128) -> (r: i128)
    requires
        i128::MIN <= amount * 5 <= i128::MAX,
    ensures
        r == protocol_fee_of(amount as int),
{
    match amount.checked_mul(5) {
        Some(p) => div_toward_zero(p, 1000),
        None => 0,
    }
}

/// Cash payout at settlement:
/// call: max(0, settlement - strike) × contracts / PRICE_PRECISION;
/// put: max(0, strike - settlement) × contracts / PRICE_PRECISION.
pub fn calc_payout(option_type: &OptionType, strike: i128, settlement: i128, contracts: i128) -> (r: i128)
    requires
        payout_fits(*option_type, strike as int, settlement as int, contracts as int),
    ensures
        r == payout_of(*option_type, strike as int, settlement as int, contracts as int),
{
    let intrinsic: i128 = match option_type {
        OptionType::Call => {
            let d = settlement - strike;
            if d > 0 { d } else { 0 }
        },
        OptionType::Put => {
            let d = strike - settlement;
            if d > 0 { d } else { 0 }
        },
    };
    match contracts.checked_mul(intrinsic) {
        Some(p) => div_toward_zero(p, PRICE_PRECISION),
        None => 0,
    }
}

/// The hard-coded 0.5% protocol fee is exactly `calc_fee` at the default
/// rate of 50 basis points.
pub proof fn lemma_protocol_fee_is_default_rate(amount: int)
    ensures
        protocol_fee_of(amount) == fee_of(amount, DEFAULT_FEE_RATE_BPS as int),
{
    let a = if amount >= 0 { amount } else { -amount };
    vstd::arithmetic::div_mod::lemma_div_multiples_vanish_quotient(50, a, 200);
    vstd::arithmetic::div_mod::lemma_div_multiples_vanish_quotient(5, a, 200);
    assert(50 * a == a * 50 && 5 * a == a * 5) by (nonlinear_arith);
    if amount < 0 {
        assert(-(amount * 50) == a * 50 && -(amount * 5) == a * 5) by (nonlinear_arith)
            requires
                a == -amount,
        ;
    }
}

/// No fee is charged at a zero rate, and a fee is never larger in size than
/// the amount it is charged on when the rate is at most 100%.
pub proof fn lemma_fee_bounds(amount: int, bps: int)
    requires
        0 <= bps <= 10_000,
        amount >= 0,
    ensures
        bps == 0 ==> fee_of(amount, bps) == 0,
        0 <= fee_of(amount, bps) <= amount,
{
    assert(0 <= amount * bps <= amount * 10_000) by (nonlinear_arith)
        requires
            0 <= bps <= 10_000,
            amount >= 0,
    ;
    vstd::arithmetic::div_mod::lemma_div_by_multiple(amount, 10_000);
    vstd::arithmetic::div_mod::lemma_div_is_ordered(amount * bps, amount * 10_000, 10_000);
    vstd::arithmetic::div_mod::lemma_div_pos_is_pos(amount * bps, 10_000);
}

/// The intrinsic value is never negative; an option at or out of the money
/// pays nothing, and no payout is negative for a non-negative position.
pub proof fn lemma_payout_sign(option_type: OptionType, strike: int, settlement: int, contracts: int)
    requires
        contracts >= 0,
    ensures
        intrinsic_value(option_type, strike, settlement) >= 0,
        payout_of(option_type, strike, settlement, contracts) >= 0,
        option_type == OptionType::Call && settlement <= strike ==> payout_of(
            option_type,
            strike,
            settlement,
            contracts,
        ) == 0,
        option_type == OptionType::Put && settlement >= strike ==> payout_of(
            option_type,
            strike,
            settlement,
            contracts,
        ) == 0,
{
    let v = intrinsic_value(option_type, strike, settlement);
    assert(contracts * v >= 0) by (nonlinear_arith)
        requires
            contracts >= 0,
            v >= 0,
    ;
    vstd::arithmetic::div_mod::lemma_div_pos_is_pos(contracts * v, PRICE_PRECISION as int);
}

/// For a whole number `n` of contracts the payout is exactly `n` times the
/// intrinsic value, so payouts scale linearly in whole contracts.
pub proof fn lemma_whole_contracts_payout(option_type: OptionType, strike: int, settlement: int, n: int)
    ensures
        payout_of(option_type, strike, settlement, n * PRICE_PRECISION) == n * intrinsic_value(
            option_type,
            strike,
            settlement,
        ),
{
    let v = intrinsic_value(option_type, strike, settlement);
    let p = PRICE_PRECISION as int;
    let m = n * v;
    assert((n * p) * v == p * m) by (nonlinear_arith)
        requires
            m == n * v,
    ;
    if m >= 0 {
        vstd::arithmetic::div_mod::lemma_div_multiples_vanish(m, p);
    } else {
        assert(-(p * m) == p * (-m)) by (nonlinear_arith);
        vstd::arithmetic::div_mod::lemma_div_multiples_vanish(-m, p);
    }
}

/// Put-call parity at expiry: for whole contracts, a call's payout minus the
/// matching put's payout is the settlement's distance above the strike.
pub proof fn lemma_put_call_parity(strike: int, settlement: int, n: int)
    ensures
        payout_of(OptionType::Call, strike, settlement, n * PRICE_PRECISION) - payout_of(
            OptionType::Put,
            strike,
            settlement,
            n * PRICE_PRECISION,
        ) == n * (settlement - strike),
{
    lemma_whole_contracts_payout(OptionType::Call, strike, settlement, n);
    lemma_whole_contracts_payout(OptionType::Put, strike, settlement, n);
    let c = intrinsic_value(OptionType::Call, strike, settlement);
    let q = intrinsic_value(OptionType::Put, strike, settlement);
    assert(c - q == settlement - strike);
    assert(n * c - n * q == n * (c - q)) by (nonlinear_arith);
}

} // verus!
