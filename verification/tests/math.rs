use zenith::options_market::math::{calc_fee, calc_payout, protocol_fee, DEFAULT_FEE_RATE_BPS, PRICE_PRECISION};
use zenith::options_market::types::OptionType;

#[test]
fn calc_fee_computes_bps_of_amount() {
    assert_eq!(calc_fee(40_000_000, 50), 200_000); // 0.5% of 40M
    assert_eq!(calc_fee(40_000_000, 100), 400_000); // 1% of 40M
}

#[test]
fn calc_fee_of_zero_bps_is_zero() {
    assert_eq!(calc_fee(40_000_000, 0), 0);
}

#[test]
fn calc_fee_truncates_towards_zero_on_a_non_exact_division() {
    // 999 * 50 / 10_000 = 4.995, truncated to 4.
    assert_eq!(calc_fee(999, 50), 4);
}

#[test]
fn calc_payout_call_is_zero_at_the_money() {
    assert_eq!(calc_payout(&OptionType::Call, 700_000_000, 700_000_000, PRICE_PRECISION), 0);
}

#[test]
fn calc_payout_call_is_zero_out_of_the_money() {
    assert_eq!(calc_payout(&OptionType::Call, 700_000_000, 650_000_000, PRICE_PRECISION), 0);
}

#[test]
fn calc_payout_call_pays_the_intrinsic_value_in_the_money() {
    // Strike 700, settlement 750 -> 50 of intrinsic value, 1 contract.
    assert_eq!(calc_payout(&OptionType::Call, 700_000_000, 750_000_000, PRICE_PRECISION), 50_000_000);
}

#[test]
fn calc_payout_put_is_zero_out_of_the_money() {
    assert_eq!(calc_payout(&OptionType::Put, 700_000_000, 750_000_000, PRICE_PRECISION), 0);
}

#[test]
fn calc_payout_put_pays_the_intrinsic_value_in_the_money() {
    // Strike 700, settlement 650 -> 50 of intrinsic value, 1 contract.
    assert_eq!(calc_payout(&OptionType::Put, 700_000_000, 650_000_000, PRICE_PRECISION), 50_000_000);
}

#[test]
fn calc_payout_scales_linearly_with_contracts() {
    let one_contract = calc_payout(&OptionType::Call, 700_000_000, 750_000_000, PRICE_PRECISION);
    let three_contracts = calc_payout(&OptionType::Call, 700_000_000, 750_000_000, 3 * PRICE_PRECISION);
    assert_eq!(three_contracts, one_contract * 3);
}

#[test]
fn calc_payout_truncates_fractional_contracts_toward_zero() {
    // Half a contract, 3 of intrinsic value: 1.5, at 1e7 scale exactly 15_000_000.
    assert_eq!(calc_payout(&OptionType::Call, 10_000_000, 40_000_000, 5_000_000), 15_000_000);
    // One unit of a contract on 1 unit of intrinsic value rounds to 0.
    assert_eq!(calc_payout(&OptionType::Put, 20, 19, 1), 0);
    // A negative position truncates toward zero too: -1.5e7 * 3 / 1e7 = -4.5 -> -4.
    assert_eq!(calc_payout(&OptionType::Call, 0, 3, -15_000_000), -4);
}

#[test]
fn put_call_parity_for_whole_contracts() {
    let n = 4;
    let call = calc_payout(&OptionType::Call, 700_000_000, 730_000_000, n * PRICE_PRECISION);
    let put = calc_payout(&OptionType::Put, 700_000_000, 730_000_000, n * PRICE_PRECISION);
    assert_eq!(call - put, n * 30_000_000);
    let call = calc_payout(&OptionType::Call, 700_000_000, 610_000_000, n * PRICE_PRECISION);
    let put = calc_payout(&OptionType::Put, 700_000_000, 610_000_000, n * PRICE_PRECISION);
    assert_eq!(call - put, n * -90_000_000);
}

#[test]
fn protocol_fee_matches_the_default_rate() {
    for amount in [0i128, 1, 199, 200, 999, 40_000_000, -999, -40_000_001] {
        assert_eq!(protocol_fee(amount), calc_fee(amount, DEFAULT_FEE_RATE_BPS));
    }
    assert_eq!(protocol_fee(40_000_000), 200_000);
    assert_eq!(protocol_fee(-999), -4);
}
