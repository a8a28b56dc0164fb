use zenith::ids::{AccountId, Party, Payment, SymbolId};
use zenith::options_market::error::Error;
use zenith::options_market::market::OptionsMarket;
use zenith::options_market::types::{OptionSeries, OptionType, PositionSide, SeriesState};

const USDC_DECIMALS: i128 = 10_000_000; // matches PRICE_PRECISION

fn account(n: u64) -> AccountId {
    AccountId::from_words([n, 0, 0, 0, 0, 0, 0])
}

/// "XLM", packed as a symbol.
fn xlm() -> SymbolId {
    SymbolId { w0: u64::from_be_bytes([b'X', b'L', b'M', 0, 0, 0, 0, 0]), w1: 0, w2: 0, w3: 0 }
}

/// What the listed transfers change `party`'s token balance by.
fn net(payments: &[Payment], party: Party) -> i128 {
    let mut d = 0;
    for p in payments {
        if p.from == party {
            d -= p.amount;
        }
        if p.to == party {
            d += p.amount;
        }
    }
    d
}

struct Harness {
    market: OptionsMarket,
    token: AccountId,
    admin: AccountId,
    oracle: AccountId,
    fee_recipient: AccountId,
    now: u64,
}

fn setup() -> Harness {
    let admin = account(1);
    let oracle = account(2);
    let fee_recipient = account(3);
    let token = account(4);
    let mut market = OptionsMarket::new();
    market.initialize(admin, oracle, token, fee_recipient).unwrap();
    Harness { market, token, admin, oracle, fee_recipient, now: 0 }
}

fn make_series(h: &mut Harness, option_type: OptionType, strike: i128, premium: i128) -> u64 {
    let expiry = h.now + 30 * 86_400;
    h.market
        .create_series(h.now, xlm(), option_type, strike, expiry, premium, 450_000_000)
        .unwrap()
}

#[test]
fn initialize_sets_admin_and_zeroed_counters() {
    let h = setup();
    let (premiums, oi, series_count) = h.market.get_stats();
    assert_eq!(premiums, 0);
    assert_eq!(oi, 0);
    assert_eq!(series_count, 0);
    assert_eq!(h.market.get_admin(), h.admin);
    assert_eq!(h.market.get_oracle(), h.oracle);
    assert_eq!(h.market.get_collateral_token(), h.token);
    assert_eq!(h.market.get_fee_recipient(), h.fee_recipient);
}

#[test]
fn test_initialize_twice_panics() {
    let mut h = setup();
    let r = h.market.initialize(h.admin, h.oracle, h.token, h.fee_recipient);
    assert_eq!(r, Err(Error::AlreadyInitialized));
    assert_eq!(Error::AlreadyInitialized.code(), 1);
}

#[test]
fn create_series_stores_correct_fields() {
    let mut h = setup();
    let series_id = make_series(&mut h, OptionType::Call, 700_000_000, 40_000_000);
    let series: OptionSeries = h.market.get_series(series_id).unwrap();

    assert_eq!(series.series_id, series_id);
    assert_eq!(series.strike_price, 700_000_000);
    assert_eq!(series.premium, 40_000_000);
    assert_eq!(series.open_interest, 0);
    assert!(series.option_type == OptionType::Call);
    assert!(series.state == SeriesState::Active);
    assert_eq!(series.settlement_price, None);
}

#[test]
fn create_series_rejects_expiry_less_than_an_hour_out() {
    let mut h = setup();
    let too_soon = h.now + 1800; // 30 minutes
    let r = h.market.create_series(h.now, xlm(), OptionType::Call, 700_000_000, too_soon, 40_000_000, 450_000_000);
    assert_eq!(r, Err(Error::ExpiryTooSoon));
    assert_eq!(Error::ExpiryTooSoon.code(), 16);
    assert_eq!(h.market.get_stats().2, 0);
}

#[test]
fn buy_option_transfers_premium_and_opens_a_long_position() {
    let mut h = setup();
    let series_id = make_series(&mut h, OptionType::Call, 700_000_000, 40_000_000);

    let buyer = account(10);
    let minted = 1_000 * USDC_DECIMALS;

    let (pos_id, pays) = h.market.buy_option(h.now, buyer, series_id, USDC_DECIMALS, 50 * USDC_DECIMALS).unwrap();

    let position = h.market.get_position(pos_id).unwrap();
    assert!(position.side == PositionSide::Long);
    assert_eq!(position.contracts, USDC_DECIMALS);
    assert_eq!(position.collateral_locked, 0);
    // Buyer paid the full premium (40).
    assert_eq!(minted + net(&pays, Party::Account(buyer)), 1_000 * USDC_DECIMALS - 40_000_000);

    let series: OptionSeries = h.market.get_series(series_id).unwrap();
    assert_eq!(series.open_interest, USDC_DECIMALS);

    let positions = h.market.get_user_positions(buyer);
    assert_eq!(positions.len(), 1);
    assert_eq!(positions[0], pos_id);
}

#[test]
fn buy_option_rejects_zero_contracts() {
    let mut h = setup();
    let series_id = make_series(&mut h, OptionType::Call, 700_000_000, 40_000_000);
    let buyer = account(10);
    let r = h.market.buy_option(h.now, buyer, series_id, 0, 50 * USDC_DECIMALS);
    assert_eq!(r.err(), Some(Error::ZeroContracts));
    assert_eq!(Error::ZeroContracts.code(), 12);
}

#[test]
fn buy_option_enforces_slippage_protection() {
    let mut h = setup();
    let series_id = make_series(&mut h, OptionType::Call, 700_000_000, 40_000_000);
    let buyer = account(10);
    let r = h.market.buy_option(h.now, buyer, series_id, USDC_DECIMALS, 30_000_000);
    assert_eq!(r.err(), Some(Error::InsufficientPremium));
    assert_eq!(Error::InsufficientPremium.code(), 7);
    assert!(h.market.get_user_positions(buyer).is_empty());
}

#[test]
fn buy_option_rejects_unknown_series() {
    let mut h = setup();
    let buyer = account(10);
    let r = h.market.buy_option(h.now, buyer, 999, USDC_DECIMALS, 50 * USDC_DECIMALS);
    assert_eq!(r.err(), Some(Error::SeriesNotFound));
    assert_eq!(Error::SeriesNotFound.code(), 3);
}

#[test]
fn write_covered_call_locks_collateral_equal_to_notional() {
    let mut h = setup();
    // No underlying price has been set yet, so the strike is the notional basis.
    let series_id = make_series(&mut h, OptionType::Call, 700_000_000, 40_000_000);

    let writer = account(11);
    let required = 700_000_000; // 1 contract * strike (fallback price)
    let minted = required;

    let (pos_id, pays) = h.market.write_option(h.now, writer, series_id, USDC_DECIMALS, required).unwrap();
    let position = h.market.get_position(pos_id).unwrap();

    assert!(position.side == PositionSide::Short);
    assert_eq!(position.collateral_locked, required);
    let fee = 40_000_000 * 5 / 1000;
    assert_eq!(minted + net(&pays, Party::Account(writer)), 40_000_000 - fee);
}

#[test]
fn write_cash_secured_put_requires_110_percent_of_strike() {
    let mut h = setup();
    let series_id = make_series(&mut h, OptionType::Put, 700_000_000, 40_000_000);

    let writer = account(11);
    let required = 700_000_000 * 11 / 10; // strike * contracts * 110%

    let (pos_id, _) = h.market.write_option(h.now, writer, series_id, USDC_DECIMALS, required).unwrap();
    let position = h.market.get_position(pos_id).unwrap();
    assert_eq!(position.collateral_locked, required);
}

#[test]
fn write_option_rejects_undercollateralized_offer() {
    let mut h = setup();
    let series_id = make_series(&mut h, OptionType::Put, 700_000_000, 40_000_000);
    let writer = account(11);
    // Offers exactly 100% of strike for a put, which needs 110%.
    let r = h.market.write_option(h.now, writer, series_id, USDC_DECIMALS, 700_000_000);
    assert_eq!(r.err(), Some(Error::InsufficientCollateral));
    assert_eq!(Error::InsufficientCollateral.code(), 8);
}

#[test]
fn buy_pays_the_fee_to_the_fee_recipient_and_counts_net_premium() {
    let mut h = setup();
    let series_id = make_series(&mut h, OptionType::Call, 700_000_000, 40_000_000);
    let (_, pays) = h.market.buy_option(h.now, account(10), series_id, 2 * USDC_DECIMALS, 80_000_000).unwrap();
    assert_eq!(
        pays,
        vec![
            Payment { from: Party::Account(account(10)), to: Party::Contract, amount: 80_000_000 },
            Payment { from: Party::Contract, to: Party::Account(h.fee_recipient), amount: 400_000 },
        ]
    );
    let (premiums, oi, count) = h.market.get_stats();
    assert_eq!(premiums, 80_000_000 - 400_000);
    assert_eq!(oi, 2 * USDC_DECIMALS);
    assert_eq!(count, 1);
    let position = h.market.get_position(1).unwrap();
    assert_eq!(position.premium_paid, 80_000_000);
    assert_eq!(position.fee_paid, 400_000);
}

#[test]
fn a_call_settled_in_the_money_pays_the_long_and_returns_the_rest_to_the_writer() {
    let mut h = setup();
    let series_id = make_series(&mut h, OptionType::Call, 700_000_000, 40_000_000);
    let buyer = account(10);
    let writer = account(11);
    let (long_id, _) = h.market.buy_option(h.now, buyer, series_id, USDC_DECIMALS, 40_000_000).unwrap();
    let (short_id, _) = h.market.write_option(h.now, writer, series_id, USDC_DECIMALS, 700_000_000).unwrap();

    let expiry = h.market.get_series(series_id).unwrap().expiry;
    // Not expired yet.
    assert_eq!(h.market.set_settlement_price(expiry - 1, series_id, 750_000_000), Err(Error::SeriesNotExpired));
    assert_eq!(h.market.exercise(expiry - 1, buyer, long_id), Err(Error::SeriesNotExpired));
    assert_eq!(h.market.reclaim_collateral(writer, short_id).err(), Some(Error::SeriesNotExpired));
    // Expired but no price yet.
    assert_eq!(h.market.exercise(expiry, buyer, long_id), Err(Error::PriceNotSet));
    assert_eq!(Error::PriceNotSet.code(), 13);

    h.market.set_settlement_price(expiry, series_id, 750_000_000).unwrap();
    assert_eq!(h.market.get_underlying_price(xlm()), Some(750_000_000));
    assert!(h.market.get_series(series_id).unwrap().state == SeriesState::Settled);

    assert_eq!(h.market.exercise(expiry, writer, long_id), Err(Error::Unauthorized));
    assert_eq!(h.market.exercise(expiry, writer, short_id), Err(Error::WrongSide));
    let pay = h.market.exercise(expiry + 10, buyer, long_id).unwrap();
    assert_eq!(pay, Payment { from: Party::Contract, to: Party::Account(buyer), amount: 50_000_000 });
    assert_eq!(h.market.exercise(expiry + 20, buyer, long_id), Err(Error::AlreadyExercised));
    assert_eq!(Error::AlreadyExercised.code(), 9);

    let (reclaim, pays) = h.market.reclaim_collateral(writer, short_id).unwrap();
    assert_eq!(reclaim, 650_000_000);
    assert_eq!(pays, vec![Payment { from: Party::Contract, to: Party::Account(writer), amount: 650_000_000 }]);
    assert_eq!(h.market.reclaim_collateral(writer, short_id).err(), Some(Error::AlreadySettled));
    assert_eq!(h.market.reclaim_collateral(buyer, long_id).err(), Some(Error::WrongSide));
}

#[test]
fn exercise_is_refused_out_of_the_money_and_after_the_window() {
    let mut h = setup();
    let series_id = make_series(&mut h, OptionType::Put, 700_000_000, 40_000_000);
    let buyer = account(10);
    let (long_id, _) = h.market.buy_option(h.now, buyer, series_id, USDC_DECIMALS, 40_000_000).unwrap();
    let expiry = h.market.get_series(series_id).unwrap().expiry;
    h.market.set_settlement_price(expiry, series_id, 720_000_000).unwrap();
    assert_eq!(h.market.exercise(expiry, buyer, long_id), Err(Error::NotInTheMoney));
    assert_eq!(Error::NotInTheMoney.code(), 14);
    h.market.set_settlement_price(expiry, series_id, 680_000_000).unwrap();
    assert_eq!(h.market.exercise(expiry + 86_401, buyer, long_id), Err(Error::ExerciseWindowClosed));
    assert_eq!(Error::ExerciseWindowClosed.code(), 11);
    let pay = h.market.exercise(expiry + 86_400, buyer, long_id).unwrap();
    assert_eq!(pay.amount, 20_000_000);
    assert_eq!(h.market.exercise(expiry, buyer, 77), Err(Error::PositionNotFound));
    assert_eq!(Error::PositionNotFound.code(), 6);
}

#[test]
fn a_settled_underlying_price_sets_the_covered_call_collateral() {
    let mut h = setup();
    let first = make_series(&mut h, OptionType::Call, 700_000_000, 40_000_000);
    let expiry = h.market.get_series(first).unwrap().expiry;
    h.market.set_settlement_price(expiry, first, 800_000_000).unwrap();
    h.now = expiry;
    let second = make_series(&mut h, OptionType::Call, 700_000_000, 40_000_000);
    assert_eq!(second, 2);
    // The last settlement price (800), not the strike, is the notional basis now.
    assert_eq!(
        h.market.write_option(h.now, account(11), second, USDC_DECIMALS, 799_999_999).err(),
        Some(Error::InsufficientCollateral)
    );
    let (pos_id, _) = h.market.write_option(h.now, account(11), second, USDC_DECIMALS, 800_000_000).unwrap();
    assert_eq!(h.market.get_position(pos_id).unwrap().collateral_locked, 800_000_000);
}

#[test]
fn cancellation_refunds_longs_net_of_fee_and_shorts_in_full() {
    let mut h = setup();
    let series_id = make_series(&mut h, OptionType::Put, 700_000_000, 40_000_000);
    let buyer = account(10);
    let writer = account(11);
    let (long_id, _) = h.market.buy_option(h.now, buyer, series_id, USDC_DECIMALS, 40_000_000).unwrap();
    let (short_id, _) = h.market.write_option(h.now, writer, series_id, USDC_DECIMALS, 770_000_000).unwrap();

    assert_eq!(h.market.claim_refund(buyer, long_id).err(), Some(Error::SeriesNotCancelled));
    assert_eq!(Error::SeriesNotCancelled.code(), 18);
    h.market.cancel_series(series_id).unwrap();
    assert_eq!(h.market.cancel_series(series_id), Err(Error::SeriesNotActive));
    assert_eq!(h.market.claim_refund(writer, long_id).err(), Some(Error::Unauthorized));

    let (refund, pays) = h.market.claim_refund(buyer, long_id).unwrap();
    assert_eq!(refund, 40_000_000 - 200_000);
    assert_eq!(net(&pays, Party::Account(buyer)), 39_800_000);
    assert_eq!(h.market.claim_refund(buyer, long_id).err(), Some(Error::AlreadySettled));
    assert_eq!(Error::AlreadySettled.code(), 10);

    let (refund, _) = h.market.claim_refund(writer, short_id).unwrap();
    assert_eq!(refund, 770_000_000);

    // A cancelled series takes no new trades.
    assert_eq!(h.market.buy_option(h.now, buyer, series_id, USDC_DECIMALS, 40_000_000).err(), Some(Error::SeriesNotActive));
    assert_eq!(Error::SeriesNotActive.code(), 4);
}

#[test]
fn pause_blocks_new_exposure_but_not_wind_down() {
    let mut h = setup();
    let series_id = make_series(&mut h, OptionType::Call, 700_000_000, 40_000_000);
    let buyer = account(10);
    let (long_id, _) = h.market.buy_option(h.now, buyer, series_id, USDC_DECIMALS, 40_000_000).unwrap();
    h.market.pause();
    assert!(h.market.is_paused());
    assert_eq!(
        h.market.create_series(h.now, xlm(), OptionType::Call, 1, h.now + 7200, 1, 1),
        Err(Error::ContractPaused)
    );
    assert_eq!(h.market.update_premium(series_id, 1, 1), Err(Error::ContractPaused));
    assert_eq!(h.market.buy_option(h.now, buyer, series_id, 1, 1).err(), Some(Error::ContractPaused));
    assert_eq!(h.market.write_option(h.now, buyer, series_id, 1, 1).err(), Some(Error::ContractPaused));
    assert_eq!(Error::ContractPaused.code(), 17);

    let expiry = h.market.get_series(series_id).unwrap().expiry;
    h.market.set_settlement_price(expiry, series_id, 710_000_000).unwrap();
    assert_eq!(h.market.exercise(expiry, buyer, long_id).unwrap().amount, 10_000_000);
    h.market.unpause();
    assert!(!h.market.is_paused());
}

#[test]
fn update_premium_and_admin_transfer() {
    let mut h = setup();
    let series_id = make_series(&mut h, OptionType::Call, 700_000_000, 40_000_000);
    h.market.update_premium(series_id, 45_000_000, 500_000_000).unwrap();
    let s = h.market.get_series(series_id).unwrap();
    assert_eq!(s.premium, 45_000_000);
    assert_eq!(s.implied_vol, 500_000_000);
    assert_eq!(h.market.update_premium(42, 1, 1), Err(Error::SeriesNotFound));
    h.market.transfer_admin(account(9));
    assert_eq!(h.market.get_admin(), account(9));
}

#[test]
fn each_user_sees_only_their_own_positions_in_order() {
    let mut h = setup();
    let series_id = make_series(&mut h, OptionType::Call, 700_000_000, 40_000_000);
    let a = account(10);
    let b = account(11);
    let (p1, _) = h.market.buy_option(h.now, a, series_id, USDC_DECIMALS, 40_000_000).unwrap();
    let (p2, _) = h.market.buy_option(h.now, b, series_id, USDC_DECIMALS, 40_000_000).unwrap();
    let (p3, _) = h.market.write_option(h.now, a, series_id, USDC_DECIMALS, 700_000_000).unwrap();
    assert_eq!((p1, p2, p3), (1, 2, 3));
    assert_eq!(h.market.get_user_positions(a), vec![1, 3]);
    assert_eq!(h.market.get_user_positions(b), vec![2]);
    assert!(h.market.get_user_positions(account(12)).is_empty());
}

#[test]
fn market_error_numbers_follow_the_documented_table() {
    assert_eq!(Error::Unauthorized.code(), 2);
    assert_eq!(Error::SeriesNotExpired.code(), 5);
    assert_eq!(Error::WrongSide.code(), 15);
    assert_eq!(Error::InvalidFeeRate.code(), 19);
    assert_eq!(Error::TooManySeriesForUnderlying.code(), 20);
    assert_eq!(Error::InsufficientPremiumPool.code(), 21);
    assert_eq!(Error::InvalidSeriesParams.code(), 22);
    assert_eq!(Error::InvalidBatchSize.code(), 23);
    assert_eq!(Error::NothingToEscrow.code(), 24);
}

#[test]
fn an_underlying_is_capped_at_fifty_series_ever_listed() {
    let mut h = setup();
    let expiry = h.now + 30 * 86_400;
    for i in 0..50u64 {
        let id = h
            .market
            .create_series(h.now, xlm(), OptionType::Call, 700_000_000, expiry, 40_000_000, 450_000_000)
            .unwrap();
        assert_eq!(id, i + 1);
    }
    // Cancelling one frees no room: the cap counts every series ever listed.
    h.market.cancel_series(1).unwrap();
    let r = h.market.create_series(h.now, xlm(), OptionType::Put, 700_000_000, expiry, 40_000_000, 450_000_000);
    assert_eq!(r, Err(Error::TooManySeriesForUnderlying));
    assert_eq!(Error::TooManySeriesForUnderlying.code(), 20);
    assert_eq!(h.market.get_stats().2, 50);

    // Another underlying still has room.
    let btc = SymbolId { w0: u64::from_be_bytes([b'B', b'T', b'C', 0, 0, 0, 0, 0]), w1: 0, w2: 0, w3: 0 };
    let id = h
        .market
        .create_series(h.now, btc, OptionType::Call, 700_000_000, expiry, 40_000_000, 450_000_000)
        .unwrap();
    assert_eq!(id, 51);
}

#[test]
fn total_open_interest_is_the_sum_over_series() {
    let mut h = setup();
    let call = make_series(&mut h, OptionType::Call, 700_000_000, 40_000_000);
    let put = make_series(&mut h, OptionType::Put, 700_000_000, 40_000_000);
    h.market.buy_option(h.now, account(10), call, 2 * USDC_DECIMALS, 1_000 * USDC_DECIMALS).unwrap();
    h.market.write_option(h.now, account(11), call, USDC_DECIMALS, 700_000_000).unwrap();
    h.market.write_option(h.now, account(12), put, 3 * USDC_DECIMALS, 3 * 770_000_000).unwrap();

    let (_, oi, series_count) = h.market.get_stats();
    let sum = h.market.get_series(call).unwrap().open_interest + h.market.get_series(put).unwrap().open_interest;
    assert_eq!(oi, sum);
    assert_eq!(oi, 6 * USDC_DECIMALS);
    assert_eq!(series_count, 2);
}
