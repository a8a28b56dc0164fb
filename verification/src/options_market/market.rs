use vstd::prelude::*;
use crate::ids::{AccountId, Party, Payment, SymbolId};
use crate::options_market::error::Error;
use crate::options_market::math::{
    calc_payout, div_toward_zero, intrinsic_value, payout_fits, payout_of, protocol_fee, protocol_fee_of, tdiv,
    MAX_SERIES_PER_UNDERLYING, MIN_COLLATERAL_RATIO, PRICE_PRECISION, RATE_PRECISION, SETTLEMENT_WINDOW,
};
use crate::options_market::types::{OptionPosition, OptionSeries, OptionType, PositionSide, SeriesState};

verus! {

/// The addresses fixed at initialization.
#[derive(Clone, Copy, Debug, PartialEq, Eq, Structural)]
pub struct MarketConfig {
    pub admin: AccountId,
    pub oracle: AccountId,
    pub collateral_token: AccountId,
    pub fee_recipient: AccountId,
}

/// The ids of the positions one account has opened, in opening order.
struct UserPositions {
    user: AccountId,
    ids: Vec<u64>,
}

/// The last settlement price recorded for an underlying symbol.
#[derive(Clone, Copy, Debug, PartialEq, Eq, Structural)]
pub struct UnderlyingPrice {
    pub underlying: SymbolId,
    pub price: i128,
}

/// The stored state of an options market, field by field, as it is
/// persisted between calls. The per-account position lists are not stored:
/// they are rebuilt from the positions' owners.
pub struct MarketParts {
    pub config: Option<MarketConfig>,
    pub paused: bool,
    pub series: Vec<OptionSeries>,
    pub positions: Vec<OptionPosition>,
    pub prices: Vec<UnderlyingPrice>,
    pub total_premiums: i128,
    pub total_open_interest: i128,
}

/// The stored state of one options-market deployment.
///
/// Series and positions are numbered from 1 in creation order; series `i`
/// is stored at index `i - 1`, and likewise for positions.
pub struct OptionsMarket {
    config: Option<MarketConfig>,
    paused: bool,
    series: Vec<OptionSeries>,
    positions: Vec<OptionPosition>,
    user_positions: Vec<UserPositions>,
    prices: Vec<UnderlyingPrice>,
    total_premiums: i128,
    total_open_interest: i128,
}

/// The ids of the positions in `positions` owned by `user`, in order.
pub open spec fn owned_ids(positions: Seq<OptionPosition>, user: AccountId) -> Seq<u64>
    decreases positions.len(),
{
    if positions.len() == 0 {
        Seq::empty()
    } else {
        let rest = owned_ids(positions.drop_last(), user);
        if positions.last().owner == user {
            rest.push(positions.last().position_id)
        } else {
            rest
        }
    }
}

/// The premium for `contracts` at a per-contract `premium`, truncated toward zero.
pub open spec fn premium_cost(contracts: int, premium: int) -> int {
    tdiv(contracts * premium, PRICE_PRECISION as int)
}

/// The collateral a writer of `contracts` must lock: the notional at the last
/// settlement price of the underlying (or the strike, if none) for a call,
/// and 110% of the notional at the strike for a put.
pub open spec fn required_collateral(s: OptionSeries, contracts: int, underlying_price: Option<i128>) -> int {
    match s.option_type {
        OptionType::Call => {
            let p = match underlying_price {
                Some(p) => p as int,
                None => s.strike_price as int,
            };
            tdiv(contracts * p, PRICE_PRECISION as int)
        },
        OptionType::Put => tdiv(
            tdiv(contracts * s.strike_price, PRICE_PRECISION as int) * MIN_COLLATERAL_RATIO,
            RATE_PRECISION as int,
        ),
    }
}

/// The inputs on which computing `required_collateral` stays within machine integers.
pub open spec fn collateral_fits(s: OptionSeries, contracts: int, underlying_price: Option<i128>) -> bool {
    match s.option_type {
        OptionType::Call => {
            let p = match underlying_price {
                Some(p) => p as int,
                None => s.strike_price as int,
            };
            i128::MIN <= contracts * p <= i128::MAX
        },
        OptionType::Put => {
            &&& i128::MIN <= contracts * s.strike_price <= i128::MAX
            &&& i128::MIN <= tdiv(contracts * s.strike_price, PRICE_PRECISION as int) * MIN_COLLATERAL_RATIO
                <= i128::MAX
        },
    }
}

/// What a cancelled series refunds a position: a long gets its premium back
/// net of the protocol fee, a short its full collateral.
pub open spec fn refund_of(p: OptionPosition) -> int {
    match p.side {
        PositionSide::Long => p.premium_paid - protocol_fee_of(p.premium_paid as int),
        PositionSide::Short => p.collateral_locked as int,
    }
}

/// What a writer gets back after settlement: the locked collateral less the
/// most the position can owe, never below zero.
pub open spec fn reclaim_of(p: OptionPosition, s: OptionSeries, settlement: i128) -> int {
    let d = p.collateral_locked - payout_of(
        s.option_type,
        s.strike_price as int,
        settlement as int,
        p.contracts as int,
    );
    if d > 0 {
        d
    } else {
        0
    }
}

/// A single payment out of the contract when the amount is positive, none otherwise.
pub open spec fn payout_to(owner: AccountId, amount: int) -> Seq<Payment> {
    if amount > 0 {
        seq![Payment { from: Party::Contract, to: Party::Account(owner), amount: amount as i128 }]
    } else {
        seq![]
    }
}

/// The price recorded for `sym` in `l`, if any.
pub open spec fn price_lookup(l: Seq<UnderlyingPrice>, sym: SymbolId) -> Option<i128>
    decreases l.len(),
{
    if l.len() == 0 {
        None
    } else if l.last().underlying == sym {
        Some(l.last().price)
    } else {
        price_lookup(l.drop_last(), sym)
    }
}

/// No symbol has two entries.
pub open spec fn symbols_distinct(l: Seq<UnderlyingPrice>) -> bool {
    forall|i: int, j: int| 0 <= i < j < l.len() ==> #[trigger] l[i].underlying != #[trigger] l[j].underlying
}

proof fn lemma_price_at(l: Seq<UnderlyingPrice>, i: int)
    requires
        symbols_distinct(l),
        0 <= i < l.len(),
    ensures
        price_lookup(l, l[i].underlying) == Some(l[i].price),
    decreases l.len(),
{
    if i != l.len() - 1 {
        assert(l.last().underlying != l[i].underlying);
        assert(l.drop_last()[i] == l[i]);
        lemma_price_at(l.drop_last(), i);
    }
}

proof fn lemma_price_absent(l: Seq<UnderlyingPrice>, sym: SymbolId)
    requires
        forall|i: int| 0 <= i < l.len() ==> #[trigger] l[i].underlying != sym,
    ensures
        price_lookup(l, sym) == None::<i128>,
    decreases l.len(),
{
    if l.len() != 0 {
        let d = l.drop_last();
        assert forall|i: int| 0 <= i < d.len() implies #[trigger] d[i].underlying != sym by {
            assert(d[i] == l[i]);
        }
        lemma_price_absent(d, sym);
    }
}

proof fn lemma_price_update(l: Seq<UnderlyingPrice>, i: int, e: UnderlyingPrice)
    requires
        symbols_distinct(l),
        0 <= i < l.len(),
        e.underlying == l[i].underlying,
    ensures
        forall|x: SymbolId| #[trigger] price_lookup(l.update(i, e), x) == if x == e.underlying {
            Some(e.price)
        } else {
            price_lookup(l, x)
        },
    decreases l.len(),
{
    let u = l.update(i, e);
    if i == l.len() - 1 {
        assert(u.drop_last() =~= l.drop_last());
    } else {
        assert(u.drop_last() =~= l.drop_last().update(i, e));
        assert(l.last().underlying != l[i].underlying);
        assert(l.drop_last()[i] == l[i]);
        lemma_price_update(l.drop_last(), i, e);
        assert(u.last() == l.last());
        assert forall|x: SymbolId| #[trigger] price_lookup(u, x) == if x == e.underlying {
            Some(e.price)
        } else {
            price_lookup(l, x)
        } by {
            assert(price_lookup(u.drop_last(), x) == price_lookup(l.drop_last().update(i, e), x));
        }
    }
}

proof fn lemma_price_push(l: Seq<UnderlyingPrice>, e: UnderlyingPrice)
    ensures
        forall|x: SymbolId| #[trigger] price_lookup(l.push(e), x) == if x == e.underlying {
            Some(e.price)
        } else {
            price_lookup(l, x)
        },
{
    assert(l.push(e).drop_last() =~= l);
}

/// How many of `series` are listed on the underlying `sym`.
pub open spec fn listed_for(series: Seq<OptionSeries>, sym: SymbolId) -> nat
    decreases series.len(),
{
    if series.len() == 0 {
        0
    } else {
        listed_for(series.drop_last(), sym) + if series.last().underlying == sym {
            1nat
        } else {
            0nat
        }
    }
}

/// No underlying has more than `MAX_SERIES_PER_UNDERLYING` series listed.
pub open spec fn series_capped(series: Seq<OptionSeries>) -> bool {
    forall|sym: SymbolId| #[trigger] listed_for(series, sym) <= MAX_SERIES_PER_UNDERLYING
}

proof fn lemma_listed_push(s: Seq<OptionSeries>, e: OptionSeries, sym: SymbolId)
    ensures
        listed_for(s.push(e), sym) == listed_for(s, sym) + if e.underlying == sym {
            1nat
        } else {
            0nat
        },
{
    assert(s.push(e).drop_last() =~= s);
}

proof fn lemma_listed_update(s: Seq<OptionSeries>, i: int, e: OptionSeries, sym: SymbolId)
    requires
        0 <= i < s.len(),
        e.underlying == s[i].underlying,
    ensures
        listed_for(s.update(i, e), sym) == listed_for(s, sym),
    decreases s.len(),
{
    let u = s.update(i, e);
    if i == s.len() - 1 {
        assert(u.drop_last() =~= s.drop_last());
    } else {
        assert(u.drop_last() =~= s.drop_last().update(i, e));
        assert(s.drop_last()[i] == s[i]);
        lemma_listed_update(s.drop_last(), i, e, sym);
    }
}

/// Replacing one series by another on the same underlying keeps every count.
proof fn lemma_capped_update(s: Seq<OptionSeries>, i: int, e: OptionSeries)
    requires
        series_capped(s),
        0 <= i < s.len(),
        e.underlying == s[i].underlying,
    ensures
        series_capped(s.update(i, e)),
{
    assert forall|x: SymbolId| #[trigger] listed_for(s.update(i, e), x) <= MAX_SERIES_PER_UNDERLYING by {
        lemma_listed_update(s, i, e, x);
    }
}

proof fn lemma_listed_absent(s: Seq<OptionSeries>, sym: SymbolId)
    requires
        forall|i: int| 0 <= i < s.len() ==> #[trigger] s[i].underlying != sym,
    ensures
        listed_for(s, sym) == 0,
    decreases s.len(),
{
    if s.len() != 0 {
        let d = s.drop_last();
        assert forall|i: int| 0 <= i < d.len() implies #[trigger] d[i].underlying != sym by {
            assert(d[i] == s[i]);
        }
        lemma_listed_absent(d, sym);
    }
}

/// How many of `series` are listed on `sym`.
fn count_listed(series: &Vec<OptionSeries>, sym: SymbolId) -> (r: u64)
    ensures
        r == listed_for(series@, sym),
{
    let mut n: u64 = 0;
    let mut i: usize = 0;
    while i < series.len()
        invariant
            i <= series@.len(),
            n <= i,
            n == listed_for(series@.subrange(0, i as int), sym),
        decreases series@.len() - i,
    {
        assert(series@.subrange(0, i as int + 1).drop_last() =~= series@.subrange(0, i as int));
        if series[i].underlying == sym {
            n = n + 1;
        }
        i = i + 1;
    }
    assert(series@.subrange(0, series@.len() as int) =~= series@);
    n
}

/// The open interest of all of `series` together.
pub open spec fn open_interest_sum(series: Seq<OptionSeries>) -> int
    decreases series.len(),
{
    if series.len() == 0 {
        0
    } else {
        open_interest_sum(series.drop_last()) + series.last().open_interest
    }
}

/// No series has negative open interest, and `total` is their sum.
pub open spec fn open_interest_counted(series: Seq<OptionSeries>, total: i128) -> bool {
    &&& forall|i: int| 0 <= i < series.len() ==> #[trigger] series[i].open_interest >= 0
    &&& open_interest_sum(series) == total
}

proof fn lemma_oi_push(s: Seq<OptionSeries>, e: OptionSeries)
    ensures
        open_interest_sum(s.push(e)) == open_interest_sum(s) + e.open_interest,
{
    assert(s.push(e).drop_last() =~= s);
}

proof fn lemma_oi_update(s: Seq<OptionSeries>, i: int, e: OptionSeries)
    requires
        0 <= i < s.len(),
    ensures
        open_interest_sum(s.update(i, e)) == open_interest_sum(s) - s[i].open_interest + e.open_interest,
    decreases s.len(),
{
    let u = s.update(i, e);
    if i == s.len() - 1 {
        assert(u.drop_last() =~= s.drop_last());
    } else {
        assert(u.drop_last() =~= s.drop_last().update(i, e));
        assert(s.drop_last()[i] == s[i]);
        lemma_oi_update(s.drop_last(), i, e);
    }
}

/// Replacing a series by one with the same open interest keeps the count.
proof fn lemma_counted_update(s: Seq<OptionSeries>, total: i128, i: int, e: OptionSeries)
    requires
        open_interest_counted(s, total),
        0 <= i < s.len(),
        e.open_interest == s[i].open_interest,
    ensures
        open_interest_counted(s.update(i, e), total),
{
    lemma_oi_update(s, i, e);
    assert forall|k: int| 0 <= k < s.update(i, e).len() implies #[trigger] s.update(i, e)[k].open_interest >= 0 by {
        if k != i {
            assert(s.update(i, e)[k] == s[k]);
        }
    }
}

/// With no negative term, a prefix sums to at most the whole.
proof fn lemma_oi_prefix_within(s: Seq<OptionSeries>, k: int)
    requires
        0 <= k <= s.len(),
        forall|i: int| 0 <= i < s.len() ==> #[trigger] s[i].open_interest >= 0,
    ensures
        open_interest_sum(s.subrange(0, k)) <= open_interest_sum(s),
    decreases s.len(),
{
    if k == s.len() {
        assert(s.subrange(0, k) =~= s);
    } else {
        let d = s.drop_last();
        assert forall|i: int| 0 <= i < d.len() implies #[trigger] d[i].open_interest >= 0 by {
            assert(d[i] == s[i]);
        }
        lemma_oi_prefix_within(d, k);
        assert(d.subrange(0, k) =~= s.subrange(0, k));
        assert(s.last().open_interest >= 0) by {
            assert(s[s.len() - 1].open_interest >= 0);
        }
    }
}

/// Owners and ids agree position by position.
spec fn same_owners(p1: Seq<OptionPosition>, p2: Seq<OptionPosition>) -> bool {
    &&& p1.len() == p2.len()
    &&& forall|k: int| 0 <= k < p1.len() ==> (#[trigger] p1[k]).owner == p2[k].owner && p1[k].position_id
        == p2[k].position_id
}

proof fn lemma_owned_ids_stable(p1: Seq<OptionPosition>, p2: Seq<OptionPosition>, u: AccountId)
    requires
        same_owners(p1, p2),
    ensures
        owned_ids(p1, u) == owned_ids(p2, u),
    decreases p1.len(),
{
    if p1.len() != 0 {
        assert(same_owners(p1.drop_last(), p2.drop_last())) by {
            assert forall|k: int| 0 <= k < p1.drop_last().len() implies (#[trigger] p1.drop_last()[k]).owner
                == p2.drop_last()[k].owner && p1.drop_last()[k].position_id == p2.drop_last()[k].position_id by {
                assert(p1.drop_last()[k] == p1[k]);
                assert(p2.drop_last()[k] == p2[k]);
            }
        }
        lemma_owned_ids_stable(p1.drop_last(), p2.drop_last(), u);
    }
}

proof fn lemma_owned_ids_push(p: Seq<OptionPosition>, e: OptionPosition, u: AccountId)
    ensures
        owned_ids(p.push(e), u) == if e.owner == u {
            owned_ids(p, u).push(e.position_id)
        } else {
            owned_ids(p, u)
        },
{
    assert(p.push(e).drop_last() =~= p);
}

proof fn lemma_owned_ids_none(p: Seq<OptionPosition>, u: AccountId)
    requires
        forall|k: int| 0 <= k < p.len() ==> #[trigger] p[k].owner != u,
    ensures
        owned_ids(p, u) == Seq::<u64>::empty(),
    decreases p.len(),
{
    if p.len() != 0 {
        let d = p.drop_last();
        assert forall|k: int| 0 <= k < d.len() implies #[trigger] d[k].owner != u by {
            assert(d[k] == p[k]);
        }
        lemma_owned_ids_none(d, u);
    }
}

/// A truncated division by the price scale leaves room to multiply by five.
proof fn lemma_scaled_fits(x: int)
    requires
        i128::MIN <= x <= i128::MAX,
    ensures
        i128::MIN <= tdiv(x, PRICE_PRECISION as int) * 5 <= i128::MAX,
        i128::MIN <= tdiv(x, PRICE_PRECISION as int) <= i128::MAX,
{
    let p = PRICE_PRECISION as int;
    let a = if x >= 0 { x } else { -x };
    vstd::arithmetic::div_mod::lemma_fundamental_div_mod(a, p);
    vstd::arithmetic::div_mod::lemma_div_pos_is_pos(a, p);
    vstd::arithmetic::div_mod::lemma_mod_bound(a, p);
}

/// The protocol fee on an amount lies between zero and the amount itself.
proof fn lemma_fee_within(a: int)
    requires
        i128::MIN <= a * 5 <= i128::MAX,
    ensures
        a >= 0 ==> 0 <= protocol_fee_of(a) <= a,
        a < 0 ==> a <= protocol_fee_of(a) <= 0,
{
    let m = if a >= 0 { a * 5 } else { -(a * 5) };
    vstd::arithmetic::div_mod::lemma_fundamental_div_mod(m, 1000);
    vstd::arithmetic::div_mod::lemma_div_pos_is_pos(m, 1000);
    vstd::arithmetic::div_mod::lemma_mod_bound(m, 1000);
}

/// Series are numbered 1, 2, ... in storage order.
pub open spec fn series_numbered(series: Seq<OptionSeries>) -> bool {
    forall|i: int| 0 <= i < series.len() ==> #[trigger] series[i].series_id == i + 1
}

/// Positions are numbered 1, 2, ... in storage order, and a long's
/// premium leaves room for the fee computation.
pub open spec fn positions_ok(positions: Seq<OptionPosition>) -> bool {
    &&& forall|i: int| 0 <= i < positions.len() ==> #[trigger] positions[i].position_id == i + 1
    &&& forall|i: int|
        0 <= i < positions.len() && (#[trigger] positions[i]).side == PositionSide::Long
            ==> i128::MIN <= positions[i].premium_paid * 5 <= i128::MAX
}

spec fn index_ok(index: Seq<UserPositions>, positions: Seq<OptionPosition>) -> bool {
    &&& forall|i: int, j: int| 0 <= i < j < index.len() ==> #[trigger] index[i].user != #[trigger] index[j].user
    &&& forall|i: int|
        0 <= i < index.len() ==> (#[trigger] index[i]).ids@ == owned_ids(positions, index[i].user)
    &&& forall|k: int|
        0 <= k < positions.len() ==> exists|i: int|
            0 <= i < index.len() && #[trigger] index[i].user == (#[trigger] positions[k]).owner
}

spec fn market_ok(
    configured: bool,
    series: Seq<OptionSeries>,
    positions: Seq<OptionPosition>,
    index: Seq<UserPositions>,
    prices: Seq<UnderlyingPrice>,
    total_premiums: i128,
    total_open_interest: i128,
) -> bool {
    &&& !configured ==> {
        &&& series.len() == 0
        &&& positions.len() == 0
        &&& prices.len() == 0
        &&& total_premiums == 0
        &&& total_open_interest == 0
    }
    &&& series_numbered(series)
    &&& series_capped(series)
    &&& open_interest_counted(series, total_open_interest)
    &&& positions_ok(positions)
    &&& symbols_distinct(prices)
    &&& index_ok(index, positions)
}

impl OptionsMarket {
    /// Whether `initialize` has succeeded on this deployment.
    pub closed spec fn is_initialized(&self) -> bool {
        self.config is Some
    }

    /// The admin address.
    pub closed spec fn admin_id(&self) -> AccountId {
        self.config.unwrap().admin
    }

    /// The address trusted to report settlement prices.
    pub closed spec fn oracle_id(&self) -> AccountId {
        self.config.unwrap().oracle
    }

    /// The collateral token every payment is made in.
    pub closed spec fn token_id(&self) -> AccountId {
        self.config.unwrap().collateral_token
    }

    /// The address protocol fees are paid to.
    pub closed spec fn fee_recipient_id(&self) -> AccountId {
        self.config.unwrap().fee_recipient
    }

    /// Whether new series and new trades are blocked.
    pub closed spec fn paused_flag(&self) -> bool {
        self.paused
    }

    /// Every series ever listed; series `i` is at index `i - 1`.
    pub closed spec fn series_list(&self) -> Seq<OptionSeries> {
        self.series@
    }

    /// Every position ever opened; position `i` is at index `i - 1`.
    pub closed spec fn position_list(&self) -> Seq<OptionPosition> {
        self.positions@
    }

    /// The last settlement price recorded for `sym`.
    pub closed spec fn underlying_price(&self, sym: SymbolId) -> Option<i128> {
        price_lookup(self.prices@, sym)
    }

    /// Premiums collected by the protocol, net of fees.
    pub closed spec fn premiums_collected(&self) -> int {
        self.total_premiums as int
    }

    /// Contracts opened across all series.
    pub closed spec fn open_interest_total(&self) -> int {
        self.total_open_interest as int
    }

    /// The series numbered `id`, if listed.
    pub open spec fn series_of(&self, id: u64) -> Option<OptionSeries> {
        if 1 <= id <= self.series_list().len() {
            Some(self.series_list()[id - 1])
        } else {
            None
        }
    }

    /// The position numbered `id`, if opened.
    pub open spec fn position_of(&self, id: u64) -> Option<OptionPosition> {
        if 1 <= id <= self.position_list().len() {
            Some(self.position_list()[id - 1])
        } else {
            None
        }
    }

    /// Whether series `id` exists, is Active and has not reached expiry at `now`.
    pub open spec fn active_at(&self, id: u64, now: u64) -> bool {
        &&& self.series_of(id) is Some
        &&& self.series_of(id).unwrap().state == SeriesState::Active
        &&& now < self.series_of(id).unwrap().expiry
    }

    /// Two states agree on configuration, pause flag, settlement prices and totals.
    pub open spec fn same_settings(&self, other: &OptionsMarket) -> bool {
        &&& self.is_initialized() == other.is_initialized()
        &&& self.admin_id() == other.admin_id()
        &&& self.oracle_id() == other.oracle_id()
        &&& self.token_id() == other.token_id()
        &&& self.fee_recipient_id() == other.fee_recipient_id()
        &&& self.paused_flag() == other.paused_flag()
        &&& self.premiums_collected() == other.premiums_collected()
        &&& self.open_interest_total() == other.open_interest_total()
        &&& forall|s: SymbolId| #[trigger] self.underlying_price(s) == other.underlying_price(s)
    }

    /// The internal consistency every reachable state keeps.
    pub closed spec fn wf(&self) -> bool {
        market_ok(
            self.config is Some,
            self.series@,
            self.positions@,
            self.user_positions@,
            self.prices@,
            self.total_premiums,
            self.total_open_interest,
        )
    }

}

impl OptionsMarket {
    /// Whether `initialize` has succeeded on this deployment.
    pub fn initialized(&self) -> (r: bool)
        ensures
            r == self.is_initialized(),
    {
        self.config.is_some()
    }

    /// A deployment on which `initialize` has not yet run.
    pub fn new() -> (r: OptionsMarket)
        ensures
            r.wf(),
            !r.is_initialized(),
            !r.paused_flag(),
            r.series_list().len() == 0,
            r.position_list().len() == 0,
            r.premiums_collected() == 0,
            r.open_interest_total() == 0,
            forall|s: SymbolId| #[trigger] r.underlying_price(s) == None::<i128>,
    {
        let r = OptionsMarket {
            config: None,
            paused: false,
            series: Vec::new(),
            positions: Vec::new(),
            user_positions: Vec::new(),
            prices: Vec::new(),
            total_premiums: 0,
            total_open_interest: 0,
        };
        assert forall|s: SymbolId| #[trigger] r.underlying_price(s) == None::<i128> by {
            lemma_price_absent(r.prices@, s);
        }
        r
    }

    /// Records the admin, oracle, collateral token and fee recipient, once.
    /// The caller has already authenticated `admin`.
    pub fn initialize(
        &mut self,
        admin: AccountId,
        oracle: AccountId,
        collateral_token: AccountId,
        fee_recipient: AccountId,
    ) -> (r: Result<(), Error>)
        requires
            old(self).wf(),
        ensures
            final(self).wf(),
            r is Err <==> old(self).is_initialized(),
            r is Err ==> r == Err::<(), Error>(Error::AlreadyInitialized) && *final(self) == *old(self),
            r is Ok ==> {
                &&& final(self).is_initialized()
                &&& final(self).admin_id() == admin
                &&& final(self).oracle_id() == oracle
                &&& final(self).token_id() == collateral_token
                &&& final(self).fee_recipient_id() == fee_recipient
                &&& final(self).paused_flag() == old(self).paused_flag()
                &&& final(self).series_list() == old(self).series_list()
                &&& final(self).position_list() == old(self).position_list()
                &&& final(self).premiums_collected() == 0
                &&& final(self).open_interest_total() == 0
                &&& forall|s: SymbolId| #[trigger] final(self).underlying_price(s) == old(self).underlying_price(s)
            },
    {
        if self.config.is_some() {
            return Err(Error::AlreadyInitialized);
        }
        self.config = Some(MarketConfig { admin, oracle, collateral_token, fee_recipient });
        self.total_premiums = 0;
        self.total_open_interest = 0;
        Ok(())
    }

    /// The admin address.
    pub fn get_admin(&self) -> (r: AccountId)
        requires
            self.is_initialized(),
        ensures
            r == self.admin_id(),
    {
        self.config.unwrap().admin
    }

    /// The address trusted to report settlement prices.
    pub fn get_oracle(&self) -> (r: AccountId)
        requires
            self.is_initialized(),
        ensures
            r == self.oracle_id(),
    {
        self.config.unwrap().oracle
    }

    /// The collateral token every payment is made in.
    pub fn get_collateral_token(&self) -> (r: AccountId)
        requires
            self.is_initialized(),
        ensures
            r == self.token_id(),
    {
        self.config.unwrap().collateral_token
    }

    /// The address protocol fees are paid to.
    pub fn get_fee_recipient(&self) -> (r: AccountId)
        requires
            self.is_initialized(),
        ensures
            r == self.fee_recipient_id(),
    {
        self.config.unwrap().fee_recipient
    }

    /// Whether new series and new trades are blocked.
    pub fn is_paused(&self) -> (r: bool)
        ensures
            r == self.paused_flag(),
    {
        self.paused
    }

    /// Hands control to `new_admin`. The caller has already authenticated
    /// the current admin.
    pub fn transfer_admin(&mut self, new_admin: AccountId)
        requires
            old(self).wf(),
            old(self).is_initialized(),
        ensures
            final(self).wf(),
            final(self).is_initialized(),
            final(self).admin_id() == new_admin,
            final(self).oracle_id() == old(self).oracle_id(),
            final(self).token_id() == old(self).token_id(),
            final(self).fee_recipient_id() == old(self).fee_recipient_id(),
            final(self).paused_flag() == old(self).paused_flag(),
            final(self).series_list() == old(self).series_list(),
            final(self).position_list() == old(self).position_list(),
            final(self).premiums_collected() == old(self).premiums_collected(),
            final(self).open_interest_total() == old(self).open_interest_total(),
            forall|s: SymbolId| #[trigger] final(self).underlying_price(s) == old(self).underlying_price(s),
    {
        let c = self.config.unwrap();
        self.config = Some(MarketConfig { admin: new_admin, oracle: c.oracle, collateral_token: c.collateral_token, fee_recipient: c.fee_recipient });
    }

    /// Blocks new series and new trades (create_series, update_premium,
    /// buy_option, write_option); exercise, settlement and reclaiming stay
    /// open. The caller has already authenticated the admin.
    pub fn pause(&mut self)
        requires
            old(self).wf(),
            old(self).is_initialized(),
        ensures
            final(self).wf(),
            final(self).paused_flag(),
            final(self).is_initialized(),
            final(self).admin_id() == old(self).admin_id(),
            final(self).oracle_id() == old(self).oracle_id(),
            final(self).token_id() == old(self).token_id(),
            final(self).fee_recipient_id() == old(self).fee_recipient_id(),
            final(self).series_list() == old(self).series_list(),
            final(self).position_list() == old(self).position_list(),
            final(self).premiums_collected() == old(self).premiums_collected(),
            final(self).open_interest_total() == old(self).open_interest_total(),
            forall|s: SymbolId| #[trigger] final(self).underlying_price(s) == old(self).underlying_price(s),
    {
        self.paused = true;
    }

    /// Lifts the pause. The caller has already authenticated the admin.
    pub fn unpause(&mut self)
        requires
            old(self).wf(),
            old(self).is_initialized(),
        ensures
            final(self).wf(),
            !final(self).paused_flag(),
            final(self).is_initialized(),
            final(self).admin_id() == old(self).admin_id(),
            final(self).oracle_id() == old(self).oracle_id(),
            final(self).token_id() == old(self).token_id(),
            final(self).fee_recipient_id() == old(self).fee_recipient_id(),
            final(self).series_list() == old(self).series_list(),
            final(self).position_list() == old(self).position_list(),
            final(self).premiums_collected() == old(self).premiums_collected(),
            final(self).open_interest_total() == old(self).open_interest_total(),
            forall|s: SymbolId| #[trigger] final(self).underlying_price(s) == old(self).underlying_price(s),
    {
        self.paused = false;
    }

    /// The storage index of series `series_id`, if listed.
    fn series_index(&self, series_id: u64) -> (r: Option<usize>)
        requires
            self.wf(),
        ensures
            match r {
                Some(i) => 1 <= series_id <= self.series_list().len() && i == series_id - 1,
                None => !(1 <= series_id <= self.series_list().len()),
            },
    {
        if series_id >= 1 && series_id <= self.series.len() as u64 {
            Some((series_id - 1) as usize)
        } else {
            None
        }
    }

    /// The storage index of position `position_id`, if opened.
    fn position_index(&self, position_id: u64) -> (r: Option<usize>)
        requires
            self.wf(),
        ensures
            match r {
                Some(i) => 1 <= position_id <= self.position_list().len() && i == position_id - 1,
                None => !(1 <= position_id <= self.position_list().len()),
            },
    {
        if position_id >= 1 && position_id <= self.positions.len() as u64 {
            Some((position_id - 1) as usize)
        } else {
            None
        }
    }

    /// The series numbered `series_id`, if listed.
    pub fn get_series(&self, series_id: u64) -> (r: Option<OptionSeries>)
        requires
            self.wf(),
        ensures
            r == self.series_of(series_id),
    {
        match self.series_index(series_id) {
            Some(i) => Some(self.series[i]),
            None => None,
        }
    }

    /// The position numbered `position_id`, if opened.
    pub fn get_position(&self, position_id: u64) -> (r: Option<OptionPosition>)
        requires
            self.wf(),
        ensures
            r == self.position_of(position_id),
    {
        match self.position_index(position_id) {
            Some(i) => Some(self.positions[i]),
            None => None,
        }
    }

    /// The storage index of `sym`'s recorded price, if any.
    fn price_index(&self, sym: SymbolId) -> (r: Option<usize>)
        requires
            symbols_distinct(self.prices@),
        ensures
            match r {
                Some(i) => i < self.prices@.len() && self.prices@[i as int].underlying == sym
                    && self.underlying_price(sym) == Some(self.prices@[i as int].price),
                None => self.underlying_price(sym) == None::<i128> && forall|i: int|
                    0 <= i < self.prices@.len() ==> #[trigger] self.prices@[i].underlying != sym,
            },
    {
        let mut i: usize = 0;
        while i < self.prices.len()
            invariant
                symbols_distinct(self.prices@),
                i <= self.prices@.len(),
                forall|k: int| 0 <= k < i ==> #[trigger] self.prices@[k].underlying != sym,
            decreases self.prices@.len() - i,
        {
            if self.prices[i].underlying == sym {
                proof {
                    lemma_price_at(self.prices@, i as int);
                }
                return Some(i);
            }
            i = i + 1;
        }
        proof {
            lemma_price_absent(self.prices@, sym);
        }
        None
    }

    /// The last settlement price recorded for `underlying`.
    pub fn get_underlying_price(&self, underlying: SymbolId) -> (r: Option<i128>)
        requires
            self.wf(),
        ensures
            r == self.underlying_price(underlying),
    {
        match self.price_index(underlying) {
            Some(i) => Some(self.prices[i].price),
            None => None,
        }
    }

    /// Premiums collected net of fees, contracts opened, and series listed.
    pub fn get_stats(&self) -> (r: (i128, i128, u64))
        requires
            self.wf(),
        ensures
            r.0 == self.premiums_collected(),
            r.1 == self.open_interest_total(),
            r.2 == self.series_list().len(),
    {
        (self.total_premiums, self.total_open_interest, self.series.len() as u64)
    }

    /// The ids of `user`'s positions, in the order they were opened.
    pub fn get_user_positions(&self, user: AccountId) -> (r: Vec<u64>)
        requires
            self.wf(),
        ensures
            r@ == owned_ids(self.position_list(), user),
    {
        let mut i: usize = 0;
        while i < self.user_positions.len()
            invariant
                self.wf(),
                i <= self.user_positions@.len(),
                forall|k: int| 0 <= k < i ==> #[trigger] self.user_positions@[k].user != user,
            decreases self.user_positions@.len() - i,
        {
            if self.user_positions[i].user == user {
                let ids = &self.user_positions[i].ids;
                let mut out: Vec<u64> = Vec::new();
                let mut k: usize = 0;
                while k < ids.len()
                    invariant
                        k <= ids@.len(),
                        out@ == ids@.subrange(0, k as int),
                    decreases ids@.len() - k,
                {
                    out.push(ids[k]);
                    k = k + 1;
                    assert(out@ =~= ids@.subrange(0, k as int));
                }
                assert(ids@.subrange(0, ids@.len() as int) =~= ids@);
                return out;
            }
            i = i + 1;
        }
        proof {
            assert forall|k: int| 0 <= k < self.positions@.len() implies #[trigger] self.positions@[k].owner
                != user by {
                let j = choose|j: int|
                    0 <= j < self.user_positions@.len() && #[trigger] self.user_positions@[j].user
                        == self.positions@[k].owner;
                assert(self.user_positions@[j].user != user);
            }
            lemma_owned_ids_none(self.positions@, user);
        }
        Vec::new()
    }

    /// Series `series_id`, provided it is listed, Active and not yet expired at `now`.
    fn require_active_series(&self, now: u64, series_id: u64) -> (r: Result<OptionSeries, Error>)
        requires
            self.wf(),
        ensures
            self.series_of(series_id) is None ==> r == Err::<OptionSeries, Error>(Error::SeriesNotFound),
            self.series_of(series_id) is Some && !self.active_at(series_id, now) ==> r == Err::<
                OptionSeries,
                Error,
            >(Error::SeriesNotActive),
            self.active_at(series_id, now) ==> r == Ok::<OptionSeries, Error>(self.series_of(series_id).unwrap()),
    {
        match self.series_index(series_id) {
            None => Err(Error::SeriesNotFound),
            Some(i) => {
                let s = self.series[i];
                if s.state != SeriesState::Active {
                    return Err(Error::SeriesNotActive);
                }
                if now >= s.expiry {
                    return Err(Error::SeriesNotActive);
                }
                Ok(s)
            },
        }
    }
}

impl OptionsMarket {
    /// Lists a new series, numbered one past the last. The premium is
    /// computed off-chain and passed in. The caller has already
    /// authenticated the admin.
    ///
    /// Refused with `ContractPaused` while paused, then with `ExpiryTooSoon`
    /// unless `expiry` is more than an hour after `now`, then with
    /// `TooManySeriesForUnderlying` once `MAX_SERIES_PER_UNDERLYING` series
    /// have ever been listed on `underlying`.
    pub fn create_series(
        &mut self,
        now: u64,
        underlying: SymbolId,
        option_type: OptionType,
        strike_price: i128,
        expiry: u64,
        premium: i128,
        implied_vol: i128,
    ) -> (r: Result<u64, Error>)
        requires
            old(self).wf(),
            !old(self).paused_flag() ==> old(self).is_initialized() && now + 3600 <= u64::MAX,
            !old(self).paused_flag() && expiry > now + 3600 ==> old(self).series_list().len() < u64::MAX,
        ensures
            final(self).wf(),
            old(self).paused_flag() ==> r == Err::<u64, Error>(Error::ContractPaused),
            !old(self).paused_flag() && expiry <= now + 3600 ==> r == Err::<u64, Error>(Error::ExpiryTooSoon),
            !old(self).paused_flag() && expiry > now + 3600 && listed_for(old(self).series_list(), underlying)
                >= MAX_SERIES_PER_UNDERLYING ==> r == Err::<u64, Error>(Error::TooManySeriesForUnderlying),
            r is Ok <==> !old(self).paused_flag() && expiry > now + 3600 && listed_for(
                old(self).series_list(),
                underlying,
            ) < MAX_SERIES_PER_UNDERLYING,
            r is Ok ==> {
                &&& r == Ok::<u64, Error>((old(self).series_list().len() + 1) as u64)
                &&& final(self).series_list() == old(self).series_list().push(
                    (OptionSeries {
                        series_id: (old(self).series_list().len() + 1) as u64,
                        underlying,
                        option_type,
                        strike_price,
                        expiry,
                        premium,
                        implied_vol,
                        open_interest: 0,
                        state: SeriesState::Active,
                        settlement_price: None,
                        created_at: now,
                    }),
                )
                &&& final(self).position_list() == old(self).position_list()
                &&& final(self).same_settings(&*old(self))
            },
            r is Err ==> *final(self) == *old(self),
    {
        if self.paused {
            return Err(Error::ContractPaused);
        }
        if expiry <= now + 3600 {
            return Err(Error::ExpiryTooSoon);
        }
        if count_listed(&self.series, underlying) >= MAX_SERIES_PER_UNDERLYING as u64 {
            return Err(Error::TooManySeriesForUnderlying);
        }
        let series_id = self.series.len() as u64 + 1;
        let s = OptionSeries {
            series_id,
            underlying,
            option_type,
            strike_price,
            expiry,
            premium,
            implied_vol,
            open_interest: 0,
            state: SeriesState::Active,
            settlement_price: None,
            created_at: now,
        };
        let ghost pre = self.series@;
        self.series.push(s);
        proof {
            assert forall|x: SymbolId| #[trigger] listed_for(self.series@, x) <= MAX_SERIES_PER_UNDERLYING by {
                lemma_listed_push(pre, s, x);
            }
            lemma_oi_push(pre, s);
            assert forall|k: int| 0 <= k < self.series@.len() implies #[trigger] self.series@[k].open_interest >= 0 by {
                if k < pre.len() {
                    assert(self.series@[k] == pre[k]);
                }
            }
        }
        Ok(series_id)
    }

    /// Re-prices an Active series. The caller has already authenticated the admin.
    ///
    /// Refused with `ContractPaused` while paused, then `SeriesNotFound`,
    /// then `SeriesNotActive` unless the series is Active.
    pub fn update_premium(&mut self, series_id: u64, new_premium: i128, new_implied_vol: i128) -> (r: Result<(), Error>)
        requires
            old(self).wf(),
            !old(self).paused_flag() ==> old(self).is_initialized(),
        ensures
            final(self).wf(),
            old(self).paused_flag() ==> r == Err::<(), Error>(Error::ContractPaused),
            !old(self).paused_flag() && old(self).series_of(series_id) is None ==> r == Err::<(), Error>(
                Error::SeriesNotFound,
            ),
            !old(self).paused_flag() && old(self).series_of(series_id) is Some && old(self).series_of(
                series_id,
            ).unwrap().state != SeriesState::Active ==> r == Err::<(), Error>(Error::SeriesNotActive),
            r is Ok <==> !old(self).paused_flag() && old(self).series_of(series_id) is Some && old(self).series_of(
                series_id,
            ).unwrap().state == SeriesState::Active,
            r is Ok ==> {
                &&& final(self).series_list() == old(self).series_list().update(
                    series_id - 1,
                    (OptionSeries {
                        premium: new_premium,
                        implied_vol: new_implied_vol,
                        ..old(self).series_of(series_id).unwrap()
                    }),
                )
                &&& final(self).position_list() == old(self).position_list()
                &&& final(self).same_settings(&*old(self))
            },
            r is Err ==> *final(self) == *old(self),
    {
        if self.paused {
            return Err(Error::ContractPaused);
        }
        match self.series_index(series_id) {
            None => Err(Error::SeriesNotFound),
            Some(i) => {
                let s = self.series[i];
                if s.state != SeriesState::Active {
                    return Err(Error::SeriesNotActive);
                }
                let ns = OptionSeries { premium: new_premium, implied_vol: new_implied_vol, ..s };
                proof {
                    lemma_capped_update(self.series@, i as int, ns);
                    lemma_counted_update(self.series@, self.total_open_interest, i as int, ns);
                }
                self.series.set(i, ns);
                Ok(())
            },
        }
    }

    /// Cancels an Active series; its position holders then claim refunds
    /// one by one. The caller has already authenticated the admin.
    ///
    /// Refused with `SeriesNotFound`, then `SeriesNotActive` unless Active.
    pub fn cancel_series(&mut self, series_id: u64) -> (r: Result<(), Error>)
        requires
            old(self).wf(),
            old(self).is_initialized(),
        ensures
            final(self).wf(),
            old(self).series_of(series_id) is None ==> r == Err::<(), Error>(Error::SeriesNotFound),
            old(self).series_of(series_id) is Some && old(self).series_of(series_id).unwrap().state
                != SeriesState::Active ==> r == Err::<(), Error>(Error::SeriesNotActive),
            r is Ok <==> old(self).series_of(series_id) is Some && old(self).series_of(series_id).unwrap().state
                == SeriesState::Active,
            r is Ok ==> {
                &&& final(self).series_list() == old(self).series_list().update(
                    series_id - 1,
                    (OptionSeries { state: SeriesState::Cancelled, ..old(self).series_of(series_id).unwrap() }),
                )
                &&& final(self).position_list() == old(self).position_list()
                &&& final(self).same_settings(&*old(self))
            },
            r is Err ==> *final(self) == *old(self),
    {
        match self.series_index(series_id) {
            None => Err(Error::SeriesNotFound),
            Some(i) => {
                let s = self.series[i];
                if s.state != SeriesState::Active {
                    return Err(Error::SeriesNotActive);
                }
                let ns = OptionSeries { state: SeriesState::Cancelled, ..s };
                proof {
                    lemma_capped_update(self.series@, i as int, ns);
                    lemma_counted_update(self.series@, self.total_open_interest, i as int, ns);
                }
                self.series.set(i, ns);
                Ok(())
            },
        }
    }

    /// Records `price` as series `series_id`'s settlement price, marks the
    /// series Settled and remembers the price for its underlying. The
    /// caller has already authenticated the oracle.
    ///
    /// Refused with `SeriesNotFound`, then `SeriesNotExpired` before expiry.
    pub fn set_settlement_price(&mut self, now: u64, series_id: u64, price: i128) -> (r: Result<(), Error>)
        requires
            old(self).wf(),
            old(self).is_initialized(),
        ensures
            final(self).wf(),
            old(self).series_of(series_id) is None ==> r == Err::<(), Error>(Error::SeriesNotFound),
            old(self).series_of(series_id) is Some && now < old(self).series_of(series_id).unwrap().expiry ==> r
                == Err::<(), Error>(Error::SeriesNotExpired),
            r is Ok <==> old(self).series_of(series_id) is Some && now >= old(self).series_of(
                series_id,
            ).unwrap().expiry,
            r is Ok ==> {
                &&& final(self).series_list() == old(self).series_list().update(
                    series_id - 1,
                    (OptionSeries {
                        settlement_price: Some(price),
                        state: SeriesState::Settled,
                        ..old(self).series_of(series_id).unwrap()
                    }),
                )
                &&& final(self).position_list() == old(self).position_list()
                &&& final(self).is_initialized()
                &&& final(self).admin_id() == old(self).admin_id()
                &&& final(self).oracle_id() == old(self).oracle_id()
                &&& final(self).token_id() == old(self).token_id()
                &&& final(self).fee_recipient_id() == old(self).fee_recipient_id()
                &&& final(self).paused_flag() == old(self).paused_flag()
                &&& final(self).premiums_collected() == old(self).premiums_collected()
                &&& final(self).open_interest_total() == old(self).open_interest_total()
                &&& forall|sym: SymbolId| #[trigger] final(self).underlying_price(sym) == if sym == old(
                    self,
                ).series_of(series_id).unwrap().underlying {
                    Some(price)
                } else {
                    old(self).underlying_price(sym)
                }
            },
            r is Err ==> *final(self) == *old(self),
    {
        match self.series_index(series_id) {
            None => Err(Error::SeriesNotFound),
            Some(i) => {
                let s = self.series[i];
                if now < s.expiry {
                    return Err(Error::SeriesNotExpired);
                }
                let ns = OptionSeries { settlement_price: Some(price), state: SeriesState::Settled, ..s };
                proof {
                    lemma_capped_update(self.series@, i as int, ns);
                    lemma_counted_update(self.series@, self.total_open_interest, i as int, ns);
                }
                self.series.set(i, ns);
                let e = UnderlyingPrice { underlying: s.underlying, price };
                let ghost l = self.prices@;
                match self.price_index(s.underlying) {
                    Some(k) => {
                        self.prices.set(k, e);
                        proof {
                            lemma_price_update(l, k as int, e);
                            assert forall|p: int, q: int| 0 <= p < q < self.prices@.len() implies
                                #[trigger] self.prices@[p].underlying != #[trigger] self.prices@[q].underlying by {
                                assert(l[p].underlying != l[q].underlying);
                            }
                        }
                    },
                    None => {
                        self.prices.push(e);
                        proof {
                            lemma_price_push(l, e);
                            assert forall|p: int, q: int| 0 <= p < q < self.prices@.len() implies
                                #[trigger] self.prices@[p].underlying != #[trigger] self.prices@[q].underlying by {
                                if q < l.len() {
                                    assert(l[p].underlying != l[q].underlying);
                                } else {
                                    assert(self.prices@[p] == l[p]);
                                }
                            }
                        }
                    },
                }
                Ok(())
            },
        }
    }
}

/// The transfers a purchase makes: the premium from the buyer to the
/// contract, then the fee on to the fee recipient when it is positive.
pub open spec fn buy_payments(buyer: AccountId, fee_recipient: AccountId, cost: int, fee: int) -> Seq<Payment> {
    seq![Payment { from: Party::Account(buyer), to: Party::Contract, amount: cost as i128 }] + if fee > 0 {
        seq![Payment { from: Party::Contract, to: Party::Account(fee_recipient), amount: fee as i128 }]
    } else {
        seq![]
    }
}

/// The transfers a write makes: the collateral from the writer to the
/// contract, then the writer's premium (net of fee) back to the writer.
pub open spec fn write_payments(writer: AccountId, collateral: int, writer_premium: int) -> Seq<Payment> {
    seq![
        Payment { from: Party::Account(writer), to: Party::Contract, amount: collateral as i128 },
        Payment { from: Party::Contract, to: Party::Account(writer), amount: writer_premium as i128 },
    ]
}

impl OptionsMarket {
    /// The inputs on which `buy_option` stays within machine integers.
    pub open spec fn buy_fits(&self, now: u64, series_id: u64, contracts: i128, max_premium: i128) -> bool {
        let s = self.series_of(series_id).unwrap();
        let cost = premium_cost(contracts as int, s.premium as int);
        (!self.paused_flag() && contracts > 0 && self.active_at(series_id, now)) ==> {
            &&& i128::MIN <= contracts * s.premium <= i128::MAX
            &&& cost <= max_premium ==> {
                &&& s.open_interest + contracts <= i128::MAX
                &&& self.open_interest_total() + contracts <= i128::MAX
                &&& i128::MIN <= self.premiums_collected() + cost - protocol_fee_of(cost) <= i128::MAX
                &&& self.position_list().len() < u64::MAX
            }
        }
    }

    /// The inputs on which `write_option` stays within machine integers.
    pub open spec fn write_fits(&self, now: u64, series_id: u64, contracts: i128, collateral_amount: i128) -> bool {
        let s = self.series_of(series_id).unwrap();
        let price = self.underlying_price(s.underlying);
        (!self.paused_flag() && contracts > 0 && self.active_at(series_id, now)) ==> {
            &&& collateral_fits(s, contracts as int, price)
            &&& collateral_amount >= required_collateral(s, contracts as int, price) ==> {
                &&& i128::MIN <= contracts * s.premium <= i128::MAX
                &&& s.open_interest + contracts <= i128::MAX
                &&& self.open_interest_total() + contracts <= i128::MAX
                &&& self.position_list().len() < u64::MAX
            }
        }
    }

    /// The storage index of `user`'s entry in the per-account position index.
    fn user_index(&self, user: AccountId) -> (r: Option<usize>)
        ensures
            match r {
                Some(i) => i < self.user_positions@.len() && self.user_positions@[i as int].user == user,
                None => forall|k: int| 0 <= k < self.user_positions@.len() ==> #[trigger] self.user_positions@[k].user != user,
            },
    {
        let mut i: usize = 0;
        while i < self.user_positions.len()
            invariant
                i <= self.user_positions@.len(),
                forall|k: int| 0 <= k < i ==> #[trigger] self.user_positions@[k].user != user,
            decreases self.user_positions@.len() - i,
        {
            if self.user_positions[i].user == user {
                return Some(i);
            }
            i = i + 1;
        }
        None
    }

    /// Appends `position_id` to `user`'s list once the position itself has
    /// been stored as the last one.
    fn add_user_position(&mut self, user: AccountId, position_id: u64)
        requires
            old(self).positions@.len() > 0,
            index_ok(old(self).user_positions@, old(self).positions@.drop_last()),
            old(self).positions@.last().owner == user,
            old(self).positions@.last().position_id == position_id,
        ensures
            index_ok(final(self).user_positions@, final(self).positions@),
            final(self).positions == old(self).positions,
            final(self).series == old(self).series,
            final(self).prices == old(self).prices,
            final(self).config == old(self).config,
            final(self).paused == old(self).paused,
            final(self).total_premiums == old(self).total_premiums,
            final(self).total_open_interest == old(self).total_open_interest,
    {
        let ghost pre = self.positions@.drop_last();
        let ghost idx0 = self.user_positions@;
        proof {
            assert(self.positions@ =~= pre.push(self.positions@.last()));
            assert forall|u: AccountId| #[trigger] owned_ids(self.positions@, u) == if u == user {
                owned_ids(pre, u).push(position_id)
            } else {
                owned_ids(pre, u)
            } by {
                lemma_owned_ids_push(pre, self.positions@.last(), u);
            }
        }
        match self.user_index(user) {
            Some(i) => {
                let mut e = self.user_positions.remove(i);
                proof {
                    assert(e == idx0[i as int]);
                }
                e.ids.push(position_id);
                self.user_positions.insert(i, e);
                proof {
                    assert(self.user_positions@ =~= idx0.update(i as int, e));
                    assert forall|a: int, b: int| 0 <= a < b < self.user_positions@.len() implies
                        #[trigger] self.user_positions@[a].user != #[trigger] self.user_positions@[b].user by {
                        assert(idx0[a].user != idx0[b].user);
                    }
                    assert forall|a: int| 0 <= a < self.user_positions@.len() implies (
                    #[trigger] self.user_positions@[a]).ids@ == owned_ids(
                        self.positions@,
                        self.user_positions@[a].user,
                    ) by {
                        if a != i {
                            assert(self.user_positions@[a] == idx0[a]);
                            assert(idx0[a].user != idx0[i as int].user);
                        }
                    }
                    assert forall|k: int| 0 <= k < self.positions@.len() implies exists|a: int|
                        0 <= a < self.user_positions@.len() && #[trigger] self.user_positions@[a].user == (
                        #[trigger] self.positions@[k]).owner by {
                        if k < pre.len() {
                            assert(pre[k] == self.positions@[k]);
                            let a = choose|a: int| 0 <= a < idx0.len() && #[trigger] idx0[a].user == pre[k].owner;
                            assert(self.user_positions@[a].user == idx0[a].user);
                        } else {
                            assert(self.user_positions@[i as int].user == user);
                        }
                    }
                }
            },
            None => {
                proof {
                    assert forall|k: int| 0 <= k < pre.len() implies #[trigger] pre[k].owner != user by {
                        let a = choose|a: int| 0 <= a < idx0.len() && #[trigger] idx0[a].user == pre[k].owner;
                        assert(idx0[a].user != user);
                    }
                    lemma_owned_ids_none(pre, user);
                }
                let mut ids: Vec<u64> = Vec::new();
                ids.push(position_id);
                let e = UserPositions { user, ids };
                self.user_positions.push(e);
                proof {
                    assert(e.ids@ =~= Seq::<u64>::empty().push(position_id));
                    assert forall|a: int, b: int| 0 <= a < b < self.user_positions@.len() implies
                        #[trigger] self.user_positions@[a].user != #[trigger] self.user_positions@[b].user by {
                        if b < idx0.len() {
                            assert(idx0[a].user != idx0[b].user);
                        } else {
                            assert(self.user_positions@[a] == idx0[a]);
                        }
                    }
                    assert forall|a: int| 0 <= a < self.user_positions@.len() implies (
                    #[trigger] self.user_positions@[a]).ids@ == owned_ids(
                        self.positions@,
                        self.user_positions@[a].user,
                    ) by {
                        if a < idx0.len() {
                            assert(self.user_positions@[a] == idx0[a]);
                        }
                    }
                    assert forall|k: int| 0 <= k < self.positions@.len() implies exists|a: int|
                        0 <= a < self.user_positions@.len() && #[trigger] self.user_positions@[a].user == (
                        #[trigger] self.positions@[k]).owner by {
                        if k < pre.len() {
                            assert(pre[k] == self.positions@[k]);
                            let a = choose|a: int| 0 <= a < idx0.len() && #[trigger] idx0[a].user == pre[k].owner;
                            assert(self.user_positions@[a] == idx0[a]);
                        } else {
                            assert(self.user_positions@[idx0.len() as int].user == user);
                        }
                    }
                }
            },
        }
    }

    /// Adds `contracts` to the open interest of series `i` and to the total.
    fn add_open_interest(&mut self, i: usize, contracts: i128)
        requires
            old(self).wf(),
            i < old(self).series@.len(),
            contracts > 0,
            old(self).series@[i as int].open_interest + contracts <= i128::MAX,
            old(self).total_open_interest + contracts <= i128::MAX,
        ensures
            final(self).wf(),
            final(self).series@ == old(self).series@.update(
                i as int,
                (OptionSeries {
                    open_interest: (old(self).series@[i as int].open_interest + contracts) as i128,
                    ..old(self).series@[i as int]
                }),
            ),
            final(self).total_open_interest == old(self).total_open_interest + contracts,
            final(self).positions == old(self).positions,
            final(self).user_positions == old(self).user_positions,
            final(self).prices == old(self).prices,
            final(self).config == old(self).config,
            final(self).paused == old(self).paused,
            final(self).total_premiums == old(self).total_premiums,
    {
        let ghost pre = self.series@;
        let old_s = self.series[i];
        let s = OptionSeries { open_interest: old_s.open_interest + contracts, ..old_s };
        proof {
            lemma_capped_update(pre, i as int, s);
            lemma_oi_update(pre, i as int, s);
        }
        self.series.set(i, s);
        self.total_open_interest = self.total_open_interest + contracts;
        proof {
            assert forall|k: int| 0 <= k < self.series@.len() implies #[trigger] self.series@[k].series_id == k + 1 by {
                if k != i {
                    assert(self.series@[k] == pre[k]);
                }
            }
            assert forall|k: int| 0 <= k < self.series@.len() implies #[trigger] self.series@[k].open_interest >= 0 by {
                if k != i {
                    assert(self.series@[k] == pre[k]);
                } else {
                    assert(pre[k].open_interest >= 0);
                }
            }
        }
    }

    /// The number the next opened position will get.
    fn next_position_id(&self) -> (r: u64)
        requires
            self.positions@.len() < u64::MAX,
        ensures
            r == self.positions@.len() + 1,
    {
        self.positions.len() as u64 + 1
    }

    /// Stores `p` as the newest position and records it under its owner.
    fn open_position(&mut self, p: OptionPosition)
        requires
            old(self).wf(),
            old(self).config is Some,
            p.position_id == old(self).positions@.len() + 1,
            p.side == PositionSide::Long ==> i128::MIN <= p.premium_paid * 5 <= i128::MAX,
        ensures
            final(self).wf(),
            final(self).positions@ == old(self).positions@.push(p),
            final(self).series == old(self).series,
            final(self).prices == old(self).prices,
            final(self).config == old(self).config,
            final(self).paused == old(self).paused,
            final(self).total_premiums == old(self).total_premiums,
            final(self).total_open_interest == old(self).total_open_interest,
    {
        let ghost pre = self.positions@;
        self.positions.push(p);
        proof {
            assert(self.positions@.drop_last() =~= pre);
            assert(positions_ok(self.positions@)) by {
                assert forall|i: int| 0 <= i < self.positions@.len() implies #[trigger] self.positions@[i].position_id
                    == i + 1 by {
                    if i < pre.len() {
                        assert(self.positions@[i] == pre[i]);
                    }
                }
                assert forall|i: int|
                    0 <= i < self.positions@.len() && (#[trigger] self.positions@[i]).side == PositionSide::Long
                        implies i128::MIN <= self.positions@[i].premium_paid * 5 <= i128::MAX by {
                    if i < pre.len() {
                        assert(self.positions@[i] == pre[i]);
                    }
                }
            }
        }
        self.add_user_position(p.owner, p.position_id);
    }

    /// Replaces position `i` by `p`, which keeps its id, owner and side.
    fn replace_position(&mut self, i: usize, p: OptionPosition)
        requires
            old(self).wf(),
            i < old(self).positions@.len(),
            p.position_id == old(self).positions@[i as int].position_id,
            p.owner == old(self).positions@[i as int].owner,
            p.side == old(self).positions@[i as int].side,
            p.premium_paid == old(self).positions@[i as int].premium_paid,
        ensures
            final(self).wf(),
            final(self).positions@ == old(self).positions@.update(i as int, p),
            final(self).series == old(self).series,
            final(self).prices == old(self).prices,
            final(self).config == old(self).config,
            final(self).paused == old(self).paused,
            final(self).total_premiums == old(self).total_premiums,
            final(self).total_open_interest == old(self).total_open_interest,
    {
        let ghost pre = self.positions@;
        self.positions.set(i, p);
        proof {
            assert(same_owners(pre, self.positions@)) by {
                assert forall|k: int| 0 <= k < pre.len() implies (#[trigger] pre[k]).owner == self.positions@[k].owner
                    && pre[k].position_id == self.positions@[k].position_id by {
                    if k != i {
                        assert(self.positions@[k] == pre[k]);
                    }
                }
            }
            assert forall|u: AccountId| #[trigger] owned_ids(self.positions@, u) == owned_ids(pre, u) by {
                lemma_owned_ids_stable(self.positions@, pre, u);
                assert(same_owners(self.positions@, pre)) by {
                    assert forall|k: int| 0 <= k < pre.len() implies (#[trigger] self.positions@[k]).owner
                        == pre[k].owner && self.positions@[k].position_id == pre[k].position_id by {
                        if k != i {
                            assert(self.positions@[k] == pre[k]);
                        }
                    }
                }
            }
            assert(positions_ok(self.positions@)) by {
                assert forall|k: int| 0 <= k < self.positions@.len() implies #[trigger] self.positions@[k].position_id
                    == k + 1 by {
                    if k != i {
                        assert(self.positions@[k] == pre[k]);
                    }
                }
                assert forall|k: int|
                    0 <= k < self.positions@.len() && (#[trigger] self.positions@[k]).side == PositionSide::Long
                        implies i128::MIN <= self.positions@[k].premium_paid * 5 <= i128::MAX by {
                    if k != i {
                        assert(self.positions@[k] == pre[k]);
                    }
                }
            }
            assert(index_ok(self.user_positions@, self.positions@)) by {
                assert forall|k: int| 0 <= k < self.positions@.len() implies exists|a: int|
                    0 <= a < self.user_positions@.len() && #[trigger] self.user_positions@[a].user == (
                    #[trigger] self.positions@[k]).owner by {
                    assert(pre[k].owner == self.positions@[k].owner);
                    let a = choose|a: int|
                        0 <= a < self.user_positions@.len() && #[trigger] self.user_positions@[a].user
                            == (#[trigger] pre[k]).owner;
                }
            }
        }
    }
}

impl OptionsMarket {
    /// Opens a long position of `contracts` (at `PRICE_PRECISION` scale) in
    /// series `series_id`: the buyer pays the premium into the contract and
    /// the 0.5% protocol fee goes on to the fee recipient. `max_premium` is
    /// slippage protection. The caller has already authenticated `buyer`.
    ///
    /// Refused, in this order, with `ContractPaused` while paused,
    /// `ZeroContracts` for a non-positive amount, `SeriesNotFound`,
    /// `SeriesNotActive` unless the series is Active and not yet expired at
    /// `now`, and `InsufficientPremium` when the premium exceeds `max_premium`.
    pub fn buy_option(&mut self, now: u64, buyer: AccountId, series_id: u64, contracts: i128, max_premium: i128) -> (r:
        Result<(u64, Vec<Payment>), Error>)
        requires
            old(self).wf(),
            old(self).buy_fits(now, series_id, contracts, max_premium),
        ensures
            final(self).wf(),
            old(self).paused_flag() ==> r.is_err() && r->Err_0 == Error::ContractPaused,
            !old(self).paused_flag() && contracts <= 0 ==> r.is_err() && r->Err_0 == Error::ZeroContracts,
            !old(self).paused_flag() && contracts > 0 && old(self).series_of(series_id) is None ==> r.is_err()
                && r->Err_0 == Error::SeriesNotFound,
            !old(self).paused_flag() && contracts > 0 && old(self).series_of(series_id) is Some && !old(
                self,
            ).active_at(series_id, now) ==> r.is_err() && r->Err_0 == Error::SeriesNotActive,
            !old(self).paused_flag() && contracts > 0 && old(self).active_at(series_id, now) && premium_cost(
                contracts as int,
                old(self).series_of(series_id).unwrap().premium as int,
            ) > max_premium ==> r.is_err() && r->Err_0 == Error::InsufficientPremium,
            r is Ok <==> !old(self).paused_flag() && contracts > 0 && old(self).active_at(series_id, now)
                && premium_cost(contracts as int, old(self).series_of(series_id).unwrap().premium as int)
                <= max_premium,
            r is Ok ==> {
                let s = old(self).series_of(series_id).unwrap();
                let cost = premium_cost(contracts as int, s.premium as int);
                let fee = protocol_fee_of(cost);
                let id = (old(self).position_list().len() + 1) as u64;
                &&& r->Ok_0.0 == id
                &&& r->Ok_0.1@ == buy_payments(buyer, old(self).fee_recipient_id(), cost, fee)
                &&& final(self).position_list() == old(self).position_list().push(
                    (OptionPosition {
                        position_id: id,
                        series_id,
                        owner: buyer,
                        side: PositionSide::Long,
                        contracts,
                        premium_paid: cost as i128,
                        fee_paid: fee as i128,
                        collateral_locked: 0,
                        is_exercised: false,
                        is_settled: false,
                        opened_at: now,
                    }),
                )
                &&& final(self).series_list() == old(self).series_list().update(
                    series_id - 1,
                    (OptionSeries { open_interest: (s.open_interest + contracts) as i128, ..s }),
                )
                &&& final(self).premiums_collected() == old(self).premiums_collected() + cost - fee
                &&& final(self).open_interest_total() == old(self).open_interest_total() + contracts
                &&& final(self).is_initialized()
                &&& final(self).admin_id() == old(self).admin_id()
                &&& final(self).oracle_id() == old(self).oracle_id()
                &&& final(self).token_id() == old(self).token_id()
                &&& final(self).fee_recipient_id() == old(self).fee_recipient_id()
                &&& final(self).paused_flag() == old(self).paused_flag()
                &&& forall|sym: SymbolId| #[trigger] final(self).underlying_price(sym) == old(self).underlying_price(sym)
            },
            r is Err ==> *final(self) == *old(self),
    {
        if self.paused {
            return Err(Error::ContractPaused);
        }
        if contracts <= 0 {
            return Err(Error::ZeroContracts);
        }
        let s = match self.require_active_series(now, series_id) {
            Ok(s) => s,
            Err(e) => return Err(e),
        };
        let total_premium = div_toward_zero(contracts * s.premium, PRICE_PRECISION);
        if total_premium > max_premium {
            return Err(Error::InsufficientPremium);
        }
        proof {
            lemma_scaled_fits(contracts * s.premium);
            lemma_fee_within(total_premium as int);
        }
        let fee = protocol_fee(total_premium);
        let premium_after_fee = total_premium - fee;
        let cfg = self.config.unwrap();
        let mut payments: Vec<Payment> = Vec::new();
        payments.push(Payment { from: Party::Account(buyer), to: Party::Contract, amount: total_premium });
        if fee > 0 {
            payments.push(Payment { from: Party::Contract, to: Party::Account(cfg.fee_recipient), amount: fee });
        }
        let pos_id = self.next_position_id();
        let position = OptionPosition {
            position_id: pos_id,
            series_id,
            owner: buyer,
            side: PositionSide::Long,
            contracts,
            premium_paid: total_premium,
            fee_paid: fee,
            collateral_locked: 0,
            is_exercised: false,
            is_settled: false,
            opened_at: now,
        };
        proof {
            assert(self.active_at(series_id, now));
            assert(1 <= series_id <= self.series@.len());
            assert(s == self.series@[series_id - 1]);
        }
        let idx: usize = match self.series_index(series_id) {
            Some(i) => i,
            None => 0,
        };
        self.add_open_interest(idx, contracts);
        self.total_premiums = self.total_premiums + premium_after_fee;
        self.open_position(position);
        proof {
            assert(payments@ =~= buy_payments(buyer, cfg.fee_recipient, total_premium as int, fee as int));
        }
        Ok((pos_id, payments))
    }

    /// Opens a short position of `contracts` in series `series_id`: the
    /// writer locks the required collateral (the notional at the last
    /// settlement price of the underlying, or the strike, for a call; 110%
    /// of the notional at the strike for a put) and is paid the premium net
    /// of the protocol fee out of the contract's balance. The caller has
    /// already authenticated `writer`.
    ///
    /// Refused, in this order, with `ContractPaused`, `ZeroContracts`,
    /// `SeriesNotFound`, `SeriesNotActive`, and `InsufficientCollateral`
    /// when `collateral_amount` is below the required collateral.
    pub fn write_option(
        &mut self,
        now: u64,
        writer: AccountId,
        series_id: u64,
        contracts: i128,
        collateral_amount: i128,
    ) -> (r: Result<(u64, Vec<Payment>), Error>)
        requires
            old(self).wf(),
            old(self).write_fits(now, series_id, contracts, collateral_amount),
        ensures
            final(self).wf(),
            old(self).paused_flag() ==> r.is_err() && r->Err_0 == Error::ContractPaused,
            !old(self).paused_flag() && contracts <= 0 ==> r.is_err() && r->Err_0 == Error::ZeroContracts,
            !old(self).paused_flag() && contracts > 0 && old(self).series_of(series_id) is None ==> r.is_err()
                && r->Err_0 == Error::SeriesNotFound,
            !old(self).paused_flag() && contracts > 0 && old(self).series_of(series_id) is Some && !old(
                self,
            ).active_at(series_id, now) ==> r.is_err() && r->Err_0 == Error::SeriesNotActive,
            !old(self).paused_flag() && contracts > 0 && old(self).active_at(series_id, now) && collateral_amount
                < required_collateral(
                old(self).series_of(series_id).unwrap(),
                contracts as int,
                old(self).underlying_price(old(self).series_of(series_id).unwrap().underlying),
            ) ==> r.is_err() && r->Err_0 == Error::InsufficientCollateral,
            r is Ok <==> !old(self).paused_flag() && contracts > 0 && old(self).active_at(series_id, now)
                && collateral_amount >= required_collateral(
                old(self).series_of(series_id).unwrap(),
                contracts as int,
                old(self).underlying_price(old(self).series_of(series_id).unwrap().underlying),
            ),
            r is Ok ==> {
                let s = old(self).series_of(series_id).unwrap();
                let required = required_collateral(s, contracts as int, old(self).underlying_price(s.underlying));
                let cost = premium_cost(contracts as int, s.premium as int);
                let writer_premium = cost - protocol_fee_of(cost);
                let id = (old(self).position_list().len() + 1) as u64;
                &&& r->Ok_0.0 == id
                &&& r->Ok_0.1@ == write_payments(writer, required, writer_premium)
                &&& final(self).position_list() == old(self).position_list().push(
                    (OptionPosition {
                        position_id: id,
                        series_id,
                        owner: writer,
                        side: PositionSide::Short,
                        contracts,
                        premium_paid: writer_premium as i128,
                        fee_paid: 0,
                        collateral_locked: required as i128,
                        is_exercised: false,
                        is_settled: false,
                        opened_at: now,
                    }),
                )
                &&& final(self).series_list() == old(self).series_list().update(
                    series_id - 1,
                    (OptionSeries { open_interest: (s.open_interest + contracts) as i128, ..s }),
                )
                &&& final(self).premiums_collected() == old(self).premiums_collected()
                &&& final(self).open_interest_total() == old(self).open_interest_total() + contracts
                &&& final(self).is_initialized()
                &&& final(self).admin_id() == old(self).admin_id()
                &&& final(self).oracle_id() == old(self).oracle_id()
                &&& final(self).token_id() == old(self).token_id()
                &&& final(self).fee_recipient_id() == old(self).fee_recipient_id()
                &&& final(self).paused_flag() == old(self).paused_flag()
                &&& forall|sym: SymbolId| #[trigger] final(self).underlying_price(sym) == old(self).underlying_price(sym)
            },
            r is Err ==> *final(self) == *old(self),
    {
        if self.paused {
            return Err(Error::ContractPaused);
        }
        if contracts <= 0 {
            return Err(Error::ZeroContracts);
        }
        let s = match self.require_active_series(now, series_id) {
            Ok(s) => s,
            Err(e) => return Err(e),
        };
        let required_collateral: i128 = match s.option_type {
            OptionType::Call => {
                let underlying_price = match self.get_underlying_price(s.underlying) {
                    Some(p) => p,
                    None => s.strike_price,
                };
                div_toward_zero(contracts * underlying_price, PRICE_PRECISION)
            },
            OptionType::Put => {
                let nominal = div_toward_zero(contracts * s.strike_price, PRICE_PRECISION);
                div_toward_zero(nominal * MIN_COLLATERAL_RATIO, RATE_PRECISION)
            },
        };
        if collateral_amount < required_collateral {
            return Err(Error::InsufficientCollateral);
        }
        let total_premium = div_toward_zero(contracts * s.premium, PRICE_PRECISION);
        proof {
            lemma_scaled_fits(contracts * s.premium);
            lemma_fee_within(total_premium as int);
        }
        let fee = protocol_fee(total_premium);
        let writer_premium = total_premium - fee;
        let mut payments: Vec<Payment> = Vec::new();
        payments.push(Payment { from: Party::Account(writer), to: Party::Contract, amount: required_collateral });
        payments.push(Payment { from: Party::Contract, to: Party::Account(writer), amount: writer_premium });
        let pos_id = self.next_position_id();
        let position = OptionPosition {
            position_id: pos_id,
            series_id,
            owner: writer,
            side: PositionSide::Short,
            contracts,
            premium_paid: writer_premium,
            fee_paid: 0,
            collateral_locked: required_collateral,
            is_exercised: false,
            is_settled: false,
            opened_at: now,
        };
        proof {
            assert(self.active_at(series_id, now));
            assert(1 <= series_id <= self.series@.len());
            assert(s == self.series@[series_id - 1]);
        }
        let idx: usize = match self.series_index(series_id) {
            Some(i) => i,
            None => 0,
        };
        self.add_open_interest(idx, contracts);
        self.open_position(position);
        proof {
            assert(payments@ =~= write_payments(writer, required_collateral as int, writer_premium as int));
        }
        Ok((pos_id, payments))
    }
}

impl OptionsMarket {
    /// What `exercise` decides for `owner`'s position `position_id` at
    /// `now`: the payout owed, or the first check that fails.
    pub open spec fn exercise_outcome(&self, now: u64, owner: AccountId, position_id: u64) -> Result<int, Error> {
        match self.position_of(position_id) {
            None => Err(Error::PositionNotFound),
            Some(p) => if p.owner != owner {
                Err(Error::Unauthorized)
            } else if p.side != PositionSide::Long {
                Err(Error::WrongSide)
            } else if p.is_exercised {
                Err(Error::AlreadyExercised)
            } else {
                match self.series_of(p.series_id) {
                    None => Err(Error::SeriesNotFound),
                    Some(s) => if now < s.expiry {
                        Err(Error::SeriesNotExpired)
                    } else if now > s.expiry + SETTLEMENT_WINDOW {
                        Err(Error::ExerciseWindowClosed)
                    } else {
                        match s.settlement_price {
                            None => Err(Error::PriceNotSet),
                            Some(x) => {
                                let payout = payout_of(
                                    s.option_type,
                                    s.strike_price as int,
                                    x as int,
                                    p.contracts as int,
                                );
                                if payout <= 0 {
                                    Err(Error::NotInTheMoney)
                                } else {
                                    Ok(payout)
                                }
                            },
                        }
                    },
                }
            },
        }
    }

    /// The inputs on which `exercise` stays within machine integers.
    pub open spec fn exercise_fits(&self, now: u64, owner: AccountId, position_id: u64) -> bool {
        match self.position_of(position_id) {
            None => true,
            Some(p) => (p.owner == owner && p.side == PositionSide::Long && !p.is_exercised) ==> match self.series_of(
                p.series_id,
            ) {
                None => true,
                Some(s) => now >= s.expiry ==> {
                    &&& s.expiry + SETTLEMENT_WINDOW <= u64::MAX
                    &&& (now <= s.expiry + SETTLEMENT_WINDOW && s.settlement_price is Some) ==> payout_fits(
                        s.option_type,
                        s.strike_price as int,
                        s.settlement_price.unwrap() as int,
                        p.contracts as int,
                    )
                },
            },
        }
    }

    /// What `reclaim_collateral` decides for `writer`'s position
    /// `position_id`: the collateral to return, or the first check that fails.
    pub open spec fn reclaim_outcome(&self, writer: AccountId, position_id: u64) -> Result<int, Error> {
        match self.position_of(position_id) {
            None => Err(Error::PositionNotFound),
            Some(p) => if p.owner != writer {
                Err(Error::Unauthorized)
            } else if p.side != PositionSide::Short {
                Err(Error::WrongSide)
            } else if p.is_settled {
                Err(Error::AlreadySettled)
            } else {
                match self.series_of(p.series_id) {
                    None => Err(Error::SeriesNotFound),
                    Some(s) => if s.state != SeriesState::Settled {
                        Err(Error::SeriesNotExpired)
                    } else {
                        match s.settlement_price {
                            None => Err(Error::PriceNotSet),
                            Some(x) => Ok(reclaim_of(p, s, x)),
                        }
                    },
                }
            },
        }
    }

    /// The inputs on which `reclaim_collateral` stays within machine integers.
    pub open spec fn reclaim_fits(&self, writer: AccountId, position_id: u64) -> bool {
        match self.position_of(position_id) {
            None => true,
            Some(p) => (p.owner == writer && p.side == PositionSide::Short && !p.is_settled) ==> match self.series_of(
                p.series_id,
            ) {
                None => true,
                Some(s) => (s.state == SeriesState::Settled && s.settlement_price is Some) ==> {
                    &&& payout_fits(
                        s.option_type,
                        s.strike_price as int,
                        s.settlement_price.unwrap() as int,
                        p.contracts as int,
                    )
                    &&& i128::MIN <= p.collateral_locked - payout_of(
                        s.option_type,
                        s.strike_price as int,
                        s.settlement_price.unwrap() as int,
                        p.contracts as int,
                    ) <= i128::MAX
                },
            },
        }
    }

    /// What `claim_refund` decides for `owner`'s position `position_id`:
    /// the refund owed, or the first check that fails.
    pub open spec fn refund_outcome(&self, owner: AccountId, position_id: u64) -> Result<int, Error> {
        match self.position_of(position_id) {
            None => Err(Error::PositionNotFound),
            Some(p) => if p.owner != owner {
                Err(Error::Unauthorized)
            } else if p.is_settled {
                Err(Error::AlreadySettled)
            } else {
                match self.series_of(p.series_id) {
                    None => Err(Error::SeriesNotFound),
                    Some(s) => if s.state != SeriesState::Cancelled {
                        Err(Error::SeriesNotCancelled)
                    } else {
                        Ok(refund_of(p))
                    },
                }
            },
        }
    }

    /// Pays out a long position after expiry, within the settlement window,
    /// when it is in the money, and marks it exercised. The caller has
    /// already authenticated `owner`.
    pub fn exercise(&mut self, now: u64, owner: AccountId, position_id: u64) -> (r: Result<Payment, Error>)
        requires
            old(self).wf(),
            old(self).exercise_fits(now, owner, position_id),
        ensures
            final(self).wf(),
            r is Ok <==> old(self).exercise_outcome(now, owner, position_id) is Ok,
            r is Err ==> r->Err_0 == old(self).exercise_outcome(now, owner, position_id)->Err_0
                && *final(self) == *old(self),
            r is Ok ==> {
                let p = old(self).position_of(position_id).unwrap();
                let s = old(self).series_of(p.series_id).unwrap();
                &&& old(self).position_of(position_id) is Some
                &&& p.owner == owner
                &&& p.side == PositionSide::Long
                &&& !p.is_exercised
                &&& old(self).series_of(p.series_id) is Some
                &&& s.expiry <= now <= s.expiry + SETTLEMENT_WINDOW
                &&& s.settlement_price is Some
                &&& r->Ok_0.amount > 0
                &&& r->Ok_0.amount == payout_of(
                    s.option_type,
                    s.strike_price as int,
                    s.settlement_price.unwrap() as int,
                    p.contracts as int,
                )
            },
            r is Ok ==> {
                let p = old(self).position_of(position_id).unwrap();
                &&& r->Ok_0 == (Payment {
                    from: Party::Contract,
                    to: Party::Account(owner),
                    amount: old(self).exercise_outcome(now, owner, position_id)->Ok_0 as i128,
                })
                &&& final(self).position_list() == old(self).position_list().update(
                    position_id - 1,
                    (OptionPosition { is_exercised: true, ..p }),
                )
                &&& final(self).series_list() == old(self).series_list()
                &&& final(self).same_settings(&*old(self))
            },
    {
        let i = match self.position_index(position_id) {
            None => return Err(Error::PositionNotFound),
            Some(i) => i,
        };
        let p = self.positions[i];
        if p.owner != owner {
            return Err(Error::Unauthorized);
        }
        if p.side != PositionSide::Long {
            return Err(Error::WrongSide);
        }
        if p.is_exercised {
            return Err(Error::AlreadyExercised);
        }
        let si = match self.series_index(p.series_id) {
            None => return Err(Error::SeriesNotFound),
            Some(si) => si,
        };
        let s = self.series[si];
        if now < s.expiry {
            return Err(Error::SeriesNotExpired);
        }
        if now > s.expiry + SETTLEMENT_WINDOW {
            return Err(Error::ExerciseWindowClosed);
        }
        let settlement_price = match s.settlement_price {
            None => return Err(Error::PriceNotSet),
            Some(x) => x,
        };
        let payout = calc_payout(&s.option_type, s.strike_price, settlement_price, p.contracts);
        if payout <= 0 {
            return Err(Error::NotInTheMoney);
        }
        self.replace_position(i, OptionPosition { is_exercised: true, ..p });
        Ok(Payment { from: Party::Contract, to: Party::Account(owner), amount: payout })
    }

    /// Returns a writer's collateral after settlement, less the most the
    /// position can owe its longs, and marks it settled. The caller has
    /// already authenticated `writer`.
    ///
    /// Returns the amount reclaimed and the transfer that pays it (none
    /// when it is zero).
    pub fn reclaim_collateral(&mut self, writer: AccountId, position_id: u64) -> (r: Result<(i128, Vec<Payment>), Error>)
        requires
            old(self).wf(),
            old(self).reclaim_fits(writer, position_id),
        ensures
            final(self).wf(),
            r is Ok <==> old(self).reclaim_outcome(writer, position_id) is Ok,
            r is Err ==> r->Err_0 == old(self).reclaim_outcome(writer, position_id)->Err_0 && *final(self) == *old(
                self,
            ),
            r is Ok ==> {
                let p = old(self).position_of(position_id).unwrap();
                &&& old(self).position_of(position_id) is Some
                &&& p.owner == writer
                &&& p.side == PositionSide::Short
                &&& !p.is_settled
                &&& old(self).series_of(p.series_id) is Some
                &&& old(self).series_of(p.series_id).unwrap().state == SeriesState::Settled
                &&& old(self).series_of(p.series_id).unwrap().settlement_price is Some
            },
            r is Ok ==> {
                let p = old(self).position_of(position_id).unwrap();
                let amount = old(self).reclaim_outcome(writer, position_id)->Ok_0;
                &&& r->Ok_0.0 == amount
                &&& r->Ok_0.1@ == payout_to(writer, amount)
                &&& final(self).position_list() == old(self).position_list().update(
                    position_id - 1,
                    (OptionPosition { is_settled: true, ..p }),
                )
                &&& final(self).series_list() == old(self).series_list()
                &&& final(self).same_settings(&*old(self))
            },
    {
        let i = match self.position_index(position_id) {
            None => return Err(Error::PositionNotFound),
            Some(i) => i,
        };
        let p = self.positions[i];
        if p.owner != writer {
            return Err(Error::Unauthorized);
        }
        if p.side != PositionSide::Short {
            return Err(Error::WrongSide);
        }
        if p.is_settled {
            return Err(Error::AlreadySettled);
        }
        let si = match self.series_index(p.series_id) {
            None => return Err(Error::SeriesNotFound),
            Some(si) => si,
        };
        let s = self.series[si];
        if s.state != SeriesState::Settled {
            return Err(Error::SeriesNotExpired);
        }
        let settlement_price = match s.settlement_price {
            None => return Err(Error::PriceNotSet),
            Some(x) => x,
        };
        let max_loss = calc_payout(&s.option_type, s.strike_price, settlement_price, p.contracts);
        let d = p.collateral_locked - max_loss;
        let reclaim = if d > 0 { d } else { 0 };
        let mut payments: Vec<Payment> = Vec::new();
        if reclaim > 0 {
            payments.push(Payment { from: Party::Contract, to: Party::Account(writer), amount: reclaim });
        }
        self.replace_position(i, OptionPosition { is_settled: true, ..p });
        proof {
            assert(payments@ =~= payout_to(writer, reclaim as int));
        }
        Ok((reclaim, payments))
    }

    /// Refunds a position in a Cancelled series (a long its premium net of
    /// the protocol fee, a short its full collateral) and marks it settled.
    /// The caller has already authenticated `owner`.
    ///
    /// Returns the refund and the transfer that pays it (none when it is zero).
    pub fn claim_refund(&mut self, owner: AccountId, position_id: u64) -> (r: Result<(i128, Vec<Payment>), Error>)
        requires
            old(self).wf(),
        ensures
            final(self).wf(),
            r is Ok <==> old(self).refund_outcome(owner, position_id) is Ok,
            r is Err ==> r->Err_0 == old(self).refund_outcome(owner, position_id)->Err_0 && *final(self) == *old(
                self,
            ),
            r is Ok ==> old(self).position_of(position_id) is Some && old(self).series_of(
                old(self).position_of(position_id).unwrap().series_id,
            ) is Some && old(self).series_of(old(self).position_of(position_id).unwrap().series_id).unwrap().state
                == SeriesState::Cancelled,
            ({
                let p = old(self).position_of(position_id);
                &&& p is Some
                &&& p.unwrap().owner == owner
                &&& !p.unwrap().is_settled
                &&& old(self).series_of(p.unwrap().series_id) is Some
                &&& old(self).series_of(p.unwrap().series_id).unwrap().state != SeriesState::Cancelled
            }) ==> r == Err::<(i128, Vec<Payment>), Error>(Error::SeriesNotCancelled) && *final(self) == *old(self),
            r is Ok ==> {
                let p = old(self).position_of(position_id).unwrap();
                let amount = old(self).refund_outcome(owner, position_id)->Ok_0;
                &&& r->Ok_0.0 == amount
                &&& r->Ok_0.1@ == payout_to(owner, amount)
                &&& final(self).position_list() == old(self).position_list().update(
                    position_id - 1,
                    (OptionPosition { is_settled: true, ..p }),
                )
                &&& final(self).series_list() == old(self).series_list()
                &&& final(self).same_settings(&*old(self))
            },
    {
        let i = match self.position_index(position_id) {
            None => return Err(Error::PositionNotFound),
            Some(i) => i,
        };
        let p = self.positions[i];
        if p.owner != owner {
            return Err(Error::Unauthorized);
        }
        if p.is_settled {
            return Err(Error::AlreadySettled);
        }
        let si = match self.series_index(p.series_id) {
            None => return Err(Error::SeriesNotFound),
            Some(si) => si,
        };
        let s = self.series[si];
        if s.state != SeriesState::Cancelled {
            return Err(Error::SeriesNotCancelled);
        }
        let refund: i128 = match p.side {
            PositionSide::Long => {
                proof {
                    lemma_fee_within(p.premium_paid as int);
                }
                let fee = protocol_fee(p.premium_paid);
                p.premium_paid - fee
            },
            PositionSide::Short => p.collateral_locked,
        };
        let mut payments: Vec<Payment> = Vec::new();
        if refund > 0 {
            payments.push(Payment { from: Party::Contract, to: Party::Account(owner), amount: refund });
        }
        self.replace_position(i, OptionPosition { is_settled: true, ..p });
        proof {
            assert(payments@ =~= payout_to(owner, refund as int));
        }
        Ok((refund, payments))
    }
}

impl OptionsMarket {
    /// Whether `buy_option` can be called on these inputs without leaving
    /// machine integers (its precondition).
    pub fn buy_is_in_range(&self, now: u64, series_id: u64, contracts: i128, max_premium: i128) -> (r: bool)
        requires
            self.wf(),
        ensures
            r == self.buy_fits(now, series_id, contracts, max_premium),
    {
        if self.paused || contracts <= 0 {
            return true;
        }
        let s = match self.require_active_series(now, series_id) {
            Ok(s) => s,
            Err(_) => return true,
        };
        let product = match contracts.checked_mul(s.premium) {
            Some(x) => x,
            None => return false,
        };
        let cost = div_toward_zero(product, PRICE_PRECISION);
        if cost > max_premium {
            return true;
        }
        proof {
            lemma_scaled_fits(product as int);
            lemma_fee_within(cost as int);
        }
        let net = cost - protocol_fee(cost);
        s.open_interest.checked_add(contracts).is_some() && self.total_open_interest.checked_add(contracts).is_some()
            && self.total_premiums.checked_add(net).is_some() && (self.positions.len() as u64) < u64::MAX
    }

    /// Whether `write_option` can be called on these inputs without leaving
    /// machine integers (its precondition).
    pub fn write_is_in_range(&self, now: u64, series_id: u64, contracts: i128, collateral_amount: i128) -> (r: bool)
        requires
            self.wf(),
        ensures
            r == self.write_fits(now, series_id, contracts, collateral_amount),
    {
        if self.paused || contracts <= 0 {
            return true;
        }
        let s = match self.require_active_series(now, series_id) {
            Ok(s) => s,
            Err(_) => return true,
        };
        let required: i128 = match s.option_type {
            OptionType::Call => {
                let price = match self.get_underlying_price(s.underlying) {
                    Some(p) => p,
                    None => s.strike_price,
                };
                match contracts.checked_mul(price) {
                    Some(x) => div_toward_zero(x, PRICE_PRECISION),
                    None => return false,
                }
            },
            OptionType::Put => {
                let nominal = match contracts.checked_mul(s.strike_price) {
                    Some(x) => div_toward_zero(x, PRICE_PRECISION),
                    None => return false,
                };
                match nominal.checked_mul(MIN_COLLATERAL_RATIO) {
                    Some(x) => div_toward_zero(x, RATE_PRECISION),
                    None => return false,
                }
            },
        };
        if collateral_amount < required {
            return true;
        }
        contracts.checked_mul(s.premium).is_some() && s.open_interest.checked_add(contracts).is_some()
            && self.total_open_interest.checked_add(contracts).is_some() && (self.positions.len() as u64) < u64::MAX
    }

    /// Whether `exercise` can be called on these inputs without leaving
    /// machine integers (its precondition).
    pub fn exercise_is_in_range(&self, now: u64, owner: AccountId, position_id: u64) -> (r: bool)
        requires
            self.wf(),
        ensures
            r == self.exercise_fits(now, owner, position_id),
    {
        let p = match self.get_position(position_id) {
            Some(p) => p,
            None => return true,
        };
        if p.owner != owner || p.side != PositionSide::Long || p.is_exercised {
            return true;
        }
        let s = match self.get_series(p.series_id) {
            Some(s) => s,
            None => return true,
        };
        if now < s.expiry {
            return true;
        }
        let window_end = match s.expiry.checked_add(SETTLEMENT_WINDOW) {
            Some(e) => e,
            None => return false,
        };
        if now > window_end {
            return true;
        }
        match s.settlement_price {
            None => true,
            Some(x) => payout_in_range(s.option_type, s.strike_price, x, p.contracts),
        }
    }

    /// Whether `reclaim_collateral` can be called on these inputs without
    /// leaving machine integers (its precondition).
    pub fn reclaim_is_in_range(&self, writer: AccountId, position_id: u64) -> (r: bool)
        requires
            self.wf(),
        ensures
            r == self.reclaim_fits(writer, position_id),
    {
        let p = match self.get_position(position_id) {
            Some(p) => p,
            None => return true,
        };
        if p.owner != writer || p.side != PositionSide::Short || p.is_settled {
            return true;
        }
        let s = match self.get_series(p.series_id) {
            Some(s) => s,
            None => return true,
        };
        if s.state != SeriesState::Settled {
            return true;
        }
        match s.settlement_price {
            None => true,
            Some(x) => {
                if !payout_in_range(s.option_type, s.strike_price, x, p.contracts) {
                    return false;
                }
                let owed = calc_payout(&s.option_type, s.strike_price, x, p.contracts);
                p.collateral_locked.checked_sub(owed).is_some()
            },
        }
    }
}

/// Whether `calc_payout` can be called on these inputs without leaving
/// machine integers (its precondition).
pub fn payout_in_range(option_type: OptionType, strike: i128, settlement: i128, contracts: i128) -> (r: bool)
    ensures
        r == payout_fits(option_type, strike as int, settlement as int, contracts as int),
{
    let d = match option_type {
        OptionType::Call => settlement.checked_sub(strike),
        OptionType::Put => strike.checked_sub(settlement),
    };
    match d {
        None => false,
        Some(d) => {
            let intrinsic = if d > 0 { d } else { 0 };
            contracts.checked_mul(intrinsic).is_some()
        },
    }
}

/// Whether `p` describes a state an options market can be in: nothing
/// listed, priced or counted before initialization, series and positions
/// numbered in order, at most `MAX_SERIES_PER_UNDERLYING` series per
/// underlying, a total open interest that is the sum over the series, and
/// one recorded price per symbol.
pub open spec fn parts_valid(p: &MarketParts) -> bool {
    &&& p.config is None ==> {
        &&& p.series@.len() == 0
        &&& p.positions@.len() == 0
        &&& p.prices@.len() == 0
        &&& p.total_premiums == 0
        &&& p.total_open_interest == 0
    }
    &&& series_numbered(p.series@)
    &&& series_capped(p.series@)
    &&& open_interest_counted(p.series@, p.total_open_interest)
    &&& positions_ok(p.positions@)
    &&& symbols_distinct(p.prices@)
}

fn check_series_numbered(series: &Vec<OptionSeries>) -> (r: bool)
    ensures
        r == series_numbered(series@),
{
    let mut i: usize = 0;
    while i < series.len()
        invariant
            i <= series@.len(),
            forall|k: int| 0 <= k < i ==> #[trigger] series@[k].series_id == k + 1,
        decreases series@.len() - i,
    {
        if series[i].series_id != i as u64 + 1 {
            return false;
        }
        i = i + 1;
    }
    true
}

fn check_series_capped(series: &Vec<OptionSeries>) -> (r: bool)
    ensures
        r == series_capped(series@),
{
    let mut i: usize = 0;
    while i < series.len()
        invariant
            i <= series@.len(),
            forall|k: int|
                0 <= k < i ==> #[trigger] listed_for(series@, series@[k].underlying) <= MAX_SERIES_PER_UNDERLYING,
        decreases series@.len() - i,
    {
        if count_listed(series, series[i].underlying) > MAX_SERIES_PER_UNDERLYING as u64 {
            return false;
        }
        i = i + 1;
    }
    proof {
        assert forall|x: SymbolId| #[trigger] listed_for(series@, x) <= MAX_SERIES_PER_UNDERLYING by {
            if exists|k: int| 0 <= k < series@.len() && series@[k].underlying == x {
                let k = choose|k: int| 0 <= k < series@.len() && series@[k].underlying == x;
                assert(listed_for(series@, series@[k].underlying) <= MAX_SERIES_PER_UNDERLYING);
            } else {
                lemma_listed_absent(series@, x);
            }
        }
    }
    true
}

fn check_open_interest(series: &Vec<OptionSeries>, total: i128) -> (r: bool)
    ensures
        r == open_interest_counted(series@, total),
{
    let mut acc: i128 = 0;
    let mut i: usize = 0;
    while i < series.len()
        invariant
            i <= series@.len(),
            0 <= acc,
            acc == open_interest_sum(series@.subrange(0, i as int)),
            forall|k: int| 0 <= k < i ==> #[trigger] series@[k].open_interest >= 0,
        decreases series@.len() - i,
    {
        let oi = series[i].open_interest;
        assert(series@.subrange(0, i as int + 1).drop_last() =~= series@.subrange(0, i as int));
        if oi < 0 {
            assert(!open_interest_counted(series@, total)) by {
                assert(series@[i as int].open_interest < 0);
            }
            return false;
        }
        match acc.checked_add(oi) {
            Some(x) => {
                acc = x;
            },
            None => {
                assert(!open_interest_counted(series@, total)) by {
                    if open_interest_counted(series@, total) {
                        lemma_oi_prefix_within(series@, i as int + 1);
                    }
                }
                return false;
            },
        }
        i = i + 1;
    }
    assert(series@.subrange(0, series@.len() as int) =~= series@);
    acc == total
}

fn check_positions(positions: &Vec<OptionPosition>) -> (r: bool)
    ensures
        r == positions_ok(positions@),
{
    let mut i: usize = 0;
    while i < positions.len()
        invariant
            i <= positions@.len(),
            forall|k: int| 0 <= k < i ==> #[trigger] positions@[k].position_id == k + 1,
            forall|k: int|
                0 <= k < i && (#[trigger] positions@[k]).side == PositionSide::Long ==> i128::MIN
                    <= positions@[k].premium_paid * 5 <= i128::MAX,
        decreases positions@.len() - i,
    {
        let p = positions[i];
        if p.position_id != i as u64 + 1 {
            return false;
        }
        if p.side == PositionSide::Long && p.premium_paid.checked_mul(5).is_none() {
            return false;
        }
        i = i + 1;
    }
    true
}

fn check_symbols_distinct(prices: &Vec<UnderlyingPrice>) -> (r: bool)
    ensures
        r == symbols_distinct(prices@),
{
    let n = prices.len();
    let mut i: usize = 0;
    while i < n
        invariant
            n == prices@.len(),
            i <= n,
            forall|a: int, b: int| 0 <= a < i && a < b < n ==> prices@[a].underlying != prices@[b].underlying,
        decreases n - i,
    {
        let mut j: usize = i + 1;
        while j < n
            invariant
                n == prices@.len(),
                i < n,
                i + 1 <= j <= n,
                forall|a: int, b: int| 0 <= a < i && a < b < n ==> prices@[a].underlying != prices@[b].underlying,
                forall|b: int| i < b < j ==> prices@[i as int].underlying != prices@[b].underlying,
            decreases n - j,
        {
            if prices[i].underlying == prices[j].underlying {
                assert(!symbols_distinct(prices@)) by {
                    assert(prices@[i as int].underlying == prices@[j as int].underlying);
                }
                return false;
            }
            j = j + 1;
        }
        i = i + 1;
    }
    true
}

impl OptionsMarket {
    /// Restores a market from its persisted fields, provided they describe a
    /// state a market can be in; `None` otherwise. Each account's position
    /// list is rebuilt from the positions' owners.
    pub fn from_parts(parts: MarketParts) -> (r: Option<OptionsMarket>)
        ensures
            r is Some <==> parts_valid(&parts),
            r is Some ==> {
                let m = r.unwrap();
                &&& m.wf()
                &&& m.is_initialized() == (parts.config is Some)
                &&& m.admin_id() == parts.config.unwrap().admin
                &&& m.oracle_id() == parts.config.unwrap().oracle
                &&& m.token_id() == parts.config.unwrap().collateral_token
                &&& m.fee_recipient_id() == parts.config.unwrap().fee_recipient
                &&& m.paused_flag() == parts.paused
                &&& m.series_list() == parts.series@
                &&& m.position_list() == parts.positions@
                &&& m.premiums_collected() == parts.total_premiums
                &&& m.open_interest_total() == parts.total_open_interest
                &&& forall|sym: SymbolId| #[trigger] m.underlying_price(sym) == price_lookup(parts.prices@, sym)
            },
    {
        if parts.config.is_none() {
            if parts.series.len() != 0 || parts.positions.len() != 0 || parts.prices.len() != 0
                || parts.total_premiums != 0 || parts.total_open_interest != 0 {
                return None;
            }
        }
        if !check_series_numbered(&parts.series) || !check_series_capped(&parts.series) || !check_open_interest(
            &parts.series,
            parts.total_open_interest,
        ) || !check_positions(
            &parts.positions,
        ) || !check_symbols_distinct(
            &parts.prices,
        ) {
            return None;
        }
        let positions = parts.positions;
        let mut m = OptionsMarket {
            config: parts.config,
            paused: parts.paused,
            series: parts.series,
            positions: Vec::new(),
            user_positions: Vec::new(),
            prices: parts.prices,
            total_premiums: parts.total_premiums,
            total_open_interest: parts.total_open_interest,
        };
        let mut k: usize = 0;
        while k < positions.len()
            invariant
                m.wf(),
                k <= positions@.len(),
                positions_ok(positions@),
                positions@.len() > 0 ==> m.config is Some,
                m.positions@ == positions@.subrange(0, k as int),
                m.config == parts.config,
                m.paused == parts.paused,
                m.series@ == parts.series@,
                m.prices@ == parts.prices@,
                m.total_premiums == parts.total_premiums,
                m.total_open_interest == parts.total_open_interest,
            decreases positions@.len() - k,
        {
            let p = positions[k];
            m.open_position(p);
            k = k + 1;
            proof {
                assert(m.positions@ =~= positions@.subrange(0, k as int));
            }
        }
        proof {
            assert(positions@.subrange(0, positions@.len() as int) =~= positions@);
        }
        Some(m)
    }

    /// The persisted fields of this market.
    pub fn into_parts(self) -> (r: MarketParts)
        requires
            self.wf(),
        ensures
            parts_valid(&r),
            (r.config is Some) == self.is_initialized(),
            self.is_initialized() ==> r.config == Some(
                (MarketConfig {
                    admin: self.admin_id(),
                    oracle: self.oracle_id(),
                    collateral_token: self.token_id(),
                    fee_recipient: self.fee_recipient_id(),
                }),
            ),
            r.paused == self.paused_flag(),
            r.series@ == self.series_list(),
            r.positions@ == self.position_list(),
            r.total_premiums == self.premiums_collected(),
            r.total_open_interest == self.open_interest_total(),
            forall|sym: SymbolId| #[trigger] price_lookup(r.prices@, sym) == self.underlying_price(sym),
    {
        MarketParts {
            config: self.config,
            paused: self.paused,
            series: self.series,
            positions: self.positions,
            prices: self.prices,
            total_premiums: self.total_premiums,
            total_open_interest: self.total_open_interest,
        }
    }
}

/// No underlying ever has more than `MAX_SERIES_PER_UNDERLYING` series
/// listed, cancelled and settled ones included.
pub proof fn lemma_series_per_underlying_capped(m: &OptionsMarket, sym: SymbolId)
    requires
        m.wf(),
    ensures
        listed_for(m.series_list(), sym) <= MAX_SERIES_PER_UNDERLYING,
{
}

/// The total open interest reported by `get_stats` is the sum of every
/// series' open interest, and no series' open interest is negative.
pub proof fn lemma_open_interest_is_sum_of_series(m: &OptionsMarket)
    requires
        m.wf(),
    ensures
        m.open_interest_total() == open_interest_sum(m.series_list()),
        forall|i: int| 0 <= i < m.series_list().len() ==> #[trigger] m.series_list()[i].open_interest >= 0,
{
}

/// Pausing never changes what exercising a position does: two markets with
/// the same series and positions, paused or not, decide every exercise the
/// same way and admit the same inputs.
pub proof fn lemma_exercise_ignores_pause(
    m0: &OptionsMarket,
    m1: &OptionsMarket,
    now: u64,
    owner: AccountId,
    position_id: u64,
)
    requires
        m0.series_list() == m1.series_list(),
        m0.position_list() == m1.position_list(),
    ensures
        m0.exercise_outcome(now, owner, position_id) == m1.exercise_outcome(now, owner, position_id),
        m0.exercise_fits(now, owner, position_id) == m1.exercise_fits(now, owner, position_id),
{
}

/// A refund is granted only on a cancelled series: whenever a refund
/// succeeds, the position's series is Cancelled, and on a series in any
/// other state (Active, Expired or Settled) the refund is refused with
/// `SeriesNotCancelled` once the owner and settled checks pass. What is
/// refunded is the long's premium net of the protocol fee, or the short's
/// full collateral.
pub proof fn lemma_refund_only_when_cancelled(m: &OptionsMarket, owner: AccountId, position_id: u64)
    requires
        m.wf(),
    ensures
        m.refund_outcome(owner, position_id) is Ok ==> {
            let p = m.position_of(position_id).unwrap();
            &&& m.position_of(position_id) is Some
            &&& p.owner == owner
            &&& !p.is_settled
            &&& m.series_of(p.series_id) is Some
            &&& m.series_of(p.series_id).unwrap().state == SeriesState::Cancelled
            &&& p.side == PositionSide::Long && p.premium_paid >= 0 ==> m.refund_outcome(owner, position_id)->Ok_0
                == p.premium_paid - p.premium_paid * 5 / 1000
            &&& p.side == PositionSide::Short ==> m.refund_outcome(owner, position_id)->Ok_0
                == p.collateral_locked
        },
        ({
            let p = m.position_of(position_id);
            &&& p is Some
            &&& p.unwrap().owner == owner
            &&& !p.unwrap().is_settled
            &&& m.series_of(p.unwrap().series_id) is Some
            &&& m.series_of(p.unwrap().series_id).unwrap().state != SeriesState::Cancelled
        }) ==> m.refund_outcome(owner, position_id) == Err::<int, Error>(Error::SeriesNotCancelled),
{
}

/// Collateral is reclaimed only from an unsettled short position of the
/// caller's own, in a series whose settlement price has been set.
pub proof fn lemma_reclaim_only_after_settlement(m: &OptionsMarket, writer: AccountId, position_id: u64)
    requires
        m.wf(),
    ensures
        m.reclaim_outcome(writer, position_id) is Ok ==> {
            let p = m.position_of(position_id).unwrap();
            &&& m.position_of(position_id) is Some
            &&& p.owner == writer
            &&& p.side == PositionSide::Short
            &&& !p.is_settled
            &&& m.series_of(p.series_id) is Some
            &&& m.series_of(p.series_id).unwrap().state == SeriesState::Settled
            &&& m.series_of(p.series_id).unwrap().settlement_price is Some
            &&& 0 <= m.reclaim_outcome(writer, position_id)->Ok_0
        },
{
}

/// An exercise pays only an unexercised long position of the caller's own,
/// from expiry until the end of the settlement window, once a settlement
/// price is set, and pays a positive amount.
pub proof fn lemma_exercise_only_in_window(m: &OptionsMarket, now: u64, owner: AccountId, position_id: u64)
    requires
        m.wf(),
    ensures
        m.exercise_outcome(now, owner, position_id) is Ok ==> {
            let p = m.position_of(position_id).unwrap();
            let s = m.series_of(p.series_id).unwrap();
            &&& m.position_of(position_id) is Some
            &&& p.owner == owner
            &&& p.side == PositionSide::Long
            &&& !p.is_exercised
            &&& m.series_of(p.series_id) is Some
            &&& s.expiry <= now <= s.expiry + SETTLEMENT_WINDOW
            &&& s.settlement_price is Some
            &&& m.exercise_outcome(now, owner, position_id)->Ok_0 > 0
        },
{
}

/// A long position is paid at most once: once exercise has succeeded, any
/// later exercise of it by its owner is refused with `AlreadyExercised`.
pub proof fn lemma_exercise_at_most_once(
    m0: &OptionsMarket,
    m1: &OptionsMarket,
    now: u64,
    later: u64,
    owner: AccountId,
    position_id: u64,
)
    requires
        m0.exercise_outcome(now, owner, position_id) is Ok,
        m1.position_list() == m0.position_list().update(
            position_id - 1,
            (OptionPosition { is_exercised: true, ..m0.position_of(position_id).unwrap() }),
        ),
    ensures
        m1.exercise_outcome(later, owner, position_id) == Err::<int, Error>(Error::AlreadyExercised),
{
}

/// A position is settled at most once: after a successful reclaim or
/// refund, both reclaiming and refunding it again are refused with
/// `AlreadySettled` (once ownership and side checks pass).
pub proof fn lemma_settled_at_most_once(m0: &OptionsMarket, m1: &OptionsMarket, owner: AccountId, position_id: u64)
    requires
        m0.reclaim_outcome(owner, position_id) is Ok || m0.refund_outcome(owner, position_id) is Ok,
        m1.position_list() == m0.position_list().update(
            position_id - 1,
            (OptionPosition { is_settled: true, ..m0.position_of(position_id).unwrap() }),
        ),
    ensures
        m1.refund_outcome(owner, position_id) == Err::<int, Error>(Error::AlreadySettled),
        m0.position_of(position_id).unwrap().side == PositionSide::Short ==> m1.reclaim_outcome(owner, position_id)
            == Err::<int, Error>(Error::AlreadySettled),
{
}

/// Settlement splits a writer's collateral: whenever it covers the most the
/// position can owe, what the writer reclaims plus that amount is exactly
/// the collateral; otherwise the writer reclaims nothing.
pub proof fn lemma_reclaim_splits_collateral(p: OptionPosition, s: OptionSeries, settlement: i128)
    ensures
        ({
            let owed = payout_of(s.option_type, s.strike_price as int, settlement as int, p.contracts as int);
            &&& p.collateral_locked >= owed ==> reclaim_of(p, s, settlement) + owed == p.collateral_locked
            &&& p.collateral_locked < owed ==> reclaim_of(p, s, settlement) == 0
            &&& reclaim_of(p, s, settlement) >= 0
        }),
{
}

/// A long's refund on cancellation never exceeds the premium it paid and is
/// never negative: it is the premium less the protocol fee.
pub proof fn lemma_refund_within_premium(p: OptionPosition)
    requires
        p.side == PositionSide::Long,
        p.premium_paid >= 0,
        p.premium_paid * 5 <= i128::MAX,
    ensures
        0 <= refund_of(p) <= p.premium_paid,
        refund_of(p) == p.premium_paid - protocol_fee_of(p.premium_paid as int),
{
    lemma_fee_within(p.premium_paid as int);
}

/// A cash-secured put is fully covered: for whole contracts, a non-negative
/// strike and any non-negative settlement price, the collateral a writer
/// locks is at least the most the position can ever pay out.
pub proof fn lemma_put_collateral_covers_payout(s: OptionSeries, n: int, settlement: int, price: Option<i128>)
    requires
        s.option_type == OptionType::Put,
        n >= 0,
        s.strike_price >= 0,
        settlement >= 0,
    ensures
        payout_of(OptionType::Put, s.strike_price as int, settlement, n * PRICE_PRECISION) <= required_collateral(
            s,
            n * PRICE_PRECISION,
            price,
        ),
{
    let k = s.strike_price as int;
    let p = PRICE_PRECISION as int;
    crate::options_market::math::lemma_whole_contracts_payout(OptionType::Put, k, settlement, n);
    assert((n * p) * k == p * (n * k)) by (nonlinear_arith);
    assert(n * k >= 0) by (nonlinear_arith)
        requires
            n >= 0,
            k >= 0,
    ;
    vstd::arithmetic::div_mod::lemma_div_multiples_vanish(n * k, p);
    let nk = n * k;
    let v = intrinsic_value(OptionType::Put, k, settlement);
    assert(n * v <= nk) by (nonlinear_arith)
        requires
            n >= 0,
            0 <= v <= k,
            nk == n * k,
    ;
    let r = RATE_PRECISION as int;
    assert(nk * MIN_COLLATERAL_RATIO == r * nk + nk * 100_000_000);
    vstd::arithmetic::div_mod::lemma_div_multiples_vanish_fancy(nk, 0, r);
    vstd::arithmetic::div_mod::lemma_div_is_ordered(r * nk, nk * MIN_COLLATERAL_RATIO, r);
    vstd::arithmetic::div_mod::lemma_div_multiples_vanish(nk, r);
}

} // verus!
