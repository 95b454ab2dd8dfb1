//! Mathematical model of the loan manager: the contract state as plain
//! values, its invariant, and each request as a function from state and
//! request to the next state and the token transfers, or the refusal.
use vstd::prelude::*;

use crate::arith::clamp128;
use crate::constants::{
    BPS_DENOMINATOR, MAX_CONFIGURABLE_BONUS_BPS, MAX_LIQ_THRESHOLD_BPS, MAX_SANE_PRICE,
};
use crate::liquidation::{min_int, plan_spec, share_of, value_of, LiquidationPlan, RepayMode};
use crate::oracle::{
    answer_valid, empty_twap, observe_spec, twap_spec, twap_wf, twap_wf_computable, TwapView,
};
use crate::storage::{PriceResolution, PriceSource};
use crate::storage::{
    default_liq_params, empty_position, has_key, key_index, keys_distinct, lookup, remove_key,
    remove_key_facts, sum, sum_nonneg, sum_push, sum_remove, sum_update, upsert, upsert_facts,
    AccountId, LiqParams, Market, Position,
};

verus! {

/// Why a request was refused.
#[derive(Clone, Copy, Debug, PartialEq, Eq, Structural)]
pub enum LoanError {
    AlreadyInitialized,
    AdminNotSet,
    Unauthorized,
    InvalidLiquidationThreshold,
    SameTokens,
    BonusParamsTooHigh,
    BaseBonusExceedsMax,
    Paused,
    MarketNotInitialized,
    InvalidAmount,
    InsufficientDepositorBalance,
    InsufficientPoolLiquidity,
    InsufficientCollateral,
    NothingToRepay,
    WithdrawalUndercollateralizes,
    SelfLiquidation,
    NotLiquidatable,
    NoValidPriceSource,
    InvalidPrice,
    ArithmeticOverflow,
}

/// The text of each refusal, as the contract reports it.
pub open spec fn error_text(e: LoanError) -> Seq<char> {
    match e {
        LoanError::AlreadyInitialized => "already initialized"@,
        LoanError::AdminNotSet => "admin not set"@,
        LoanError::Unauthorized => "unauthorized"@,
        LoanError::InvalidLiquidationThreshold => "invalid liquidation threshold"@,
        LoanError::SameTokens => "collateral and debt tokens must differ"@,
        LoanError::BonusParamsTooHigh => "bonus parameters exceed maximum"@,
        LoanError::BaseBonusExceedsMax => "base bonus cannot exceed max bonus"@,
        LoanError::Paused => "contract is paused"@,
        LoanError::MarketNotInitialized => "market not initialized"@,
        LoanError::InvalidAmount => "invalid amount"@,
        LoanError::InsufficientDepositorBalance => "insufficient depositor balance"@,
        LoanError::InsufficientPoolLiquidity => "insufficient pool liquidity"@,
        LoanError::InsufficientCollateral => "insufficient collateral"@,
        LoanError::NothingToRepay => "nothing to repay"@,
        LoanError::WithdrawalUndercollateralizes => "withdrawal would undercollateralize position"@,
        LoanError::SelfLiquidation => "cannot self-liquidate"@,
        LoanError::NotLiquidatable => "position not liquidatable"@,
        LoanError::NoValidPriceSource => "no valid price source"@,
        LoanError::InvalidPrice => "invalid price"@,
        LoanError::ArithmeticOverflow => "arithmetic overflow"@,
    }
}

impl LoanError {
    /// The text of the refusal, as the contract reports it.
    pub fn message(&self) -> (r: &'static str)
        ensures
            r@ == error_text(*self),
    {
        match self {
            LoanError::AlreadyInitialized => "already initialized",
            LoanError::AdminNotSet => "admin not set",
            LoanError::Unauthorized => "unauthorized",
            LoanError::InvalidLiquidationThreshold => "invalid liquidation threshold",
            LoanError::SameTokens => "collateral and debt tokens must differ",
            LoanError::BonusParamsTooHigh => "bonus parameters exceed maximum",
            LoanError::BaseBonusExceedsMax => "base bonus cannot exceed max bonus",
            LoanError::Paused => "contract is paused",
            LoanError::MarketNotInitialized => "market not initialized",
            LoanError::InvalidAmount => "invalid amount",
            LoanError::InsufficientDepositorBalance => "insufficient depositor balance",
            LoanError::InsufficientPoolLiquidity => "insufficient pool liquidity",
            LoanError::InsufficientCollateral => "insufficient collateral",
            LoanError::NothingToRepay => "nothing to repay",
            LoanError::WithdrawalUndercollateralizes => "withdrawal would undercollateralize position",
            LoanError::SelfLiquidation => "cannot self-liquidate",
            LoanError::NotLiquidatable => "position not liquidatable",
            LoanError::NoValidPriceSource => "no valid price source",
            LoanError::InvalidPrice => "invalid price",
            LoanError::ArithmeticOverflow => "arithmetic overflow",
        }
    }
}

/// A token movement that the host must carry out for a successful request.
#[derive(Clone, Copy, Debug, PartialEq, Eq, Structural)]
pub struct Transfer {
    pub token: AccountId,
    pub from: AccountId,
    pub to: AccountId,
    pub amount: i128,
}

/// What the configured oracles answered for one asset: `(price, timestamp)`
/// from the primary and from the secondary oracle, `None` when the call
/// failed. An answer is only consulted when the matching oracle is
/// configured, and the secondary only when the primary answer is unusable.
#[derive(Clone, Copy, Debug)]
pub struct PriceFeed {
    pub primary: Option<(i128, u64)>,
    pub secondary: Option<(i128, u64)>,
}

/// Public liquidation outcome, returned for off-chain indexing.
#[derive(Clone, Copy, Debug, PartialEq, Eq, Structural)]
pub struct LiquidationResult {
    pub repay_units: i128,
    pub seize_units: i128,
    pub bonus_bps: u32,
    pub bad_debt_socialized: i128,
}

/// A completed liquidation: its outcome, the debt written off as bad debt,
/// and the token movements to perform (the liquidator's repayment into the
/// pool and the seized collateral paid out to the liquidator).
#[derive(Clone, Copy, Debug, PartialEq, Eq)]
pub struct Liquidation {
    pub result: LiquidationResult,
    pub bad_debt_units: i128,
    pub repay_transfer: Option<Transfer>,
    pub seize_transfer: Option<Transfer>,
}

/// Sentinel repay amount for full-liquidation mode.
pub const FULL_REPAY_SENTINEL: i128 = 170141183460469231731687303715884105727;

/// Mathematical view of the contract state.
pub struct PoolState {
    pub contract_id: AccountId,
    pub admin: Option<AccountId>,
    pub paused: bool,
    pub market: Option<Market>,
    pub primary_oracle: Option<AccountId>,
    pub secondary_oracle: Option<AccountId>,
    /// Borrower positions keyed by account.
    pub positions: Seq<(AccountId, Position)>,
    /// Liquidity providers in registration order with their balances.
    pub depositors: Seq<(AccountId, i128)>,
    pub total_deposits: i128,
    pub total_borrowed: i128,
    /// TWAP accumulators keyed by asset.
    pub twaps: Seq<(AccountId, TwapView)>,
    pub liq_params: LiqParams,
    pub twap_fallback_count: u32,
}

/// The debts of a position list.
pub open spec fn debts(s: Seq<(AccountId, Position)>) -> Seq<int> {
    s.map_values(|e: (AccountId, Position)| e.1.debt as int)
}

/// The balances of a depositor list.
pub open spec fn balances(s: Seq<(AccountId, i128)>) -> Seq<int> {
    s.map_values(|e: (AccountId, i128)| e.1 as int)
}

/// Position of `user` (the empty position when none is stored).
pub open spec fn position_of(s: PoolState, user: AccountId) -> Position {
    match lookup(s.positions, user) {
        Some(p) => p,
        None => empty_position(),
    }
}

/// Liquidity balance of `depositor` (zero when not registered).
pub open spec fn balance_of(s: PoolState, depositor: AccountId) -> i128 {
    match lookup(s.depositors, depositor) {
        Some(b) => b,
        None => 0,
    }
}

/// TWAP accumulator of `asset` (unseeded when none is stored).
pub open spec fn twap_of(s: PoolState, asset: AccountId) -> TwapView {
    match lookup(s.twaps, asset) {
        Some(t) => t,
        None => crate::oracle::empty_twap(),
    }
}

/// Liquidation parameters that the engine accepts.
pub open spec fn liq_params_valid(p: LiqParams) -> bool {
    &&& p.base_bonus_bps <= p.max_bonus_bps
    &&& p.max_bonus_bps <= MAX_CONFIGURABLE_BONUS_BPS
    &&& p.penalty_cap_bps <= MAX_CONFIGURABLE_BONUS_BPS
}

/// Market configurations that the admin can set.
pub open spec fn market_valid(m: Market) -> bool {
    &&& 0 < m.liq_threshold_bps <= MAX_LIQ_THRESHOLD_BPS
    &&& m.collateral_token != m.debt_token
}

/// The state invariant: keyed lists without duplicates, non-negative
/// positions and balances, pool totals that equal the sums they account
/// for, borrowing never beyond deposits, well-formed accumulators and valid
/// configuration.
pub open spec fn pool_wf(s: PoolState) -> bool {
    &&& keys_distinct(s.positions)
    &&& keys_distinct(s.depositors)
    &&& keys_distinct(s.twaps)
    &&& forall|i: int|
        0 <= i < s.positions.len() ==> #[trigger] s.positions[i].1.collateral >= 0
            && s.positions[i].1.debt >= 0
    &&& forall|i: int| 0 <= i < s.depositors.len() ==> #[trigger] s.depositors[i].1 >= 0
    &&& forall|i: int| 0 <= i < s.twaps.len() ==> twap_wf(#[trigger] s.twaps[i].1)
    &&& s.total_borrowed == sum(debts(s.positions))
    &&& s.total_deposits == sum(balances(s.depositors))
    &&& s.total_borrowed <= s.total_deposits
    &&& liq_params_valid(s.liq_params)
    &&& (s.market matches Some(m) ==> market_valid(m))
}

/// A fresh, unconfigured contract living at `contract_id`.
pub open spec fn fresh_state(contract_id: AccountId) -> PoolState {
    PoolState {
        contract_id,
        admin: None,
        paused: false,
        market: None,
        primary_oracle: None,
        secondary_oracle: None,
        positions: Seq::empty(),
        depositors: Seq::empty(),
        total_deposits: 0,
        total_borrowed: 0,
        twaps: Seq::empty(),
        liq_params: default_liq_params(),
        twap_fallback_count: 0,
    }
}

/// Admin check: the stored admin must exist and equal the caller.
pub open spec fn admin_check(s: PoolState, admin: AccountId) -> Result<(), LoanError> {
    match s.admin {
        None => Err(LoanError::AdminNotSet),
        Some(a) => if a == admin {
            Ok(())
        } else {
            Err(LoanError::Unauthorized)
        },
    }
}

/// The usable price from one link of the chain, if the oracle is
/// configured and its answer passes validation.
pub open spec fn direct_price(oracle: Option<AccountId>, answer: Option<(i128, u64)>, now: u64) -> Option<i128> {
    match (oracle, answer) {
        (Some(_), Some((price, ts))) => if answer_valid(price, ts, now) {
            Some(price)
        } else {
            None
        },
        _ => None,
    }
}

/// Price resolution through the failover chain: primary oracle, then
/// secondary oracle, then the TWAP of previously recorded observations.
pub open spec fn resolution_spec(s: PoolState, asset: AccountId, now: u64, feed: PriceFeed) -> Result<PriceResolution, LoanError> {
    match direct_price(s.primary_oracle, feed.primary, now) {
        Some(price) => Ok(PriceResolution { price, source: PriceSource::Primary }),
        None => match direct_price(s.secondary_oracle, feed.secondary, now) {
            Some(price) => Ok(PriceResolution { price, source: PriceSource::Secondary }),
            None => if s.twap_fallback_count == u32::MAX {
                Err(LoanError::ArithmeticOverflow)
            } else {
                match twap_spec(twap_of(s, asset), now) {
                    Some(price) => Ok(PriceResolution { price, source: PriceSource::Twap }),
                    None => Err(LoanError::NoValidPriceSource),
                }
            },
        },
    }
}

/// State after recording an observation of `price` for `asset` at `now`.
pub open spec fn observed_state(s: PoolState, asset: AccountId, price: i128, now: u64) -> PoolState {
    PoolState { twaps: upsert(s.twaps, asset, observe_spec(twap_of(s, asset), price, now)), ..s }
}

/// State after a resolution: a direct answer feeds the TWAP accumulator, a
/// TWAP fallback bumps the fallback counter.
pub open spec fn resolved_state(s: PoolState, asset: AccountId, now: u64, r: PriceResolution) -> PoolState {
    match r.source {
        PriceSource::Twap => PoolState { twap_fallback_count: (s.twap_fallback_count + 1) as u32, ..s },
        _ => observed_state(s, asset, r.price, now),
    }
}

/// The state with the fallback counter set to `c`.
pub open spec fn with_fallbacks(s: PoolState, c: u32) -> PoolState {
    PoolState { twap_fallback_count: c, ..s }
}

/// A successful resolution: direct answers are positive and a fallback
/// leaves room in the counter.
pub proof fn resolution_facts(s: PoolState, asset: AccountId, now: u64, feed: PriceFeed)
    requires
        resolution_spec(s, asset, now, feed) is Ok,
    ensures
        ({
            let r = resolution_spec(s, asset, now, feed)->Ok_0;
            &&& r.source != PriceSource::Twap ==> r.price > 0
            &&& r.source == PriceSource::Twap ==> s.twap_fallback_count < u32::MAX
        }),
{
}

/// Resolution followed by the sanity check of call sites that need a
/// price in `1..=MAX_SANE_PRICE`.
pub open spec fn checked_resolution(s: PoolState, asset: AccountId, now: u64, feed: PriceFeed) -> Result<PriceResolution, LoanError> {
    match resolution_spec(s, asset, now, feed) {
        Ok(r) => if r.price <= 0 || r.price > MAX_SANE_PRICE {
            Err(LoanError::InvalidPrice)
        } else {
            Ok(r)
        },
        Err(e) => Err(e),
    }
}

/// One resolution, sanity-checked or not.
pub open spec fn resolution_step(s: PoolState, asset: AccountId, now: u64, feed: PriceFeed, checked: bool) -> Result<PriceResolution, LoanError> {
    if checked {
        checked_resolution(s, asset, now, feed)
    } else {
        resolution_spec(s, asset, now, feed)
    }
}

/// Resolving the collateral price, then the debt price on the state that
/// the first resolution left.
pub open spec fn pair_resolution(s: PoolState, coll: AccountId, debt: AccountId, now: u64, coll_feed: PriceFeed, debt_feed: PriceFeed, checked: bool) -> Result<(PriceResolution, PriceResolution), LoanError> {
    match resolution_step(s, coll, now, coll_feed, checked) {
        Err(e) => Err(e),
        Ok(r1) => match resolution_step(resolved_state(s, coll, now, r1), debt, now, debt_feed, checked) {
            Err(e) => Err(e),
            Ok(r2) => Ok((r1, r2)),
        },
    }
}

/// State after both resolutions.
pub open spec fn pair_state(s: PoolState, coll: AccountId, debt: AccountId, now: u64, r1: PriceResolution, r2: PriceResolution) -> PoolState {
    resolved_state(resolved_state(s, coll, now, r1), debt, now, r2)
}

/// Recording an observation for one asset leaves every other asset's
/// accumulator as it was.
pub proof fn observed_state_other(s: PoolState, asset: AccountId, price: i128, now: u64, other: AccountId)
    requires
        keys_distinct(s.twaps),
        asset != other,
    ensures
        twap_of(observed_state(s, asset, price, now), other) == twap_of(s, other),
{
    upsert_facts(s.twaps, asset, observe_spec(twap_of(s, asset), price, now));
}

/// The second resolution of a pair sees the first only through the
/// fallback counter.
pub(crate) proof fn second_resolution(s: PoolState, coll: AccountId, debt: AccountId, now: u64, r1: PriceResolution, feed: PriceFeed)
    requires
        keys_distinct(s.twaps),
        coll != debt,
    ensures
        resolution_spec(resolved_state(s, coll, now, r1), debt, now, feed) == resolution_spec(
            with_fallbacks(s, resolved_state(s, coll, now, r1).twap_fallback_count),
            debt,
            now,
            feed,
        ),
{
    if r1.source != PriceSource::Twap {
        observed_state_other(s, coll, r1.price, now, debt);
    }
}

/// Lookups after binding a key.
pub proof fn lookup_upsert<V>(s: Seq<(AccountId, V)>, k: AccountId, v: V, j: AccountId)
    requires
        keys_distinct(s),
    ensures
        lookup(upsert(s, k, v), j) == if j == k {
            Some(v)
        } else {
            lookup(s, j)
        },
{
    upsert_facts(s, k, v);
}

/// Lookups after removing a key.
pub proof fn lookup_remove<V>(s: Seq<(AccountId, V)>, k: AccountId, j: AccountId)
    requires
        keys_distinct(s),
    ensures
        lookup(remove_key(s, k), j) == if j == k {
            None
        } else {
            lookup(s, j)
        },
{
    remove_key_facts(s, k);
}

/// Sum of debts after binding a position.
pub proof fn debts_upsert(s: Seq<(AccountId, Position)>, k: AccountId, v: Position)
    requires
        keys_distinct(s),
    ensures
        sum(debts(upsert(s, k, v))) == sum(debts(s)) - (match lookup(s, k) {
            Some(p) => p.debt as int,
            None => 0,
        }) + v.debt,
{
    if has_key(s, k) {
        let i = key_index(s, k);
        assert(debts(upsert(s, k, v)) =~= debts(s).update(i, v.debt as int));
        sum_update(debts(s), i, v.debt as int);
    } else {
        assert(debts(upsert(s, k, v)) =~= debts(s).push(v.debt as int));
        sum_push(debts(s), v.debt as int);
    }
}

/// Sum of debts after removing a position.
pub proof fn debts_remove(s: Seq<(AccountId, Position)>, k: AccountId)
    requires
        keys_distinct(s),
    ensures
        sum(debts(remove_key(s, k))) == sum(debts(s)) - (match lookup(s, k) {
            Some(p) => p.debt as int,
            None => 0,
        }),
{
    if has_key(s, k) {
        let i = key_index(s, k);
        assert(debts(remove_key(s, k)) =~= debts(s).remove(i));
        sum_remove(debts(s), i);
    }
}

/// Sum of balances after binding a balance.
pub proof fn balances_upsert(s: Seq<(AccountId, i128)>, k: AccountId, v: i128)
    requires
        keys_distinct(s),
    ensures
        sum(balances(upsert(s, k, v))) == sum(balances(s)) - (match lookup(s, k) {
            Some(b) => b as int,
            None => 0,
        }) + v,
{
    if has_key(s, k) {
        let i = key_index(s, k);
        assert(balances(upsert(s, k, v)) =~= balances(s).update(i, v as int));
        sum_update(balances(s), i, v as int);
    } else {
        assert(balances(upsert(s, k, v)) =~= balances(s).push(v as int));
        sum_push(balances(s), v as int);
    }
}

/// Under the invariant every balance and every debt is bounded by its total.
pub proof fn wf_bounds(s: PoolState, user: AccountId)
    requires
        pool_wf(s),
    ensures
        0 <= balance_of(s, user) <= s.total_deposits,
        0 <= position_of(s, user).debt <= s.total_borrowed,
        0 <= position_of(s, user).collateral,
        s.total_deposits >= 0,
        s.total_borrowed >= 0,
{
    assert forall|i: int| 0 <= i < balances(s.depositors).len() implies balances(s.depositors)[i] >= 0 by {
        assert(s.depositors[i].1 >= 0);
    }
    assert forall|i: int| 0 <= i < debts(s.positions).len() implies debts(s.positions)[i] >= 0 by {
        assert(s.positions[i].1.collateral >= 0);
    }
    sum_nonneg(balances(s.depositors));
    sum_nonneg(debts(s.positions));
    if has_key(s.depositors, user) {
        let i = key_index(s.depositors, user);
        assert(balances(s.depositors)[i] == s.depositors[i].1);
    }
    if has_key(s.positions, user) {
        let i = key_index(s.positions, user);
        assert(debts(s.positions)[i] == s.positions[i].1.debt);
        assert(s.positions[i].1.collateral >= 0);
    }
}

/// Positions stay non-negative after binding a non-negative position.
pub proof fn positions_nonneg_upsert(s: Seq<(AccountId, Position)>, k: AccountId, v: Position)
    requires
        keys_distinct(s),
        forall|i: int| 0 <= i < s.len() ==> #[trigger] s[i].1.collateral >= 0 && s[i].1.debt >= 0,
        v.collateral >= 0,
        v.debt >= 0,
    ensures
        forall|i: int|
            0 <= i < upsert(s, k, v).len() ==> #[trigger] upsert(s, k, v)[i].1.collateral >= 0
                && upsert(s, k, v)[i].1.debt >= 0,
{
    let t = upsert(s, k, v);
    assert forall|i: int| 0 <= i < t.len() implies #[trigger] t[i].1.collateral >= 0 && t[i].1.debt >= 0 by {
        if i < s.len() && !(has_key(s, k) && i == key_index(s, k)) {
            assert(t[i] == s[i]);
        }
    }
}

/// Balances stay non-negative after binding a non-negative balance.
pub proof fn balances_nonneg_upsert(s: Seq<(AccountId, i128)>, k: AccountId, v: i128)
    requires
        keys_distinct(s),
        forall|i: int| 0 <= i < s.len() ==> #[trigger] s[i].1 >= 0,
        v >= 0,
    ensures
        forall|i: int| 0 <= i < upsert(s, k, v).len() ==> #[trigger] upsert(s, k, v)[i].1 >= 0,
{
    let t = upsert(s, k, v);
    assert forall|i: int| 0 <= i < t.len() implies #[trigger] t[i].1 >= 0 by {
        if i < s.len() && !(has_key(s, k) && i == key_index(s, k)) {
            assert(t[i] == s[i]);
        }
    }
}

/// Supplying debt-token liquidity to the pool.
pub open spec fn deposit_spec(s: PoolState, depositor: AccountId, amount: i128) -> Result<(PoolState, Transfer), LoanError> {
    if s.paused {
        Err(LoanError::Paused)
    } else {
        match s.market {
            None => Err(LoanError::MarketNotInitialized),
            Some(m) => if amount <= 0 {
                Err(LoanError::InvalidAmount)
            } else if s.total_deposits + amount > i128::MAX {
                Err(LoanError::ArithmeticOverflow)
            } else {
                Ok(
                    (
                        PoolState {
                            depositors: upsert(
                                s.depositors,
                                depositor,
                                (balance_of(s, depositor) + amount) as i128,
                            ),
                            total_deposits: (s.total_deposits + amount) as i128,
                            ..s
                        },
                        Transfer { token: m.debt_token, from: depositor, to: s.contract_id, amount },
                    ),
                )
            },
        }
    }
}

/// Liquidity not lent out: `total_deposits - total_borrowed`, saturating.
pub open spec fn free_liquidity(s: PoolState) -> int {
    crate::arith::clamp128(s.total_deposits - s.total_borrowed)
}

/// Withdrawing supplied liquidity, limited by the depositor's balance and
/// by the free pool liquidity.
pub open spec fn withdraw_spec(s: PoolState, depositor: AccountId, amount: i128) -> Result<(PoolState, Transfer), LoanError> {
    if s.paused {
        Err(LoanError::Paused)
    } else {
        match s.market {
            None => Err(LoanError::MarketNotInitialized),
            Some(m) => if amount <= 0 {
                Err(LoanError::InvalidAmount)
            } else if balance_of(s, depositor) < amount {
                Err(LoanError::InsufficientDepositorBalance)
            } else if free_liquidity(s) < amount {
                Err(LoanError::InsufficientPoolLiquidity)
            } else {
                Ok(
                    (
                        PoolState {
                            depositors: upsert(
                                s.depositors,
                                depositor,
                                (balance_of(s, depositor) - amount) as i128,
                            ),
                            total_deposits: (s.total_deposits - amount) as i128,
                            ..s
                        },
                        Transfer { token: m.debt_token, from: s.contract_id, to: depositor, amount },
                    ),
                )
            },
        }
    }
}

/// Posting collateral.
pub open spec fn deposit_collateral_spec(s: PoolState, user: AccountId, amount: i128) -> Result<(PoolState, Transfer), LoanError> {
    if s.paused {
        Err(LoanError::Paused)
    } else {
        match s.market {
            None => Err(LoanError::MarketNotInitialized),
            Some(m) => if amount <= 0 {
                Err(LoanError::InvalidAmount)
            } else if position_of(s, user).collateral + amount > i128::MAX {
                Err(LoanError::ArithmeticOverflow)
            } else {
                let p = position_of(s, user);
                Ok(
                    (
                        PoolState {
                            positions: upsert(
                                s.positions,
                                user,
                                Position { collateral: (p.collateral + amount) as i128, ..p },
                            ),
                            ..s
                        },
                        Transfer { token: m.collateral_token, from: user, to: s.contract_id, amount },
                    ),
                )
            },
        }
    }
}

/// Collateral value `cv` covers debt value `dv` at threshold `thr`:
/// the health factor is at least 1.
pub open spec fn covers(cv: int, dv: int, thr: u32) -> bool {
    clamp128(cv * thr) >= clamp128(dv * BPS_DENOMINATOR)
}

/// Borrowing debt tokens against posted collateral; refused when the
/// resulting health factor would drop below 1.
pub open spec fn borrow_spec(s: PoolState, user: AccountId, amount: i128, now: u64, coll_feed: PriceFeed, debt_feed: PriceFeed) -> Result<(PoolState, Transfer), LoanError> {
    if s.paused {
        Err(LoanError::Paused)
    } else {
        match s.market {
            None => Err(LoanError::MarketNotInitialized),
            Some(m) => if amount <= 0 {
                Err(LoanError::InvalidAmount)
            } else if free_liquidity(s) < amount {
                Err(LoanError::InsufficientPoolLiquidity)
            } else {
                match pair_resolution(s, m.collateral_token, m.debt_token, now, coll_feed, debt_feed, true) {
                    Err(e) => Err(e),
                    Ok((r1, r2)) => {
                        let p = position_of(s, user);
                        let cv = value_of(p.collateral as int, r1.price as int);
                        let dv = value_of(clamp128(p.debt + amount), r2.price as int);
                        if !covers(cv, dv, m.liq_threshold_bps) {
                            Err(LoanError::InsufficientCollateral)
                        } else {
                            let s2 = pair_state(s, m.collateral_token, m.debt_token, now, r1, r2);
                            Ok(
                                (
                                    PoolState {
                                        positions: upsert(
                                            s2.positions,
                                            user,
                                            Position { debt: (p.debt + amount) as i128, ..p },
                                        ),
                                        total_borrowed: (s2.total_borrowed + amount) as i128,
                                        ..s2
                                    },
                                    Transfer { token: m.debt_token, from: s.contract_id, to: user, amount },
                                ),
                            )
                        }
                    },
                }
            },
        }
    }
}

/// Repaying debt, capped at the outstanding debt.
pub open spec fn repay_spec(s: PoolState, user: AccountId, amount: i128) -> Result<(PoolState, Transfer), LoanError> {
    if s.paused {
        Err(LoanError::Paused)
    } else {
        match s.market {
            None => Err(LoanError::MarketNotInitialized),
            Some(m) => if amount <= 0 {
                Err(LoanError::InvalidAmount)
            } else {
                let p = position_of(s, user);
                let paid: int = if amount <= p.debt { amount as int } else { p.debt as int };
                if paid == 0 {
                    Err(LoanError::NothingToRepay)
                } else {
                    Ok(
                        (
                            PoolState {
                                positions: upsert(s.positions, user, Position { debt: (p.debt - paid) as i128, ..p }),
                                total_borrowed: clamp128(s.total_borrowed - paid) as i128,
                                ..s
                            },
                            Transfer { token: m.debt_token, from: user, to: s.contract_id, amount: paid as i128 },
                        ),
                    )
                }
            },
        }
    }
}

/// Withdrawing collateral while keeping an indebted position healthy.
pub open spec fn withdraw_collateral_spec(s: PoolState, user: AccountId, amount: i128, now: u64, coll_feed: PriceFeed, debt_feed: PriceFeed) -> Result<(PoolState, Transfer), LoanError> {
    if s.paused {
        Err(LoanError::Paused)
    } else {
        match s.market {
            None => Err(LoanError::MarketNotInitialized),
            Some(m) => if amount <= 0 {
                Err(LoanError::InvalidAmount)
            } else if position_of(s, user).collateral < amount {
                Err(LoanError::InsufficientCollateral)
            } else {
                let p = position_of(s, user);
                let out = Transfer { token: m.collateral_token, from: s.contract_id, to: user, amount };
                let np = Position { collateral: (p.collateral - amount) as i128, ..p };
                if p.debt > 0 {
                    match pair_resolution(s, m.collateral_token, m.debt_token, now, coll_feed, debt_feed, true) {
                        Err(e) => Err(e),
                        Ok((r1, r2)) => {
                            let cv = value_of(p.collateral - amount, r1.price as int);
                            let dv = value_of(p.debt as int, r2.price as int);
                            if !covers(cv, dv, m.liq_threshold_bps) {
                                Err(LoanError::WithdrawalUndercollateralizes)
                            } else {
                                let s2 = pair_state(s, m.collateral_token, m.debt_token, now, r1, r2);
                                Ok((PoolState { positions: upsert(s2.positions, user, np), ..s2 }, out))
                            }
                        },
                    }
                } else {
                    Ok((PoolState { positions: upsert(s.positions, user, np), ..s }, out))
                }
            },
        }
    }
}

/// Resolving prices only moves the TWAP accumulators and the fallback
/// counter.
pub proof fn pair_state_frame(s: PoolState, coll: AccountId, debt: AccountId, now: u64, r1: PriceResolution, r2: PriceResolution)
    ensures
        ({
            let t = pair_state(s, coll, debt, now, r1, r2);
            &&& t.positions == s.positions
            &&& t.depositors == s.depositors
            &&& t.total_deposits == s.total_deposits
            &&& t.total_borrowed == s.total_borrowed
            &&& t.market == s.market
            &&& t.paused == s.paused
            &&& t.admin == s.admin
            &&& t.liq_params == s.liq_params
            &&& t.contract_id == s.contract_id
            &&& t.primary_oracle == s.primary_oracle
            &&& t.secondary_oracle == s.secondary_oracle
        }),
{
}

// ============================================================
// BAD-DEBT SOCIALIZATION
// ============================================================

/// First write-off pass over the first `i` depositors of `d`: each
/// depositor loses its proportional share of `loss`, floored at its balance
/// and at what remains to be written off. Returns the new list and the
/// remaining residual.
pub open spec fn pass1(d: Seq<(AccountId, i128)>, total: int, loss: int, i: int) -> (Seq<(AccountId, i128)>, int)
    decreases i,
{
    if i <= 0 {
        (d, loss)
    } else {
        let prev = pass1(d, total, loss, i - 1);
        let b = d[i - 1].1 as int;
        let cut = min_int(min_int(share_of(b, total, loss), b), prev.1);
        if cut > 0 {
            (prev.0.update(i - 1, (d[i - 1].0, (b - cut) as i128)), prev.1 - cut)
        } else {
            prev
        }
    }
}

/// Second write-off pass over the first `i` depositors: the residual left
/// by rounding is taken from any depositor with remaining balance, in
/// registration order.
pub open spec fn pass2(d: Seq<(AccountId, i128)>, residual: int, i: int) -> (Seq<(AccountId, i128)>, int)
    decreases i,
{
    if i <= 0 {
        (d, residual)
    } else {
        let prev = pass2(d, residual, i - 1);
        let b = prev.0[i - 1].1 as int;
        let spare = min_int(b, prev.1);
        if spare > 0 {
            (prev.0.update(i - 1, (prev.0[i - 1].0, (b - spare) as i128)), prev.1 - spare)
        } else {
            prev
        }
    }
}

/// Writing off `loss` units of bad debt across all liquidity depositors,
/// proportionally to their balances, with rounding residuals taken from
/// accounts with remaining balance. Returns the new state and the amount
/// actually written off. With no depositor base, the pool absorbs the hole
/// and total deposits are zeroed.
pub open spec fn socialize_spec(s: PoolState, loss: i128) -> (PoolState, i128) {
    if loss <= 0 {
        (s, 0)
    } else if s.total_deposits <= 0 || s.depositors.len() == 0 {
        (PoolState { total_deposits: 0, ..s }, 0)
    } else {
        let n = s.depositors.len() as int;
        let p1 = pass1(s.depositors, s.total_deposits as int, loss as int, n);
        let p2 = pass2(p1.0, p1.1, n);
        let applied = loss - p2.1;
        (
            PoolState { depositors: p2.0, total_deposits: clamp128(s.total_deposits - applied) as i128, ..s },
            applied as i128,
        )
    }
}

/// What the first pass keeps and changes.
pub proof fn pass1_facts(d: Seq<(AccountId, i128)>, total: int, loss: int, i: int)
    requires
        0 <= i <= d.len(),
        loss > 0,
        total > 0,
        forall|j: int| 0 <= j < d.len() ==> #[trigger] d[j].1 >= 0,
    ensures
        ({
            let p = pass1(d, total, loss, i);
            &&& p.0.len() == d.len()
            &&& forall|j: int| 0 <= j < d.len() ==> #[trigger] p.0[j].0 == d[j].0
            &&& forall|j: int| i <= j < d.len() ==> #[trigger] p.0[j] == d[j]
            &&& forall|j: int| 0 <= j < d.len() ==> #[trigger] p.0[j].1 >= 0
            &&& forall|j: int| 0 <= j < i ==> d[j].1 - #[trigger] p.0[j].1 <= share_of(d[j].1 as int, total, loss)
            &&& 0 <= p.1 <= loss
            &&& sum(balances(p.0)) == sum(balances(d)) - (loss - p.1)
        }),
    decreases i,
{
    if i > 0 {
        pass1_facts(d, total, loss, i - 1);
        let prev = pass1(d, total, loss, i - 1);
        let b = d[i - 1].1 as int;
        let cut = min_int(min_int(share_of(b, total, loss), b), prev.1);
        if cut > 0 {
            let k = i - 1;
            assert(balances(prev.0.update(k, (d[k].0, (b - cut) as i128))) =~= balances(prev.0).update(k, b - cut));
            sum_update(balances(prev.0), k, b - cut);
        }
    }
}

/// What the second pass keeps and changes; once it is done, either the
/// residual is gone or every balance it passed over is exhausted.
pub proof fn pass2_facts(d: Seq<(AccountId, i128)>, residual: int, i: int)
    requires
        0 <= i <= d.len(),
        residual >= 0,
        forall|j: int| 0 <= j < d.len() ==> #[trigger] d[j].1 >= 0,
    ensures
        ({
            let p = pass2(d, residual, i);
            &&& p.0.len() == d.len()
            &&& forall|j: int| 0 <= j < d.len() ==> #[trigger] p.0[j].0 == d[j].0
            &&& forall|j: int| i <= j < d.len() ==> #[trigger] p.0[j] == d[j]
            &&& forall|j: int| 0 <= j < d.len() ==> #[trigger] p.0[j].1 >= 0
            &&& 0 <= p.1 <= residual
            &&& sum(balances(p.0)) == sum(balances(d)) - (residual - p.1)
            &&& (p.1 == 0 || forall|j: int| 0 <= j < i ==> #[trigger] p.0[j].1 == 0)
            &&& forall|j: int| 0 <= j < i ==> d[j].1 - #[trigger] p.0[j].1 <= residual - p.1
        }),
    decreases i,
{
    if i > 0 {
        pass2_facts(d, residual, i - 1);
        let prev = pass2(d, residual, i - 1);
        let k = i - 1;
        let b = prev.0[k].1 as int;
        let spare = min_int(b, prev.1);
        if spare > 0 {
            assert(balances(prev.0.update(k, (prev.0[k].0, (b - spare) as i128))) =~= balances(prev.0).update(
                k,
                b - spare,
            ));
            sum_update(balances(prev.0), k, b - spare);
        }
    }
}

/// Once the residual is gone, the rest of the second pass changes nothing.
pub(crate) proof fn pass2_idle(d: Seq<(AccountId, i128)>, residual: int, i: int, m: int)
    requires
        0 <= i <= m,
        pass2(d, residual, i).1 == 0,
    ensures
        pass2(d, residual, m) == pass2(d, residual, i),
    decreases m - i,
{
    if m > i {
        pass2_idle(d, residual, i, m - 1);
    }
}

/// Sum of the proportional shares of `loss` of the first `i` depositors.
pub open spec fn shares_total(d: Seq<(AccountId, i128)>, total: int, loss: int, i: int) -> int
    decreases i,
{
    if i <= 0 {
        0
    } else {
        shares_total(d, total, loss, i - 1) + share_of(d[i - 1].1 as int, total, loss)
    }
}

/// What rounding the proportional shares down leaves of the loss.
pub open spec fn rounding_residual(d: Seq<(AccountId, i128)>, total: int, loss: int) -> int {
    loss - shares_total(d, total, loss, d.len() as int)
}

/// A share of a loss no larger than the total lies between zero and the
/// balance, and times the total it is at most the balance times the loss.
proof fn share_bounds(b: int, total: int, loss: int)
    requires
        b >= 0,
        0 < loss,
        0 < total,
    ensures
        0 <= share_of(b, total, loss),
        loss <= total ==> share_of(b, total, loss) <= b,
        share_of(b, total, loss) * total <= b * loss,
{
    let x = clamp128(b * loss);
    assert(b * loss >= 0) by (nonlinear_arith)
        requires
            b >= 0,
            loss > 0,
    ;
    assert(0 <= x <= b * loss);
    let q = x / total;
    assert(q >= 0 && q * total <= x) by (nonlinear_arith)
        requires
            x >= 0,
            total > 0,
            q == x / total,
    ;
    if loss <= total {
        assert(q <= b) by (nonlinear_arith)
            requires
                q * total <= b * loss,
                loss <= total,
                b >= 0,
                total > 0,
        ;
    }
}

/// Prefix sums of the shares: non-negative, non-decreasing, and times the
/// total at most the loss times the prefix sum of balances.
proof fn shares_total_bounds(d: Seq<(AccountId, i128)>, total: int, loss: int, i: int)
    requires
        0 <= i <= d.len(),
        0 < loss,
        0 < total,
        forall|j: int| 0 <= j < d.len() ==> #[trigger] d[j].1 >= 0,
    ensures
        0 <= shares_total(d, total, loss, i),
        shares_total(d, total, loss, i) * total <= loss * sum(balances(d).take(i)),
        forall|k: int| 0 <= k <= i ==> #[trigger] shares_total(d, total, loss, k) <= shares_total(d, total, loss, i),
    decreases i,
{
    if i == 0 {
        assert(balances(d).take(0) =~= Seq::<int>::empty());
    } else {
        shares_total_bounds(d, total, loss, i - 1);
        let b = d[i - 1].1 as int;
        share_bounds(b, total, loss);
        crate::storage::sum_take_step(balances(d), i - 1);
        let st = shares_total(d, total, loss, i - 1);
        let sh = share_of(b, total, loss);
        let pb = sum(balances(d).take(i - 1));
        assert((st + sh) * total <= loss * (pb + b)) by (nonlinear_arith)
            requires
                st * total <= loss * pb,
                sh * total <= b * loss,
        ;
    }
}

/// The proportional shares never add up to more than the loss: rounding
/// each share down can only leave a non-negative residual, which the
/// second write-off pass then takes from accounts with spare balance.
pub proof fn shares_within_loss(d: Seq<(AccountId, i128)>, total: int, loss: int)
    requires
        forall|j: int| 0 <= j < d.len() ==> #[trigger] d[j].1 >= 0,
        total == sum(balances(d)),
        total > 0,
        loss > 0,
    ensures
        0 <= shares_total(d, total, loss, d.len() as int) <= loss,
        0 <= rounding_residual(d, total, loss) <= loss,
{
    shares_total_bounds(d, total, loss, d.len() as int);
    assert(balances(d).take(d.len() as int) =~= balances(d));
    let st = shares_total(d, total, loss, d.len() as int);
    assert(st <= loss) by (nonlinear_arith)
        requires
            st * total <= loss * total,
            total > 0,
    ;
}

/// With a loss no larger than the deposits, the first pass takes from each
/// depositor exactly its proportional share.
proof fn pass1_exact(d: Seq<(AccountId, i128)>, total: int, loss: int, i: int)
    requires
        0 <= i <= d.len(),
        0 < loss <= total,
        forall|j: int| 0 <= j < d.len() ==> #[trigger] d[j].1 >= 0,
        shares_total(d, total, loss, d.len() as int) <= loss,
    ensures
        pass1(d, total, loss, i).1 == loss - shares_total(d, total, loss, i),
        forall|j: int| 0 <= j < i ==> #[trigger] pass1(d, total, loss, i).0[j].1 == d[j].1 - share_of(
            d[j].1 as int,
            total,
            loss,
        ),
    decreases i,
{
    if i > 0 {
        pass1_exact(d, total, loss, i - 1);
        pass1_facts(d, total, loss, i - 1);
        shares_total_bounds(d, total, loss, d.len() as int);
        let b = d[i - 1].1 as int;
        share_bounds(b, total, loss);
        assert(shares_total(d, total, loss, i) <= shares_total(d, total, loss, d.len() as int));
        let prev = pass1(d, total, loss, i - 1);
        assert(prev.0[i - 1] == d[i - 1]);
    }
}

/// Bad-debt write-off covers the loss whenever the depositor base can
/// absorb it: exactly `min(loss, total_deposits)` is written off, total
/// deposits fall by that amount and still equal the sum of balances, no
/// balance grows or turns negative, and the depositor registry keeps its
/// order. When the loss does not exceed the deposits, each depositor loses
/// at least its rounded-down proportional share and at most that share
/// plus the rounding residual.
pub proof fn socialization_law(s: PoolState, loss: i128)
    requires
        pool_wf(s),
        loss > 0,
    ensures
        ({
            let (t, applied) = socialize_spec(s, loss);
            &&& applied == min_int(loss as int, s.total_deposits as int)
            &&& t.total_deposits == s.total_deposits - applied
            &&& t.total_deposits == sum(balances(t.depositors))
            &&& t.depositors.len() == s.depositors.len()
            &&& forall|j: int| 0 <= j < s.depositors.len() ==> {
                &&& #[trigger] t.depositors[j].0 == s.depositors[j].0
                &&& 0 <= t.depositors[j].1 <= s.depositors[j].1
            }
            &&& loss <= s.total_deposits ==> forall|j: int| 0 <= j < s.depositors.len() ==> {
                let share = share_of(s.depositors[j].1 as int, s.total_deposits as int, loss as int);
                share <= s.depositors[j].1 - #[trigger] t.depositors[j].1 <= share + rounding_residual(
                    s.depositors,
                    s.total_deposits as int,
                    loss as int,
                )
            }
            &&& t.positions == s.positions
            &&& t.total_borrowed == s.total_borrowed
            &&& t.twaps == s.twaps
        }),
{
    let d = s.depositors;
    let n = d.len() as int;
    assert forall|j: int| 0 <= j < d.len() implies #[trigger] d[j].1 >= 0 by {
        assert(s.depositors[j].1 >= 0);
    }
    assert forall|i: int| 0 <= i < balances(d).len() implies balances(d)[i] >= 0 by {
        assert(d[i].1 >= 0);
    }
    sum_nonneg(balances(d));
    if s.total_deposits <= 0 || n == 0 {
        if n == 0 {
            assert(balances(d) =~= Seq::<int>::empty());
        }
        assert forall|j: int| 0 <= j < n implies d[j].1 == 0 by {
            assert(balances(d)[j] == d[j].1);
        }
    } else {
        let td = s.total_deposits as int;
        pass1_facts(d, td, loss as int, n);
        let p1 = pass1(d, td, loss as int, n);
        pass2_facts(p1.0, p1.1, n);
        let p2 = pass2(p1.0, p1.1, n);
        assert forall|j: int| 0 <= j < n implies p2.0[j].1 <= d[j].1 by {
            pass2_le(p1.0, p1.1, n, j);
            pass1_le(d, td, loss as int, n, j);
        }
        if p2.1 != 0 {
            assert(balances(p2.0) =~= Seq::new(n as nat, |j: int| 0int));
            sum_zero(n as nat);
        } else {
            assert forall|i: int| 0 <= i < balances(p2.0).len() implies balances(p2.0)[i] >= 0 by {
                assert(p2.0[i].1 >= 0);
            }
            sum_nonneg(balances(p2.0));
        }
        let (t, applied) = socialize_spec(s, loss);
        assert(t.depositors == p2.0);
        assert(applied == loss - p2.1);
        if loss <= td {
            shares_total_bounds(d, td, loss as int, n);
            assert(balances(d).take(n) =~= balances(d));
            let st = shares_total(d, td, loss as int, n);
            assert(st <= loss) by (nonlinear_arith)
                requires
                    st * td <= loss * td,
                    td > 0,
            ;
            pass1_exact(d, td, loss as int, n);
            assert forall|j: int| 0 <= j < n implies {
                let share = share_of(d[j].1 as int, td, loss as int);
                share <= d[j].1 - #[trigger] t.depositors[j].1 <= share + rounding_residual(d, td, loss as int)
            } by {
                pass2_le(p1.0, p1.1, n, j);
                assert(p1.0[j].1 == d[j].1 - share_of(d[j].1 as int, td, loss as int));
            }
        }
    }
}

/// A sum of zeros.
proof fn sum_zero(n: nat)
    ensures
        sum(Seq::new(n, |j: int| 0int)) == 0,
    decreases n,
{
    if n > 0 {
        assert(Seq::new(n, |j: int| 0int).drop_last() =~= Seq::new((n - 1) as nat, |j: int| 0int));
        sum_zero((n - 1) as nat);
    }
}

/// The first pass never raises a balance.
proof fn pass1_le(d: Seq<(AccountId, i128)>, total: int, loss: int, i: int, j: int)
    requires
        0 <= i <= d.len(),
        0 <= j < d.len(),
    ensures
        pass1(d, total, loss, i).0.len() == d.len(),
        pass1(d, total, loss, i).0[j].1 <= d[j].1,
    decreases i,
{
    if i > 0 {
        pass1_le(d, total, loss, i - 1, j);
    }
}

/// The second pass never raises a balance.
proof fn pass2_le(d: Seq<(AccountId, i128)>, residual: int, i: int, j: int)
    requires
        0 <= i <= d.len(),
        0 <= j < d.len(),
    ensures
        pass2(d, residual, i).0.len() == d.len(),
        pass2(d, residual, i).0[j].1 <= d[j].1,
    decreases i,
{
    if i > 0 {
        pass2_le(d, residual, i - 1, j);
    }
}

// ============================================================
// LIQUIDATION
// ============================================================

/// `repay_amount` semantics: the sentinel asks for full liquidation, zero
/// for partial liquidation to the 1.1 target, a positive amount for a
/// caller-specified repayment; negative amounts are refused.
pub open spec fn repay_mode(repay_amount: i128) -> Result<RepayMode, LoanError> {
    if repay_amount == FULL_REPAY_SENTINEL {
        Ok(RepayMode::Full)
    } else if repay_amount == 0 {
        Ok(RepayMode::PartialToTarget)
    } else if repay_amount < 0 {
        Err(LoanError::InvalidAmount)
    } else {
        Ok(RepayMode::Specified(repay_amount))
    }
}

/// The liquidation plan of `p` at the resolved prices.
pub open spec fn plan_for(s: PoolState, m: Market, p: Position, r1: PriceResolution, r2: PriceResolution, mode: RepayMode) -> LiquidationPlan {
    plan_spec(
        p.collateral,
        p.debt,
        r1.price,
        r2.price,
        m.liq_threshold_bps,
        s.liq_params.base_bonus_bps,
        s.liq_params.max_bonus_bps,
        s.liq_params.penalty_cap_bps,
        mode,
    )
}

/// Executing a liquidation against `borrower`'s position.
pub open spec fn liquidate_spec(
    s: PoolState,
    liquidator: AccountId,
    borrower: AccountId,
    repay_amount: i128,
    now: u64,
    coll_feed: PriceFeed,
    debt_feed: PriceFeed,
) -> Result<(PoolState, Liquidation), LoanError> {
    if s.paused {
        Err(LoanError::Paused)
    } else {
        match s.market {
            None => Err(LoanError::MarketNotInitialized),
            Some(m) => if liquidator == borrower {
                Err(LoanError::SelfLiquidation)
            } else if position_of(s, borrower).debt <= 0 {
                Err(LoanError::NotLiquidatable)
            } else {
                match pair_resolution(s, m.collateral_token, m.debt_token, now, coll_feed, debt_feed, false) {
                    Err(e) => Err(e),
                    Ok((r1, r2)) => match repay_mode(repay_amount) {
                        Err(e) => Err(e),
                        Ok(mode) => {
                            let p = position_of(s, borrower);
                            let plan = plan_for(s, m, p, r1, r2, mode);
                            if plan.repay_units == 0 && plan.bad_debt_units == 0 {
                                Err(LoanError::NotLiquidatable)
                            } else {
                                let s2 = pair_state(s, m.collateral_token, m.debt_token, now, r1, r2);
                                let np = Position {
                                    collateral: (p.collateral - plan.seize_units) as i128,
                                    debt: clamp128(clamp128(p.debt - plan.repay_units) - plan.bad_debt_units) as i128,
                                };
                                let s3 = PoolState {
                                    total_borrowed: clamp128(
                                        s2.total_borrowed - (plan.repay_units + plan.bad_debt_units),
                                    ) as i128,
                                    ..s2
                                };
                                let (s4, socialized) = if plan.bad_debt_units > 0 {
                                    socialize_spec(s3, plan.bad_debt_units)
                                } else {
                                    (s3, 0i128)
                                };
                                let s5 = if np.collateral == 0 && np.debt == 0 {
                                    PoolState { positions: remove_key(s4.positions, borrower), ..s4 }
                                } else {
                                    PoolState { positions: upsert(s4.positions, borrower, np), ..s4 }
                                };
                                Ok(
                                    (
                                        s5,
                                        Liquidation {
                                            result: LiquidationResult {
                                                repay_units: plan.repay_units,
                                                seize_units: plan.seize_units,
                                                bonus_bps: plan.bonus_bps,
                                                bad_debt_socialized: socialized,
                                            },
                                            bad_debt_units: plan.bad_debt_units,
                                            repay_transfer: if plan.repay_units > 0 {
                                                Some(
                                                    Transfer {
                                                        token: m.debt_token,
                                                        from: liquidator,
                                                        to: s.contract_id,
                                                        amount: plan.repay_units,
                                                    },
                                                )
                                            } else {
                                                None
                                            },
                                            seize_transfer: if plan.seize_units > 0 {
                                                Some(
                                                    Transfer {
                                                        token: m.collateral_token,
                                                        from: s.contract_id,
                                                        to: liquidator,
                                                        amount: plan.seize_units,
                                                    },
                                                )
                                            } else {
                                                None
                                            },
                                        },
                                    ),
                                )
                            }
                        },
                    },
                }
            },
        }
    }
}

/// Positions stay non-negative after removing one.
pub proof fn remove_positions_nonneg(s: Seq<(AccountId, Position)>, k: AccountId)
    requires
        keys_distinct(s),
        forall|i: int| 0 <= i < s.len() ==> #[trigger] s[i].1.collateral >= 0 && s[i].1.debt >= 0,
    ensures
        forall|i: int|
            0 <= i < remove_key(s, k).len() ==> #[trigger] remove_key(s, k)[i].1.collateral >= 0
                && remove_key(s, k)[i].1.debt >= 0,
{
    let t = remove_key(s, k);
    if has_key(s, k) {
        let m = key_index(s, k);
        assert forall|i: int| 0 <= i < t.len() implies #[trigger] t[i].1.collateral >= 0 && t[i].1.debt >= 0 by {
            if i < m {
                assert(t[i] == s[i]);
            } else {
                assert(t[i] == s[i + 1]);
            }
        }
    }
}

/// Values of non-negative holdings are non-negative.
pub proof fn value_nonneg(units: int, price: int)
    requires
        units >= 0,
    ensures
        value_of(units, price) >= 0,
{
    if price > 0 {
        assert(units * price >= 0) by (nonlinear_arith)
            requires
                units >= 0,
                price > 0,
        ;
    }
}

/// Prices out of a successful resolution are never negative.
pub(crate) proof fn resolution_nonneg(s: PoolState, asset: AccountId, now: u64, feed: PriceFeed)
    requires
        pool_wf(s),
        resolution_spec(s, asset, now, feed) is Ok,
    ensures
        resolution_spec(s, asset, now, feed)->Ok_0.price >= 0,
{
    let t = twap_of(s, asset);
    if has_key(s.twaps, asset) {
        assert(twap_wf(s.twaps[key_index(s.twaps, asset)].1));
    }
    twap_wf_computable(t, now);
    if t.last_price > 0 && t.snapshots.len() >= 2 {
        let start = t.snapshots[crate::oracle::window_start(t.snapshots, now)];
        let span = crate::oracle::ts_sub(now, start.ts);
        let delta = crate::oracle::cum_at(t, now) - start.cum;
        if span >= crate::constants::TWAP_MIN_SPAN_SECS && delta > 0 {
            assert(0 <= delta / span <= delta) by (nonlinear_arith)
                requires
                    delta > 0,
                    span > 0,
            ;
            assert(crate::arith::tdiv(delta, span) == delta / span);
        }
    }
}

/// Health factor of `user` as the fraction `(num, den)`; healthy iff
/// `num >= den`. A debt-free position reports `(i128::MAX, 1)` without
/// consulting prices.
pub open spec fn health_factor_spec(s: PoolState, user: AccountId, now: u64, coll_feed: PriceFeed, debt_feed: PriceFeed) -> Result<(PoolState, (i128, i128)), LoanError> {
    match s.market {
        None => Err(LoanError::MarketNotInitialized),
        Some(m) => {
            let p = position_of(s, user);
            if p.debt == 0 {
                Ok((s, (i128::MAX, 1i128)))
            } else {
                match pair_resolution(s, m.collateral_token, m.debt_token, now, coll_feed, debt_feed, true) {
                    Err(e) => Err(e),
                    Ok((r1, r2)) => {
                        let cv = value_of(p.collateral as int, r1.price as int);
                        let dv = value_of(p.debt as int, r2.price as int);
                        Ok(
                            (
                                pair_state(s, m.collateral_token, m.debt_token, now, r1, r2),
                                (
                                    clamp128(cv * m.liq_threshold_bps) as i128,
                                    clamp128(dv * BPS_DENOMINATOR) as i128,
                                ),
                            ),
                        )
                    },
                }
            }
        },
    }
}

/// TWAP of `asset` at `now`, or the refusal when history is insufficient.
pub open spec fn twap_price_spec(s: PoolState, asset: AccountId, now: u64) -> Result<i128, LoanError> {
    match twap_spec(twap_of(s, asset), now) {
        Some(p) => Ok(p),
        None => Err(LoanError::NoValidPriceSource),
    }
}


/// The state after a liquidation has written down a position and the
/// borrowed total, before any write-off: it is well formed, the write-off
/// fits in the free liquidity, and writing off commutes with the position
/// update.
pub(crate) proof fn liquidation_step(s: PoolState, borrower: AccountId, np: Position, repay: int, bad: int)
    requires
        pool_wf(s),
        0 <= repay,
        0 <= bad,
        repay + bad <= position_of(s, borrower).debt,
        np.debt == position_of(s, borrower).debt - repay - bad,
        0 <= np.collateral <= position_of(s, borrower).collateral,
    ensures
        ({
            let positions = if np.collateral == 0 && np.debt == 0 {
                remove_key(s.positions, borrower)
            } else {
                upsert(s.positions, borrower, np)
            };
            let tb = clamp128(s.total_borrowed - (repay + bad)) as i128;
            let mid = PoolState { positions, total_borrowed: tb, ..s };
            let s3 = PoolState { total_borrowed: tb, ..s };
            &&& pool_wf(mid)
            &&& bad <= mid.total_deposits - mid.total_borrowed
            &&& forall|loss: i128|
                #[trigger] socialize_spec(mid, loss) == (
                    PoolState { positions, ..socialize_spec(s3, loss).0 },
                    socialize_spec(s3, loss).1,
                )
        }),
{
    wf_bounds(s, borrower);
    let p = position_of(s, borrower);
    debts_upsert(s.positions, borrower, np);
    debts_remove(s.positions, borrower);
    positions_nonneg_upsert(s.positions, borrower, np);
    remove_positions_nonneg(s.positions, borrower);
    upsert_facts(s.positions, borrower, np);
    remove_key_facts(s.positions, borrower);
    if p.debt > 0 {
        assert(lookup(s.positions, borrower) == Some(p));
    }
    let positions = if np.collateral == 0 && np.debt == 0 {
        remove_key(s.positions, borrower)
    } else {
        upsert(s.positions, borrower, np)
    };
    let tb = clamp128(s.total_borrowed - (repay + bad)) as i128;
    let mid = PoolState { positions, total_borrowed: tb, ..s };
    let s3 = PoolState { total_borrowed: tb, ..s };
    assert(sum(debts(positions)) == s.total_borrowed - repay - bad);
    assert forall|loss: i128| #[trigger] socialize_spec(mid, loss) == (
        PoolState { positions, ..socialize_spec(s3, loss).0 },
        socialize_spec(s3, loss).1,
    ) by {}
}

} // verus!
