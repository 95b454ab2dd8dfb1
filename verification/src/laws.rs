//! Properties of the loan manager: what each request guarantees of its
//! result (health after borrowing and withdrawing collateral, the failover
//! chain and its TWAP record, the health factor that liquidation uses),
//! and what spans requests (pool solvency, isolation of positions, the
//! circuit breaker and round trips).
use vstd::prelude::*;

use crate::model::{
    balance_of, borrow_spec, deposit_collateral_spec, deposit_spec, liquidate_spec, position_of,
    pool_wf, repay_spec, socialization_law, withdraw_collateral_spec, withdraw_spec, LoanError,
    PoolState, PriceFeed, Transfer,
};
use crate::model::{fresh_state, observed_state, twap_of, twap_price_spec};
use crate::oracle::{gaps_fit, observe_spec, replay, twap_stays_within_recorded_prices};
use crate::arith::clamp128;
use crate::liquidation::{plan_spec, value_of, RepayMode};
use crate::model::{
    health_factor_spec, pair_resolution, resolution_spec, resolved_state,
};
use crate::oracle::answer_valid;
use crate::storage::{AccountId, Position, PriceResolution, PriceSource};

verus! {

/// Debt-token units that a transfer moves into the pool (negative when it
/// moves them out).
pub open spec fn debt_inflow(s: PoolState, t: Transfer) -> int {
    match s.market {
        Some(m) => if t.token == m.debt_token {
            (if t.to == s.contract_id { t.amount as int } else { 0 }) - (if t.from == s.contract_id {
                t.amount as int
            } else {
                0
            })
        } else {
            0
        },
        None => 0,
    }
}

/// Debt-token units that an optional transfer moves into the pool.
pub open spec fn debt_inflow_opt(s: PoolState, t: Option<Transfer>) -> int {
    match t {
        Some(t) => debt_inflow(s, t),
        None => 0,
    }
}

/// The pool's debt-token cash plus its outstanding receivables covers
/// what it owes to depositors.
pub open spec fn covered(s: PoolState, cash: int) -> bool {
    cash + s.total_borrowed >= s.total_deposits
}

/// Supplying liquidity keeps the pool covered: cash and deposits grow alike.
pub proof fn deposit_keeps_pool_covered(s: PoolState, depositor: AccountId, amount: i128, cash: int)
    requires
        pool_wf(s),
        covered(s, cash),
        depositor != s.contract_id,
        deposit_spec(s, depositor, amount) is Ok,
    ensures
        ({
            let (t, tr) = deposit_spec(s, depositor, amount)->Ok_0;
            covered(t, cash + debt_inflow(s, tr))
        }),
{
}

/// Withdrawing liquidity keeps the pool covered: cash and deposits shrink alike.
pub proof fn withdraw_keeps_pool_covered(s: PoolState, depositor: AccountId, amount: i128, cash: int)
    requires
        pool_wf(s),
        covered(s, cash),
        depositor != s.contract_id,
        withdraw_spec(s, depositor, amount) is Ok,
    ensures
        ({
            let (t, tr) = withdraw_spec(s, depositor, amount)->Ok_0;
            covered(t, cash + debt_inflow(s, tr))
        }),
{
}

/// Borrowing keeps the pool covered: cash turns into a receivable.
pub proof fn borrow_keeps_pool_covered(
    s: PoolState,
    user: AccountId,
    amount: i128,
    now: u64,
    coll_feed: PriceFeed,
    debt_feed: PriceFeed,
    cash: int,
)
    requires
        pool_wf(s),
        covered(s, cash),
        user != s.contract_id,
        borrow_spec(s, user, amount, now, coll_feed, debt_feed) is Ok,
    ensures
        ({
            let (t, tr) = borrow_spec(s, user, amount, now, coll_feed, debt_feed)->Ok_0;
            covered(t, cash + debt_inflow(s, tr))
        }),
{
}

/// Repaying keeps the pool covered: a receivable turns into cash.
pub proof fn repay_keeps_pool_covered(s: PoolState, user: AccountId, amount: i128, cash: int)
    requires
        pool_wf(s),
        covered(s, cash),
        user != s.contract_id,
        repay_spec(s, user, amount) is Ok,
    ensures
        ({
            let (t, tr) = repay_spec(s, user, amount)->Ok_0;
            covered(t, cash + debt_inflow(s, tr))
        }),
{
}

/// Moving collateral never touches debt-token accounting.
pub proof fn collateral_moves_keep_pool_covered(
    s: PoolState,
    user: AccountId,
    amount: i128,
    now: u64,
    coll_feed: PriceFeed,
    debt_feed: PriceFeed,
    cash: int,
)
    requires
        pool_wf(s),
        covered(s, cash),
    ensures
        deposit_collateral_spec(s, user, amount) is Ok ==> {
            let (t, tr) = deposit_collateral_spec(s, user, amount)->Ok_0;
            debt_inflow(s, tr) == 0 && covered(t, cash)
        },
        withdraw_collateral_spec(s, user, amount, now, coll_feed, debt_feed) is Ok ==> {
            let (t, tr) = withdraw_collateral_spec(s, user, amount, now, coll_feed, debt_feed)->Ok_0;
            debt_inflow(s, tr) == 0 && covered(t, cash)
        },
{
}

/// Liquidation keeps the pool covered: the repayment becomes cash, and the
/// written-off debt is charged to depositors; whatever they cannot absorb
/// leaves them owed nothing.
pub proof fn liquidation_keeps_pool_covered(
    s: PoolState,
    liquidator: AccountId,
    borrower: AccountId,
    repay_amount: i128,
    now: u64,
    coll_feed: PriceFeed,
    debt_feed: PriceFeed,
    cash: int,
)
    requires
        pool_wf(s),
        covered(s, cash),
        cash >= 0,
        liquidator != s.contract_id,
        liquidate_spec(s, liquidator, borrower, repay_amount, now, coll_feed, debt_feed) is Ok,
    ensures
        ({
            let (t, l) = liquidate_spec(s, liquidator, borrower, repay_amount, now, coll_feed, debt_feed)->Ok_0;
            covered(t, cash + debt_inflow_opt(s, l.repay_transfer) + debt_inflow_opt(s, l.seize_transfer))
        }),
{
    let m = s.market->Some_0;
    let p = position_of(s, borrower);
    let (r1, r2) = crate::model::pair_resolution(
        s,
        m.collateral_token,
        m.debt_token,
        now,
        coll_feed,
        debt_feed,
        false,
    )->Ok_0;
    let mode = crate::model::repay_mode(repay_amount)->Ok_0;
    let plan = crate::model::plan_for(s, m, p, r1, r2, mode);
    crate::model::wf_bounds(s, borrower);
    crate::liquidation::plan_guarantees(
        p.collateral,
        p.debt,
        r1.price,
        r2.price,
        m.liq_threshold_bps,
        s.liq_params.base_bonus_bps,
        s.liq_params.max_bonus_bps,
        s.liq_params.penalty_cap_bps,
        mode,
    );
    let s2 = crate::model::pair_state(s, m.collateral_token, m.debt_token, now, r1, r2);
    crate::model::pair_state_frame(s, m.collateral_token, m.debt_token, now, r1, r2);
    if plan.bad_debt_units > 0 {
        let s3 = PoolState {
            total_borrowed: crate::arith::clamp128(s2.total_borrowed - (plan.repay_units + plan.bad_debt_units)) as i128,
            ..s2
        };
        assert(pool_wf(PoolState { positions: s3.positions, total_borrowed: s.total_borrowed, ..s3 }));
        socialization_law(PoolState { total_borrowed: s.total_borrowed, ..s3 }, plan.bad_debt_units);
    }
}

/// A liquidation changes no position but the borrower's; when nothing is
/// written off against depositors, their balances and the total deposits
/// are left as they were.
pub proof fn liquidation_is_isolated(
    s: PoolState,
    liquidator: AccountId,
    borrower: AccountId,
    repay_amount: i128,
    now: u64,
    coll_feed: PriceFeed,
    debt_feed: PriceFeed,
    other: AccountId,
)
    requires
        pool_wf(s),
        other != borrower,
        liquidate_spec(s, liquidator, borrower, repay_amount, now, coll_feed, debt_feed) is Ok,
    ensures
        ({
            let (t, l) = liquidate_spec(s, liquidator, borrower, repay_amount, now, coll_feed, debt_feed)->Ok_0;
            &&& position_of(t, other) == position_of(s, other)
            &&& l.result.bad_debt_socialized == 0 ==> t.depositors == s.depositors && t.total_deposits
                == s.total_deposits
        }),
{
    let m = s.market->Some_0;
    let p = position_of(s, borrower);
    let (r1, r2) = crate::model::pair_resolution(
        s,
        m.collateral_token,
        m.debt_token,
        now,
        coll_feed,
        debt_feed,
        false,
    )->Ok_0;
    crate::model::pair_state_frame(s, m.collateral_token, m.debt_token, now, r1, r2);
    crate::model::lookup_remove(s.positions, borrower, other);
    let mode = crate::model::repay_mode(repay_amount)->Ok_0;
    let plan = crate::model::plan_for(s, m, p, r1, r2, mode);
    let np = crate::storage::Position {
        collateral: (p.collateral - plan.seize_units) as i128,
        debt: crate::arith::clamp128(crate::arith::clamp128(p.debt - plan.repay_units) - plan.bad_debt_units) as i128,
    };
    crate::model::lookup_upsert(s.positions, borrower, np, other);
    crate::model::wf_bounds(s, borrower);
    crate::liquidation::plan_guarantees(
        p.collateral,
        p.debt,
        r1.price,
        r2.price,
        m.liq_threshold_bps,
        s.liq_params.base_bonus_bps,
        s.liq_params.max_bonus_bps,
        s.liq_params.penalty_cap_bps,
        mode,
    );
    if plan.bad_debt_units > 0 {
        let s2 = crate::model::pair_state(s, m.collateral_token, m.debt_token, now, r1, r2);
        let s3 = PoolState {
            total_borrowed: crate::arith::clamp128(s2.total_borrowed - (plan.repay_units + plan.bad_debt_units)) as i128,
            ..s2
        };
        socialization_law(PoolState { total_borrowed: s.total_borrowed, ..s3 }, plan.bad_debt_units);
        if s.total_deposits <= 0 || s.depositors.len() == 0 {
            crate::storage::sum_nonneg(crate::model::balances(s.depositors));
        }
    }
}

/// What a liquidation does to the books: total borrowed falls by exactly
/// the debt that left the borrower's position, that debt is the repayment
/// plus the written-off bad debt, and when the position's debt fell by the
/// repayment alone the depositors' balances and the total deposits are
/// untouched.
pub proof fn liquidation_moves_borrowed_total(
    s: PoolState,
    liquidator: AccountId,
    borrower: AccountId,
    repay_amount: i128,
    now: u64,
    coll_feed: PriceFeed,
    debt_feed: PriceFeed,
)
    requires
        pool_wf(s),
        liquidate_spec(s, liquidator, borrower, repay_amount, now, coll_feed, debt_feed) is Ok,
    ensures
        ({
            let (t, l) = liquidate_spec(s, liquidator, borrower, repay_amount, now, coll_feed, debt_feed)->Ok_0;
            let before = position_of(s, borrower).debt;
            let after = position_of(t, borrower).debt;
            &&& t.total_borrowed == s.total_borrowed - (before - after)
            &&& before - after == l.result.repay_units + l.bad_debt_units
            &&& after == before - l.result.repay_units ==> t.depositors == s.depositors
                && t.total_deposits == s.total_deposits
        }),
{
    let m = s.market->Some_0;
    let p = position_of(s, borrower);
    let (r1, r2) = crate::model::pair_resolution(
        s,
        m.collateral_token,
        m.debt_token,
        now,
        coll_feed,
        debt_feed,
        false,
    )->Ok_0;
    crate::model::pair_state_frame(s, m.collateral_token, m.debt_token, now, r1, r2);
    let mode = crate::model::repay_mode(repay_amount)->Ok_0;
    let plan = crate::model::plan_for(s, m, p, r1, r2, mode);
    let np = crate::storage::Position {
        collateral: (p.collateral - plan.seize_units) as i128,
        debt: crate::arith::clamp128(crate::arith::clamp128(p.debt - plan.repay_units) - plan.bad_debt_units) as i128,
    };
    crate::model::lookup_upsert(s.positions, borrower, np, borrower);
    crate::model::lookup_remove(s.positions, borrower, borrower);
    crate::model::wf_bounds(s, borrower);
    crate::liquidation::plan_guarantees(
        p.collateral,
        p.debt,
        r1.price,
        r2.price,
        m.liq_threshold_bps,
        s.liq_params.base_bonus_bps,
        s.liq_params.max_bonus_bps,
        s.liq_params.penalty_cap_bps,
        mode,
    );
    assert(np.debt == p.debt - plan.repay_units - plan.bad_debt_units);
}

/// Recording an observation extends an asset's price history by exactly
/// that observation; a fresh pool has an empty history for every asset.
pub proof fn recording_extends_history(
    s: PoolState,
    asset: AccountId,
    obs: Seq<(i128, u64)>,
    price: i128,
    now: u64,
)
    requires
        pool_wf(s),
        twap_of(s, asset) == replay(obs),
    ensures
        twap_of(observed_state(s, asset, price, now), asset) == replay(obs.push((price, now))),
        twap_of(fresh_state(s.contract_id), asset) == replay(Seq::<(i128, u64)>::empty()),
{
    crate::model::lookup_upsert(s.twaps, asset, observe_spec(twap_of(s, asset), price, now), asset);
    assert(obs.push((price, now)).drop_last() =~= obs);
}

/// The TWAP served for an asset lies within the range of the prices
/// recorded for it: when its history is `obs`, with every price in
/// `[lo, hi]` and `lo > 0`, recorded at non-decreasing times, each gap
/// between consecutive observations (and from the last one to `now`)
/// below 2^32 seconds and `hi` times the whole span fitting in `i128`, a
/// TWAP served at `now` lies in `[lo, hi]`.
pub proof fn twap_price_within_recorded_prices(
    s: PoolState,
    asset: AccountId,
    obs: Seq<(i128, u64)>,
    lo: i128,
    hi: i128,
    now: u64,
)
    requires
        twap_of(s, asset) == replay(obs),
        0 < lo <= hi,
        obs.len() > 0,
        forall|i: int| 0 <= i < obs.len() ==> lo <= #[trigger] obs[i].0 <= hi,
        forall|i: int, j: int| 0 <= i < j < obs.len() ==> #[trigger] obs[i].1 <= #[trigger] obs[j].1,
        gaps_fit(obs),
        obs.last().1 <= now,
        now - obs.last().1 <= u32::MAX,
        hi * (now - obs[0].1) <= i128::MAX,
    ensures
        twap_price_spec(s, asset, now) matches Ok(r) ==> lo <= r <= hi,
{
    twap_stays_within_recorded_prices(obs, lo, hi, now);
}

/// No position owes debt without holding collateral.
pub open spec fn collateral_backs_debt(s: PoolState) -> bool {
    forall|u: AccountId| #[trigger] position_of(s, u).collateral == 0 ==> position_of(s, u).debt == 0
}

/// Liquidation never leaves a borrower owing debt with no collateral: if
/// no position did so before, none does after.
pub proof fn liquidation_keeps_collateral_backing(
    s: PoolState,
    liquidator: AccountId,
    borrower: AccountId,
    repay_amount: i128,
    now: u64,
    coll_feed: PriceFeed,
    debt_feed: PriceFeed,
)
    requires
        pool_wf(s),
        collateral_backs_debt(s),
        liquidate_spec(s, liquidator, borrower, repay_amount, now, coll_feed, debt_feed) is Ok,
    ensures
        collateral_backs_debt(
            liquidate_spec(s, liquidator, borrower, repay_amount, now, coll_feed, debt_feed)->Ok_0.0,
        ),
{
    let t = liquidate_spec(s, liquidator, borrower, repay_amount, now, coll_feed, debt_feed)->Ok_0.0;
    let m = s.market->Some_0;
    let p = position_of(s, borrower);
    let (r1, r2) = crate::model::pair_resolution(
        s,
        m.collateral_token,
        m.debt_token,
        now,
        coll_feed,
        debt_feed,
        false,
    )->Ok_0;
    crate::model::pair_state_frame(s, m.collateral_token, m.debt_token, now, r1, r2);
    let mode = crate::model::repay_mode(repay_amount)->Ok_0;
    let plan = crate::model::plan_for(s, m, p, r1, r2, mode);
    let np = crate::storage::Position {
        collateral: (p.collateral - plan.seize_units) as i128,
        debt: crate::arith::clamp128(crate::arith::clamp128(p.debt - plan.repay_units) - plan.bad_debt_units) as i128,
    };
    crate::model::wf_bounds(s, borrower);
    crate::liquidation::plan_guarantees(
        p.collateral,
        p.debt,
        r1.price,
        r2.price,
        m.liq_threshold_bps,
        s.liq_params.base_bonus_bps,
        s.liq_params.max_bonus_bps,
        s.liq_params.penalty_cap_bps,
        mode,
    );
    crate::liquidation::drained_position_has_no_debt(
        p.collateral,
        p.debt,
        r1.price,
        r2.price,
        m.liq_threshold_bps,
        s.liq_params.base_bonus_bps,
        s.liq_params.max_bonus_bps,
        s.liq_params.penalty_cap_bps,
        mode,
    );
    assert(np.debt == p.debt - plan.repay_units - plan.bad_debt_units);
    assert forall|u: AccountId| #[trigger] position_of(t, u).collateral == 0 implies position_of(t, u).debt
        == 0 by {
        crate::model::lookup_upsert(s.positions, borrower, np, u);
        crate::model::lookup_remove(s.positions, borrower, u);
        if u != borrower {
            assert(position_of(t, u) == position_of(s, u));
        }
    }
}

/// The circuit breaker: while paused, every state-changing request of a
/// depositor, borrower or liquidator is refused as paused.
pub proof fn paused_pool_refuses_changes(
    s: PoolState,
    who: AccountId,
    other: AccountId,
    amount: i128,
    now: u64,
    coll_feed: PriceFeed,
    debt_feed: PriceFeed,
)
    requires
        s.paused,
    ensures
        deposit_spec(s, who, amount) == Err::<(PoolState, Transfer), LoanError>(LoanError::Paused),
        withdraw_spec(s, who, amount) == Err::<(PoolState, Transfer), LoanError>(LoanError::Paused),
        deposit_collateral_spec(s, who, amount) == Err::<(PoolState, Transfer), LoanError>(LoanError::Paused),
        borrow_spec(s, who, amount, now, coll_feed, debt_feed) == Err::<(PoolState, Transfer), LoanError>(LoanError::Paused),
        repay_spec(s, who, amount) == Err::<(PoolState, Transfer), LoanError>(LoanError::Paused),
        withdraw_collateral_spec(s, who, amount, now, coll_feed, debt_feed) == Err::<(PoolState, Transfer), LoanError>(LoanError::Paused),
        liquidate_spec(s, who, other, amount, now, coll_feed, debt_feed) == Err::<(PoolState, crate::model::Liquidation), LoanError>(LoanError::Paused),
{
}

/// Withdrawing what was just deposited succeeds and restores the
/// depositor's balance and the pool's total deposits.
pub proof fn deposit_then_withdraw_restores(s: PoolState, depositor: AccountId, amount: i128)
    requires
        pool_wf(s),
        deposit_spec(s, depositor, amount) is Ok,
    ensures
        ({
            let s1 = deposit_spec(s, depositor, amount)->Ok_0.0;
            &&& withdraw_spec(s1, depositor, amount) is Ok
            &&& balance_of(withdraw_spec(s1, depositor, amount)->Ok_0.0, depositor) == balance_of(s, depositor)
            &&& withdraw_spec(s1, depositor, amount)->Ok_0.0.total_deposits == s.total_deposits
            &&& withdraw_spec(s1, depositor, amount)->Ok_0.0.total_borrowed == s.total_borrowed
        }),
{
    crate::model::wf_bounds(s, depositor);
    let s1 = deposit_spec(s, depositor, amount)->Ok_0.0;
    crate::model::lookup_upsert(s.depositors, depositor, (balance_of(s, depositor) + amount) as i128, depositor);
    crate::storage::upsert_facts(s.depositors, depositor, (balance_of(s, depositor) + amount) as i128);
    crate::model::lookup_upsert(s1.depositors, depositor, balance_of(s, depositor), depositor);
}

// ============================================================
// WHAT EACH REQUEST GUARANTEES
// ============================================================

/// A value in USD of non-negative units stays within `i128 / 1e8`.
proof fn value_bounds(units: int, price: int)
    requires
        units >= 0,
    ensures
        0 <= value_of(units, price) <= i128::MAX / 100_000_000,
{
    if price > 0 {
        assert(units * price >= 0) by (nonlinear_arith)
            requires
                units >= 0,
                price > 0,
        ;
        let x = clamp128(units * price);
        assert(x / 100_000_000 <= i128::MAX / 100_000_000) by (nonlinear_arith)
            requires
                0 <= x <= i128::MAX,
        ;
    }
}

/// Health at given prices: collateral value times the liquidation
/// threshold against debt value times `BPS`, both exact.
pub open spec fn healthy_at(p: Position, price_coll: i128, price_debt: i128, liq_threshold_bps: u32) -> bool {
    value_of(p.collateral as int, price_coll as int) * liq_threshold_bps >= value_of(p.debt as int, price_debt as int)
        * 10_000
}

/// A configured oracle gave a valid answer of `price`.
pub open spec fn answers(oracle: Option<AccountId>, answer: Option<(i128, u64)>, now: u64, price: i128) -> bool {
    &&& oracle is Some
    &&& match answer {
        Some((p, ts)) => p == price && answer_valid(p, ts, now),
        None => false,
    }
}

/// A configured oracle gave some valid answer.
pub open spec fn usable(oracle: Option<AccountId>, answer: Option<(i128, u64)>, now: u64) -> bool {
    &&& oracle is Some
    &&& match answer {
        Some((p, ts)) => answer_valid(p, ts, now),
        None => false,
    }
}

/// The failover chain and its record: a resolution from the primary
/// oracle uses a valid answer of a configured primary; one from the
/// secondary uses a valid answer of a configured secondary when the
/// primary had none; the TWAP is used only when neither had one. A direct
/// answer is recorded in the asset's TWAP
/// history (the accumulator becomes the old one having observed that price
/// at `now`) and the fallback counter stays; a TWAP fallback leaves the
/// history as it was and counts one more fallback. No other asset's history
/// and nothing outside the histories and the counter changes.
pub proof fn resolution_records_direct_answers(
    s: PoolState,
    asset: AccountId,
    now: u64,
    feed: PriceFeed,
    other: AccountId,
)
    requires
        pool_wf(s),
        resolution_spec(s, asset, now, feed) is Ok,
        other != asset,
    ensures
        ({
            let r = resolution_spec(s, asset, now, feed)->Ok_0;
            let t = resolved_state(s, asset, now, r);
            &&& r.source == PriceSource::Primary ==> answers(s.primary_oracle, feed.primary, now, r.price)
            &&& r.source == PriceSource::Secondary ==> answers(s.secondary_oracle, feed.secondary, now, r.price)
                && !usable(s.primary_oracle, feed.primary, now)
            &&& r.source == PriceSource::Twap ==> !usable(s.primary_oracle, feed.primary, now) && !usable(
                s.secondary_oracle,
                feed.secondary,
                now,
            )
            &&& r.source != PriceSource::Twap ==> twap_of(t, asset) == observe_spec(twap_of(s, asset), r.price, now)
                && t.twap_fallback_count == s.twap_fallback_count
            &&& r.source == PriceSource::Twap ==> twap_of(t, asset) == twap_of(s, asset)
                && t.twap_fallback_count == s.twap_fallback_count + 1
            &&& twap_of(t, other) == twap_of(s, other)
            &&& t.positions == s.positions && t.depositors == s.depositors
            &&& t.total_deposits == s.total_deposits && t.total_borrowed == s.total_borrowed
        }),
{
    let r = resolution_spec(s, asset, now, feed)->Ok_0;
    if r.source != PriceSource::Twap {
        crate::model::lookup_upsert(s.twaps, asset, observe_spec(twap_of(s, asset), r.price, now), asset);
        crate::model::observed_state_other(s, asset, r.price, now, other);
    }
}

/// The prices a sanity-checked pair resolution yields are the ones an
/// unchecked resolution (as liquidation uses) yields at the same moment.
proof fn checked_pair_is_unchecked_pair(
    s: PoolState,
    coll: AccountId,
    debt: AccountId,
    now: u64,
    coll_feed: PriceFeed,
    debt_feed: PriceFeed,
)
    requires
        pair_resolution(s, coll, debt, now, coll_feed, debt_feed, true) is Ok,
    ensures
        pair_resolution(s, coll, debt, now, coll_feed, debt_feed, false) == pair_resolution(
            s,
            coll,
            debt,
            now,
            coll_feed,
            debt_feed,
            true,
        ),
        pair_resolution(s, coll, debt, now, coll_feed, debt_feed, true)->Ok_0.0.price > 0,
        pair_resolution(s, coll, debt, now, coll_feed, debt_feed, true)->Ok_0.1.price > 0,
{
}

/// A successful borrow adds exactly the amount to the borrower's debt,
/// leaves its collateral, pays the amount out of the pool, and leaves the
/// borrower healthy at the resolved prices: collateral value times the
/// liquidation threshold covers the whole new debt's value times `BPS`.
pub proof fn borrow_leaves_borrower_healthy(
    s: PoolState,
    user: AccountId,
    amount: i128,
    now: u64,
    coll_feed: PriceFeed,
    debt_feed: PriceFeed,
)
    requires
        pool_wf(s),
        borrow_spec(s, user, amount, now, coll_feed, debt_feed) is Ok,
    ensures
        ({
            let (t, tr) = borrow_spec(s, user, amount, now, coll_feed, debt_feed)->Ok_0;
            let m = s.market->Some_0;
            let (r1, r2) = pair_resolution(s, m.collateral_token, m.debt_token, now, coll_feed, debt_feed, true)->Ok_0;
            &&& pair_resolution(s, m.collateral_token, m.debt_token, now, coll_feed, debt_feed, true) is Ok
            &&& position_of(t, user).debt == position_of(s, user).debt + amount
            &&& position_of(t, user).collateral == position_of(s, user).collateral
            &&& tr == (Transfer { token: m.debt_token, from: s.contract_id, to: user, amount })
            &&& healthy_at(position_of(t, user), r1.price, r2.price, m.liq_threshold_bps)
        }),
{
    let (t, tr) = borrow_spec(s, user, amount, now, coll_feed, debt_feed)->Ok_0;
    let m = s.market->Some_0;
    let (r1, r2) = pair_resolution(s, m.collateral_token, m.debt_token, now, coll_feed, debt_feed, true)->Ok_0;
    checked_pair_is_unchecked_pair(s, m.collateral_token, m.debt_token, now, coll_feed, debt_feed);
    crate::model::pair_state_frame(s, m.collateral_token, m.debt_token, now, r1, r2);
    crate::model::wf_bounds(s, user);
    let p = position_of(s, user);
    let np = Position { debt: (p.debt + amount) as i128, ..p };
    crate::model::lookup_upsert(s.positions, user, np, user);
    assert(p.debt + amount <= i128::MAX) by {
        assert(s.total_borrowed + amount <= s.total_deposits);
    }
    value_bounds(p.collateral as int, r1.price as int);
    value_bounds(p.debt + amount, r2.price as int);
    let cv = value_of(p.collateral as int, r1.price as int);
    let dv = value_of(p.debt + amount, r2.price as int);
    assert(0 <= cv * m.liq_threshold_bps <= i128::MAX) by (nonlinear_arith)
        requires
            0 <= cv <= i128::MAX / 100_000_000,
            m.liq_threshold_bps <= 9_500,
    ;
    assert(0 <= dv * 10_000 <= i128::MAX) by (nonlinear_arith)
        requires
            0 <= dv <= i128::MAX / 100_000_000,
    ;
    assert(clamp128(p.debt + amount) == p.debt + amount);
    assert(position_of(t, user) == np);
}

/// A successful collateral withdrawal takes exactly the amount out of the
/// position, leaves its debt, pays the amount out, and leaves an indebted
/// position healthy at the resolved prices: what remains, valued and
/// weighted by the liquidation threshold, covers the debt's value times
/// `BPS`, so the position is not liquidatable right after.
pub proof fn collateral_withdrawal_keeps_position_healthy(
    s: PoolState,
    user: AccountId,
    amount: i128,
    now: u64,
    coll_feed: PriceFeed,
    debt_feed: PriceFeed,
)
    requires
        pool_wf(s),
        withdraw_collateral_spec(s, user, amount, now, coll_feed, debt_feed) is Ok,
    ensures
        ({
            let (t, tr) = withdraw_collateral_spec(s, user, amount, now, coll_feed, debt_feed)->Ok_0;
            let m = s.market->Some_0;
            let (r1, r2) = pair_resolution(s, m.collateral_token, m.debt_token, now, coll_feed, debt_feed, true)->Ok_0;
            &&& position_of(t, user).collateral == position_of(s, user).collateral - amount
            &&& position_of(t, user).debt == position_of(s, user).debt
            &&& tr == (Transfer { token: m.collateral_token, from: s.contract_id, to: user, amount })
            &&& position_of(s, user).debt > 0 ==> pair_resolution(
                s,
                m.collateral_token,
                m.debt_token,
                now,
                coll_feed,
                debt_feed,
                true,
            ) is Ok && healthy_at(position_of(t, user), r1.price, r2.price, m.liq_threshold_bps)
        }),
{
    let (t, tr) = withdraw_collateral_spec(s, user, amount, now, coll_feed, debt_feed)->Ok_0;
    let m = s.market->Some_0;
    let p = position_of(s, user);
    crate::model::wf_bounds(s, user);
    let np = Position { collateral: (p.collateral - amount) as i128, ..p };
    crate::model::lookup_upsert(s.positions, user, np, user);
    if p.debt > 0 {
        let (r1, r2) = pair_resolution(s, m.collateral_token, m.debt_token, now, coll_feed, debt_feed, true)->Ok_0;
        checked_pair_is_unchecked_pair(s, m.collateral_token, m.debt_token, now, coll_feed, debt_feed);
        crate::model::pair_state_frame(s, m.collateral_token, m.debt_token, now, r1, r2);
        value_bounds(p.collateral - amount, r1.price as int);
        value_bounds(p.debt as int, r2.price as int);
        let cv = value_of(p.collateral - amount, r1.price as int);
        let dv = value_of(p.debt as int, r2.price as int);
        assert(0 <= cv * m.liq_threshold_bps <= i128::MAX) by (nonlinear_arith)
            requires
                0 <= cv <= i128::MAX / 100_000_000,
                m.liq_threshold_bps <= 9_500,
        ;
        assert(0 <= dv * 10_000 <= i128::MAX) by (nonlinear_arith)
            requires
                0 <= dv <= i128::MAX / 100_000_000,
        ;
    }
    assert(position_of(t, user) == np);
}

/// The reported health factor is the one liquidation uses: for an
/// indebted position it is exactly (collateral value times the liquidation
/// threshold, debt value times `BPS`) at the resolved prices, liquidation
/// at that moment resolves the same prices, and when the reported
/// numerator reaches the denominator every liquidation plan for the
/// position is empty, whatever the repayment mode.
pub proof fn health_factor_is_liquidation_health(
    s: PoolState,
    user: AccountId,
    now: u64,
    coll_feed: PriceFeed,
    debt_feed: PriceFeed,
    mode: RepayMode,
)
    requires
        pool_wf(s),
        health_factor_spec(s, user, now, coll_feed, debt_feed) is Ok,
        position_of(s, user).debt > 0,
    ensures
        ({
            let (num, den) = health_factor_spec(s, user, now, coll_feed, debt_feed)->Ok_0.1;
            let m = s.market->Some_0;
            let p = position_of(s, user);
            let (r1, r2) = pair_resolution(s, m.collateral_token, m.debt_token, now, coll_feed, debt_feed, true)->Ok_0;
            &&& pair_resolution(s, m.collateral_token, m.debt_token, now, coll_feed, debt_feed, false) == Ok::<
                (PriceResolution, PriceResolution),
                LoanError,
            >((r1, r2))
            &&& num == value_of(p.collateral as int, r1.price as int) * m.liq_threshold_bps
            &&& den == value_of(p.debt as int, r2.price as int) * 10_000
            &&& (num >= den <==> healthy_at(p, r1.price, r2.price, m.liq_threshold_bps))
            &&& num >= den ==> ({
                let plan = plan_spec(
                    p.collateral,
                    p.debt,
                    r1.price,
                    r2.price,
                    m.liq_threshold_bps,
                    s.liq_params.base_bonus_bps,
                    s.liq_params.max_bonus_bps,
                    s.liq_params.penalty_cap_bps,
                    mode,
                );
                plan.repay_units == 0 && plan.seize_units == 0 && plan.bad_debt_units == 0
            })
        }),
{
    let m = s.market->Some_0;
    let p = position_of(s, user);
    let (r1, r2) = pair_resolution(s, m.collateral_token, m.debt_token, now, coll_feed, debt_feed, true)->Ok_0;
    checked_pair_is_unchecked_pair(s, m.collateral_token, m.debt_token, now, coll_feed, debt_feed);
    crate::model::wf_bounds(s, user);
    value_bounds(p.collateral as int, r1.price as int);
    value_bounds(p.debt as int, r2.price as int);
    let cv = value_of(p.collateral as int, r1.price as int);
    let dv = value_of(p.debt as int, r2.price as int);
    assert(0 <= cv * m.liq_threshold_bps <= i128::MAX) by (nonlinear_arith)
        requires
            0 <= cv <= i128::MAX / 100_000_000,
            m.liq_threshold_bps <= 9_500,
    ;
    assert(0 <= dv * 10_000 <= i128::MAX) by (nonlinear_arith)
        requires
            0 <= dv <= i128::MAX / 100_000_000,
    ;
    crate::liquidation::plan_guarantees(
        p.collateral,
        p.debt,
        r1.price,
        r2.price,
        m.liq_threshold_bps,
        s.liq_params.base_bonus_bps,
        s.liq_params.max_bonus_bps,
        s.liq_params.penalty_cap_bps,
        mode,
    );
}

/// A successful deposit credits exactly the amount to the depositor and to
/// the total deposits, moves the amount of debt tokens from the depositor
/// into the pool, and touches no other balance and no position.
pub proof fn deposit_credits_depositor(s: PoolState, depositor: AccountId, amount: i128, other: AccountId)
    requires
        pool_wf(s),
        deposit_spec(s, depositor, amount) is Ok,
        other != depositor,
    ensures
        ({
            let (t, tr) = deposit_spec(s, depositor, amount)->Ok_0;
            &&& amount > 0
            &&& balance_of(t, depositor) == balance_of(s, depositor) + amount
            &&& balance_of(t, other) == balance_of(s, other)
            &&& t.total_deposits == s.total_deposits + amount
            &&& t.total_borrowed == s.total_borrowed && t.positions == s.positions
            &&& tr == (Transfer { token: s.market->Some_0.debt_token, from: depositor, to: s.contract_id, amount })
        }),
{
    let b = (balance_of(s, depositor) + amount) as i128;
    crate::model::lookup_upsert(s.depositors, depositor, b, depositor);
    crate::model::lookup_upsert(s.depositors, depositor, b, other);
    crate::model::wf_bounds(s, depositor);
}

/// A successful withdrawal takes no more than the depositor's balance and
/// the free liquidity, debits exactly the amount from the balance and the
/// total deposits, and pays the amount of debt tokens to the depositor.
pub proof fn withdrawal_debits_depositor(s: PoolState, depositor: AccountId, amount: i128, other: AccountId)
    requires
        pool_wf(s),
        withdraw_spec(s, depositor, amount) is Ok,
        other != depositor,
    ensures
        ({
            let (t, tr) = withdraw_spec(s, depositor, amount)->Ok_0;
            &&& 0 < amount <= balance_of(s, depositor)
            &&& amount <= s.total_deposits - s.total_borrowed
            &&& balance_of(t, depositor) == balance_of(s, depositor) - amount
            &&& balance_of(t, other) == balance_of(s, other)
            &&& t.total_deposits == s.total_deposits - amount
            &&& t.total_borrowed == s.total_borrowed && t.positions == s.positions
            &&& tr == (Transfer { token: s.market->Some_0.debt_token, from: s.contract_id, to: depositor, amount })
        }),
{
    let b = (balance_of(s, depositor) - amount) as i128;
    crate::model::lookup_upsert(s.depositors, depositor, b, depositor);
    crate::model::lookup_upsert(s.depositors, depositor, b, other);
    crate::model::wf_bounds(s, depositor);
}

/// A successful repayment pays the smaller of the amount and the debt,
/// which is positive; the debt and the total borrowed fall by exactly what
/// was paid, the collateral stays, and the paid debt tokens move from the
/// borrower into the pool.
pub proof fn repayment_settles_debt(s: PoolState, user: AccountId, amount: i128)
    requires
        pool_wf(s),
        repay_spec(s, user, amount) is Ok,
    ensures
        ({
            let (t, tr) = repay_spec(s, user, amount)->Ok_0;
            let before = position_of(s, user);
            let paid = tr.amount;
            &&& paid == (if amount <= before.debt { amount } else { before.debt })
            &&& paid > 0
            &&& position_of(t, user).debt == before.debt - paid
            &&& position_of(t, user).collateral == before.collateral
            &&& t.total_borrowed == s.total_borrowed - paid
            &&& t.total_deposits == s.total_deposits && t.depositors == s.depositors
            &&& tr.token == s.market->Some_0.debt_token && tr.from == user && tr.to == s.contract_id
        }),
{
    let p = position_of(s, user);
    crate::model::wf_bounds(s, user);
    let paid: int = if amount <= p.debt { amount as int } else { p.debt as int };
    crate::model::lookup_upsert(s.positions, user, Position { debt: (p.debt - paid) as i128, ..p }, user);
}

/// Posting collateral adds exactly the amount to the position, leaves its
/// debt, and moves the amount of collateral tokens into the pool.
pub proof fn collateral_deposit_credits_position(s: PoolState, user: AccountId, amount: i128)
    requires
        pool_wf(s),
        deposit_collateral_spec(s, user, amount) is Ok,
    ensures
        ({
            let (t, tr) = deposit_collateral_spec(s, user, amount)->Ok_0;
            &&& amount > 0
            &&& position_of(t, user).collateral == position_of(s, user).collateral + amount
            &&& position_of(t, user).debt == position_of(s, user).debt
            &&& t.total_borrowed == s.total_borrowed && t.total_deposits == s.total_deposits
            &&& tr == (Transfer { token: s.market->Some_0.collateral_token, from: user, to: s.contract_id, amount })
        }),
{
    let p = position_of(s, user);
    crate::model::lookup_upsert(
        s.positions,
        user,
        Position { collateral: (p.collateral + amount) as i128, ..p },
        user,
    );
}

/// Only an unhealthy position can be liquidated, and the transfers match
/// the outcome: a successful liquidation finds the borrower below the
/// liquidation threshold at the resolved prices, takes the liquidator's
/// repayment in debt tokens into the pool, pays the seized collateral to
/// the liquidator, and takes exactly the seized units out of the
/// borrower's collateral.
pub proof fn liquidation_needs_unhealthy_position(
    s: PoolState,
    liquidator: AccountId,
    borrower: AccountId,
    repay_amount: i128,
    now: u64,
    coll_feed: PriceFeed,
    debt_feed: PriceFeed,
)
    requires
        pool_wf(s),
        liquidate_spec(s, liquidator, borrower, repay_amount, now, coll_feed, debt_feed) is Ok,
    ensures
        ({
            let (t, l) = liquidate_spec(s, liquidator, borrower, repay_amount, now, coll_feed, debt_feed)->Ok_0;
            let m = s.market->Some_0;
            let (r1, r2) = pair_resolution(s, m.collateral_token, m.debt_token, now, coll_feed, debt_feed, false)->Ok_0;
            let p = position_of(s, borrower);
            &&& liquidator != borrower
            &&& p.debt > 0
            &&& !healthy_at(p, r1.price, r2.price, m.liq_threshold_bps)
            &&& position_of(t, borrower).collateral == p.collateral - l.result.seize_units
            &&& l.repay_transfer == (if l.result.repay_units > 0 {
                Some(Transfer { token: m.debt_token, from: liquidator, to: s.contract_id, amount: l.result.repay_units })
            } else {
                None
            })
            &&& l.seize_transfer == (if l.result.seize_units > 0 {
                Some(Transfer { token: m.collateral_token, from: s.contract_id, to: liquidator, amount: l.result.seize_units })
            } else {
                None
            })
        }),
{
    let m = s.market->Some_0;
    let p = position_of(s, borrower);
    let (r1, r2) = pair_resolution(s, m.collateral_token, m.debt_token, now, coll_feed, debt_feed, false)->Ok_0;
    crate::model::pair_state_frame(s, m.collateral_token, m.debt_token, now, r1, r2);
    crate::model::wf_bounds(s, borrower);
    let mode = crate::model::repay_mode(repay_amount)->Ok_0;
    crate::liquidation::plan_guarantees(
        p.collateral,
        p.debt,
        r1.price,
        r2.price,
        m.liq_threshold_bps,
        s.liq_params.base_bonus_bps,
        s.liq_params.max_bonus_bps,
        s.liq_params.penalty_cap_bps,
        mode,
    );
    let plan = crate::model::plan_for(s, m, p, r1, r2, mode);
    let np = Position {
        collateral: (p.collateral - plan.seize_units) as i128,
        debt: clamp128(clamp128(p.debt - plan.repay_units) - plan.bad_debt_units) as i128,
    };
    crate::model::lookup_upsert(s.positions, borrower, np, borrower);
    crate::model::lookup_remove(s.positions, borrower, borrower);
    value_bounds(p.collateral as int, r1.price as int);
    value_bounds(p.debt as int, r2.price as int);
    let cv = value_of(p.collateral as int, r1.price as int);
    let dv = value_of(p.debt as int, r2.price as int);
    assert(0 <= cv * m.liq_threshold_bps <= i128::MAX) by (nonlinear_arith)
        requires
            0 <= cv <= i128::MAX / 100_000_000,
            m.liq_threshold_bps <= 9_500,
    ;
    assert(0 <= dv * 10_000 <= i128::MAX) by (nonlinear_arith)
        requires
            0 <= dv <= i128::MAX / 100_000_000,
    ;
}

} // verus!
