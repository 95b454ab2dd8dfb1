// Scenario tests of the loan manager: lending lifecycle, oracle failover,
// liquidation engine and a randomized solvency scenario. A small host
// simulation stands in for the ledger: token balances, mock oracles and
// the ledger clock.
use std::collections::HashMap;

use loan_manager::constants::{
    MAX_PRICE_STALENESS_SECS, TWAP_MIN_SPAN_SECS, TWAP_SNAPSHOT_INTERVAL_SECS, TWAP_WINDOW_SECS,
};
use loan_manager::model::{Liquidation, LiquidationResult, LoanError, PriceFeed, Transfer, FULL_REPAY_SENTINEL};
use loan_manager::pool::LoanManagerContract;
use loan_manager::storage::{AccountId, LiqParams, Market, Position, PriceObservation, PriceResolution, PriceSource};

/// 1.0 USD in oracle price decimals.
const PRICE_ONE: i128 = 100_000_000;
/// Default liquidation threshold used by fixtures (80%).
const DEFAULT_THRESHOLD_BPS: u32 = 8_000;

/// Host simulation around one loan manager.
struct Setup {
    pool: LoanManagerContract,
    now: u64,
    balances: HashMap<(AccountId, AccountId), i128>,
    /// oracle -> asset -> (price, timestamp); a missing price traps.
    oracles: HashMap<AccountId, HashMap<AccountId, (Option<i128>, u64)>>,
    next_id: AccountId,
    id: AccountId,
    coll_id: AccountId,
    debt_id: AccountId,
    primary: AccountId,
    secondary: AccountId,
    admin: AccountId,
    alice: AccountId,
    bob: AccountId,
    d1: AccountId,
    d2: AccountId,
    d3: AccountId,
}

fn fail(e: LoanError) -> ! {
    panic!("{}", e.message())
}

impl Setup {
    fn generate(&mut self) -> AccountId {
        self.next_id += 1;
        self.next_id
    }

    fn balance(&self, token: AccountId, who: AccountId) -> i128 {
        *self.balances.get(&(token, who)).unwrap_or(&0)
    }

    fn mint(&mut self, token: AccountId, who: AccountId, amount: i128) {
        let b = self.balance(token, who);
        self.balances.insert((token, who), b + amount);
    }

    fn apply(&mut self, t: Transfer) {
        let from = self.balance(t.token, t.from);
        if from < t.amount {
            panic!("balance is not sufficient to spend");
        }
        self.balances.insert((t.token, t.from), from - t.amount);
        let to = self.balance(t.token, t.to);
        self.balances.insert((t.token, t.to), to + t.amount);
    }

    fn advance_time(&mut self, secs: u64) {
        self.now += secs;
    }

    // ---- mock oracles ----

    fn set_price(&mut self, oracle: AccountId, asset: AccountId, price: i128) {
        let now = self.now;
        self.oracles.entry(oracle).or_default().insert(asset, (Some(price), now));
    }

    fn set_stale(&mut self, oracle: AccountId, asset: AccountId, age_secs: u64) {
        let ts = self.now.saturating_sub(age_secs);
        let e = self.oracles.entry(oracle).or_default().entry(asset).or_insert((None, 0));
        e.1 = ts;
    }

    fn set_raw(&mut self, oracle: AccountId, asset: AccountId, price: i128, ts: u64) {
        self.oracles.entry(oracle).or_default().insert(asset, (Some(price), ts));
    }

    fn latest_price(&self, oracle: AccountId, asset: AccountId) -> Option<(i128, u64)> {
        match self.oracles.get(&oracle).and_then(|m| m.get(&asset)) {
            Some((Some(p), ts)) => Some((*p, *ts)),
            _ => None,
        }
    }

    fn feed(&self, asset: AccountId) -> PriceFeed {
        PriceFeed {
            primary: self.pool.get_primary_oracle().and_then(|o| self.latest_price(o, asset)),
            secondary: self.pool.get_secondary_oracle().and_then(|o| self.latest_price(o, asset)),
        }
    }

    fn coll_price(&mut self, price: i128) {
        let (p, c) = (self.primary, self.coll_id);
        self.set_price(p, c, price);
    }

    // ---- contract calls (panicking on refusal like a contract client) ----

    fn try_deposit(&mut self, d: AccountId, amount: i128) -> Result<(), LoanError> {
        let t = self.pool.deposit(d, amount)?;
        self.apply(t);
        Ok(())
    }

    fn deposit(&mut self, d: AccountId, amount: i128) {
        self.try_deposit(d, amount).unwrap_or_else(|e| fail(e))
    }

    fn try_withdraw(&mut self, d: AccountId, amount: i128) -> Result<(), LoanError> {
        let t = self.pool.withdraw(d, amount)?;
        self.apply(t);
        Ok(())
    }

    fn withdraw(&mut self, d: AccountId, amount: i128) {
        self.try_withdraw(d, amount).unwrap_or_else(|e| fail(e))
    }

    fn deposit_collateral(&mut self, u: AccountId, amount: i128) {
        let t = self.pool.deposit_collateral(u, amount).unwrap_or_else(|e| fail(e));
        self.apply(t);
    }

    fn try_borrow(&mut self, u: AccountId, amount: i128) -> Result<(), LoanError> {
        let (cf, df) = (self.feed(self.coll_id), self.feed(self.debt_id));
        let t = self.pool.borrow(u, amount, self.now, cf, df)?;
        self.apply(t);
        Ok(())
    }

    fn borrow(&mut self, u: AccountId, amount: i128) {
        self.try_borrow(u, amount).unwrap_or_else(|e| fail(e))
    }

    fn try_repay(&mut self, u: AccountId, amount: i128) -> Result<(), LoanError> {
        let t = self.pool.repay(u, amount)?;
        self.apply(t);
        Ok(())
    }

    fn repay(&mut self, u: AccountId, amount: i128) {
        self.try_repay(u, amount).unwrap_or_else(|e| fail(e))
    }

    fn try_withdraw_collateral(&mut self, u: AccountId, amount: i128) -> Result<(), LoanError> {
        let (cf, df) = (self.feed(self.coll_id), self.feed(self.debt_id));
        let t = self.pool.withdraw_collateral(u, amount, self.now, cf, df)?;
        self.apply(t);
        Ok(())
    }

    fn withdraw_collateral(&mut self, u: AccountId, amount: i128) {
        self.try_withdraw_collateral(u, amount).unwrap_or_else(|e| fail(e))
    }

    fn try_liquidate(&mut self, liquidator: AccountId, borrower: AccountId, amount: i128) -> Result<LiquidationResult, LoanError> {
        let (cf, df) = (self.feed(self.coll_id), self.feed(self.debt_id));
        let l: Liquidation = self.pool.liquidate(liquidator, borrower, amount, self.now, cf, df)?;
        if let Some(t) = l.repay_transfer {
            self.apply(t);
        }
        if let Some(t) = l.seize_transfer {
            self.apply(t);
        }
        Ok(l.result)
    }

    fn liquidate(&mut self, liquidator: AccountId, borrower: AccountId, amount: i128) -> LiquidationResult {
        self.try_liquidate(liquidator, borrower, amount).unwrap_or_else(|e| fail(e))
    }

    fn record_price(&mut self, asset: AccountId) {
        let f = self.feed(asset);
        self.pool.record_price(asset, self.now, f).unwrap_or_else(|e| fail(e))
    }

    fn try_preview_price(&mut self, asset: AccountId) -> Result<PriceResolution, LoanError> {
        let f = self.feed(asset);
        self.pool.preview_price(asset, self.now, f)
    }

    fn preview_price(&mut self, asset: AccountId) -> PriceResolution {
        self.try_preview_price(asset).unwrap_or_else(|e| fail(e))
    }

    fn health_factor(&mut self, u: AccountId) -> (i128, i128) {
        let (cf, df) = (self.feed(self.coll_id), self.feed(self.debt_id));
        self.pool.health_factor(u, self.now, cf, df).unwrap_or_else(|e| fail(e))
    }

    fn twap_now(&self, asset: AccountId) -> i128 {
        self.pool.twap_now(asset, self.now).unwrap_or_else(|e| fail(e))
    }

    fn get_twap(&self, asset: AccountId) -> Vec<PriceObservation> {
        self.pool.get_twap(asset)
    }

    fn get_position(&self, u: AccountId) -> Position {
        self.pool.get_position(u)
    }

    fn get_depositor_balance(&self, d: AccountId) -> i128 {
        self.pool.get_depositor_balance(d)
    }

    fn get_pool_info(&self) -> (i128, i128, u32) {
        self.pool.get_pool_info()
    }

    fn set_oracles(&mut self, admin: AccountId, primary: Option<AccountId>, secondary: Option<AccountId>) {
        self.pool.set_oracles(admin, primary, secondary).unwrap_or_else(|e| fail(e))
    }

    fn set_liq_params(&mut self, admin: AccountId, base: u32, max: u32, cap: u32) {
        self.pool.set_liq_params(admin, base, max, cap).unwrap_or_else(|e| fail(e))
    }

    fn pause(&mut self, admin: AccountId) {
        self.pool.pause(admin).unwrap_or_else(|e| fail(e))
    }

    fn unpause(&mut self, admin: AccountId) {
        self.pool.unpause(admin).unwrap_or_else(|e| fail(e))
    }

    fn init(&mut self, admin: AccountId) {
        self.pool.init(admin).unwrap_or_else(|e| fail(e))
    }
}

fn setup() -> Setup {
    let mut s = Setup {
        pool: LoanManagerContract::new(1),
        // Start from a realistic unix-ish timestamp so staleness and TWAP
        // window arithmetic behaves like production.
        now: 1_700_000_000,
        balances: HashMap::new(),
        oracles: HashMap::new(),
        next_id: 100,
        id: 1,
        coll_id: 10,
        debt_id: 11,
        primary: 20,
        secondary: 21,
        admin: 2,
        alice: 3,
        bob: 4,
        d1: 5,
        d2: 6,
        d3: 7,
    };
    let (coll, debt, primary, secondary, admin) = (s.coll_id, s.debt_id, s.primary, s.secondary, s.admin);
    s.set_price(primary, coll, PRICE_ONE);
    s.set_price(primary, debt, PRICE_ONE);
    s.set_price(secondary, coll, PRICE_ONE);
    s.set_price(secondary, debt, PRICE_ONE);
    s.init(admin);
    s.set_oracles(admin, Some(primary), Some(secondary));
    s.pool.set_market(admin, coll, debt, DEFAULT_THRESHOLD_BPS).unwrap_or_else(|e| fail(e));
    // Seed TWAP history at t0.
    s.record_price(coll);
    s.record_price(debt);
    for user in [s.alice, s.bob] {
        s.mint(coll, user, 100_000_000_000);
        s.mint(debt, user, 100_000_000_000);
    }
    s
}

/// Deposit pool liquidity from each (depositor, amount) pair.
fn seed_liquidity(s: &mut Setup, depositors: &[AccountId], amounts: &[i128]) {
    for (d, a) in depositors.iter().zip(amounts.iter()) {
        let debt = s.debt_id;
        s.mint(debt, *d, *a);
        s.deposit(*d, *a);
    }
}

/// Open a healthy position for `user`.
fn open_position(s: &mut Setup, user: AccountId, coll: i128, debt: i128) {
    if coll > 0 {
        s.deposit_collateral(user, coll);
    }
    if debt > 0 {
        s.borrow(user, debt);
    }
}

fn debt_balance(s: &Setup, user: AccountId) -> i128 {
    s.balance(s.debt_id, user)
}

fn coll_balance(s: &Setup, user: AccountId) -> i128 {
    s.balance(s.coll_id, user)
}

// ============================================================
// LIQUIDITY
// ============================================================

#[test]
fn test_deposit_and_withdraw_roundtrip() {
    let mut s = setup();
    let (d1, d2) = (s.d1, s.d2);
    seed_liquidity(&mut s, &[d1, d2], &[5_000, 3_000]);

    let (total_deposits, total_borrowed, _) = s.get_pool_info();
    assert_eq!(total_deposits, 8_000);
    assert_eq!(total_borrowed, 0);

    // Contract custody matches accounting.
    assert_eq!(debt_balance(&s, s.id), 8_000);

    s.withdraw(d2, 1_000);
    let (td, _, _) = s.get_pool_info();
    assert_eq!(td, 7_000);
}

#[test]
#[should_panic(expected = "insufficient depositor balance")]
fn test_withdraw_more_than_balance_panics() {
    let mut s = setup();
    let d1 = s.d1;
    seed_liquidity(&mut s, &[d1], &[1_000]);
    s.withdraw(d1, 1_500);
}

#[test]
#[should_panic(expected = "insufficient pool liquidity")]
fn test_withdraw_beyond_free_liquidity_panics() {
    let mut s = setup();
    let (d1, alice) = (s.d1, s.alice);
    seed_liquidity(&mut s, &[d1], &[10_000]);
    open_position(&mut s, alice, 4_000, 2_000); // locks 2000 in the pool
    s.withdraw(d1, 9_000); // only 8000 free
}

#[test]
#[should_panic(expected = "invalid amount")]
fn test_zero_deposit_rejected() {
    let mut s = setup();
    let d1 = s.d1;
    s.deposit(d1, 0i128);
}

// ============================================================
// BORROW / REPAY
// ============================================================

#[test]
fn test_borrow_within_collateral_succeeds() {
    let mut s = setup();
    let (d1, alice) = (s.d1, s.alice);
    seed_liquidity(&mut s, &[d1], &[10_000]);
    open_position(&mut s, alice, 2_000, 1_500);

    let pos = s.get_position(alice);
    assert_eq!(pos.collateral, 2_000);
    assert_eq!(pos.debt, 1_500);

    // HF fraction: num/den = (2000*8000)/(1500*10000) > 1 → healthy.
    let (num, den) = s.health_factor(alice);
    assert!(num >= den);
}

#[test]
#[should_panic(expected = "insufficient collateral")]
fn test_borrow_beyond_threshold_panics() {
    let mut s = setup();
    let (d1, alice) = (s.d1, s.alice);
    seed_liquidity(&mut s, &[d1], &[10_000]);
    // HF would be (1000*8000)/(900*10000) < 1.
    open_position(&mut s, alice, 1_000, 900);
}

#[test]
#[should_panic(expected = "insufficient pool liquidity")]
fn test_borrow_beyond_pool_liquidity_panics() {
    let mut s = setup();
    let (d1, alice) = (s.d1, s.alice);
    seed_liquidity(&mut s, &[d1], &[1_000]);
    open_position(&mut s, alice, 50_000, 1_001);
}

#[test]
fn test_repay_restores_capacity() {
    let mut s = setup();
    let (d1, alice) = (s.d1, s.alice);
    seed_liquidity(&mut s, &[d1], &[10_000]);
    open_position(&mut s, alice, 2_000, 1_500);

    s.repay(alice, 500);
    let pos = s.get_position(alice);
    assert_eq!(pos.debt, 1_000);

    // Over-repayment is capped at outstanding debt.
    s.repay(alice, 99_999);
    let pos = s.get_position(alice);
    assert_eq!(pos.debt, 0);

    let (_, tb, _) = s.get_pool_info();
    assert_eq!(tb, 0);
}

#[test]
fn test_withdraw_collateral_respects_health() {
    let mut s = setup();
    let (d1, alice) = (s.d1, s.alice);
    seed_liquidity(&mut s, &[d1], &[10_000]);
    open_position(&mut s, alice, 2_000, 1_000);

    // Pulling 600 keeps (1400*8000) >= 1000*10000 → allowed.
    s.withdraw_collateral(alice, 600);
    assert_eq!(coll_balance(&s, alice), 100_000_000_000 - 1_400);

    // Pulling more would undercollateralize.
    let res = s.try_withdraw_collateral(alice, 500);
    assert!(res.is_err());
}

// ============================================================
// ACCESS CONTROL & INIT
// ============================================================

#[test]
#[should_panic(expected = "unauthorized")]
fn test_non_admin_cannot_set_oracles() {
    let mut s = setup();
    let stranger = s.generate();
    let (p, q) = (s.primary, s.secondary);
    s.set_oracles(stranger, Some(p), Some(q));
}

#[test]
#[should_panic(expected = "unauthorized")]
fn test_non_admin_cannot_pause() {
    let mut s = setup();
    let stranger = s.generate();
    s.pause(stranger);
}

#[test]
#[should_panic(expected = "already initialized")]
fn test_double_init_panics() {
    let mut s = setup();
    let admin = s.admin;
    s.init(admin);
}

#[test]
fn test_ops_fail_before_market_configured() {
    let mut pool = LoanManagerContract::new(1);
    // deposit without init/market → refused.
    let user = 42;
    let res = pool.deposit(user, 100i128);
    assert!(res.is_err(), "uninitialized contract must reject deposits");
}

// ============================================================
// PAUSE CIRCUIT BREAKER
// ============================================================

#[test]
fn test_pause_blocks_state_changes_but_not_views() {
    let mut s = setup();
    let (d1, alice, bob, admin) = (s.d1, s.alice, s.bob, s.admin);
    seed_liquidity(&mut s, &[d1], &[5_000]);
    open_position(&mut s, alice, 2_000, 1_000);

    s.pause(admin);
    assert!(s.pool.is_paused_view());

    // State-changing calls are halted…
    assert!(s.try_deposit(d1, 100i128).is_err());
    assert!(s.try_borrow(alice, 100i128).is_err());
    assert!(s.try_repay(alice, 100i128).is_err());
    assert!(s.try_liquidate(bob, alice, 0i128).is_err());

    // …while read-only views keep working.
    let pos = s.get_position(alice);
    assert_eq!(pos.debt, 1_000);

    s.unpause(admin);
    assert!(!s.pool.is_paused_view());
    // d1's balance was fully consumed by the seed deposit; top up first.
    let debt = s.debt_id;
    s.mint(debt, d1, 1_000);
    s.deposit(d1, 100); // works again
}

// ============================================================
// ORACLE FAILOVER CHAIN
// ============================================================

fn src(s: &mut Setup, source: PriceSource) -> bool {
    let c = s.coll_id;
    s.preview_price(c).source == source
}

#[test]
fn test_primary_oracle_used_when_healthy() {
    let mut s = setup();
    assert!(src(&mut s, PriceSource::Primary));
    // Price matches the mock's answer.
    let c = s.coll_id;
    assert_eq!(s.preview_price(c).price, PRICE_ONE);
}

#[test]
fn test_failover_to_secondary_when_primary_down() {
    let mut s = setup();
    // Remove the primary entirely — the chain must serve from secondary.
    let (admin, q) = (s.admin, s.secondary);
    s.set_oracles(admin, None, Some(q));
    assert!(src(&mut s, PriceSource::Secondary));
}

#[test]
fn test_failover_to_secondary_on_primary_stale() {
    let mut s = setup();
    let (p, c, d) = (s.primary, s.coll_id, s.debt_id);
    // Primary answers with stale data → rejected → secondary serves.
    s.set_stale(p, c, MAX_PRICE_STALENESS_SECS + 10);
    let r = s.preview_price(c);
    assert_eq!(r.source, PriceSource::Secondary);
    assert_eq!(r.price, PRICE_ONE);

    // The debt asset is still fresh on primary.
    let dr = s.preview_price(d);
    assert_eq!(dr.source, PriceSource::Primary);
}

#[test]
fn test_stale_primary_answer_rejected() {
    let mut s = setup();
    let (p, c) = (s.primary, s.coll_id);
    s.set_stale(p, c, MAX_PRICE_STALENESS_SECS + 1);
    assert_eq!(s.preview_price(c).source, PriceSource::Secondary);
}

#[test]
fn test_future_skew_rejected() {
    let mut s = setup();
    let (p, c) = (s.primary, s.coll_id);
    // An answer timestamped far in the future is implausible and must be
    // skipped in favour of the next source.
    let now = s.now;
    s.set_raw(p, c, PRICE_ONE, now + 3_600);
    assert_eq!(s.preview_price(c).source, PriceSource::Secondary);
}

#[test]
fn test_twap_fallback_when_both_oracles_dead() {
    let mut s = setup();
    let (p, q, c) = (s.primary, s.secondary, s.coll_id);
    // Seed a healthy TWAP history: record every snapshot interval at a
    // rising price so the weighted average is well-defined.
    let mut price: i128 = PRICE_ONE;
    for i in 0..12u64 {
        if i > 0 {
            price += 1_000_000; // +0.01 USD per step
            s.set_price(p, c, price);
        }
        s.advance_time(TWAP_SNAPSHOT_INTERVAL_SECS);
        s.record_price(c);
    }
    let snaps = s.get_twap(c);
    assert!(snaps.len() >= 2);

    // Kill both oracles (stale beyond limit) and jump past the min span so
    // the trailing window is usable.
    s.advance_time(TWAP_MIN_SPAN_SECS + TWAP_SNAPSHOT_INTERVAL_SECS);
    s.set_stale(p, c, MAX_PRICE_STALENESS_SECS + 5);
    s.set_stale(q, c, MAX_PRICE_STALENESS_SECS + 5);

    let r = s.preview_price(c);
    assert_eq!(r.source, PriceSource::Twap);

    // TWAP must land inside the observed price band [first, last].
    assert!(r.price >= PRICE_ONE && r.price <= price);

    // Fallback counter incremented.
    let (_, _, fallbacks) = s.get_pool_info();
    assert!(fallbacks >= 1);
}

#[test]
fn test_no_valid_price_source_panics() {
    let mut s = setup();
    // No history for a brand-new asset, and no oracle answers for it.
    let unknown = s.generate();
    let res = s.try_preview_price(unknown);
    assert!(res.is_err(), "expected 'no valid price source' panic");
    assert_eq!(res, Err(LoanError::NoValidPriceSource));
}

#[test]
fn test_twap_requires_minimum_span() {
    let mut s = setup();
    let (admin, c) = (s.admin, s.coll_id);
    // Build a short history (a few snapshots), then remove both oracles.
    for _ in 0..3 {
        s.advance_time(TWAP_SNAPSHOT_INTERVAL_SECS);
        s.record_price(c);
    }
    s.set_oracles(admin, None, None);

    // Immediately after failure the usable span is far below the minimum,
    // so the engine refuses rather than serving a gamed short average.
    let res = s.try_preview_price(c);
    assert!(res.is_err(), "TWAP must refuse to serve without minimum span");

    // Once enough ledger time passes, the trailing span satisfies the
    // minimum and the seeded history becomes usable.
    s.advance_time(TWAP_MIN_SPAN_SECS + 1);
    let r = s.preview_price(c);
    assert_eq!(r.source, PriceSource::Twap);
    assert_eq!(r.price, PRICE_ONE);
}

#[test]
fn test_zero_and_negative_prices_rejected() {
    let mut s = setup();
    let (p, q, c) = (s.primary, s.secondary, s.coll_id);
    // Build a healthy history deep enough to satisfy the minimum span.
    for _ in 0..7 {
        s.advance_time(TWAP_SNAPSHOT_INTERVAL_SECS);
        s.record_price(c);
    }
    // Primary reports zero → must be rejected.
    s.set_price(p, c, 0i128);
    // Secondary still serves a fresh, sane answer.
    s.set_price(q, c, PRICE_ONE);
    assert_eq!(s.preview_price(c).source, PriceSource::Secondary);
    // Negative price is likewise rejected.
    s.set_price(q, c, -5i128);
    // Both direct sources unusable → TWAP path (history seeded above).
    let r = s.preview_price(c);
    assert_eq!(r.source, PriceSource::Twap);
    // TWAP reflects previously seeded healthy prices.
    assert!(r.price > 0);
}

#[test]
fn test_window_cutoff_excludes_old_snapshots() {
    let mut s = setup();
    let (p, q, c) = (s.primary, s.secondary, s.coll_id);
    // Record at p=2.0, then much later switch to 3.0 and take several
    // snapshots; the 30-minute window must weight only recent data once
    // old points age out.
    s.set_price(p, c, 2 * PRICE_ONE);
    s.advance_time(TWAP_WINDOW_SECS);
    s.set_price(p, c, 3 * PRICE_ONE);
    for _ in 0..3 {
        s.advance_time(TWAP_SNAPSHOT_INTERVAL_SECS);
        s.record_price(c);
    }

    // Kill both oracles, then wait just over min-span.
    s.advance_time(TWAP_MIN_SPAN_SECS + TWAP_SNAPSHOT_INTERVAL_SECS);
    s.set_stale(p, c, MAX_PRICE_STALENESS_SECS + 5);
    s.set_stale(q, c, MAX_PRICE_STALENESS_SECS + 5);

    let twap = s.twap_now(c);
    // Should be near 3.0, definitely not dragged toward the 1.0/2.0 eras.
    assert!(twap >= 2 * PRICE_ONE, "window cutoff failed: twap={}", twap);
}

#[test]
fn test_market_threshold_config_visible() {
    let s = setup();
    let m: Market = s.pool.get_market_config().unwrap();
    assert_eq!(m.liq_threshold_bps, DEFAULT_THRESHOLD_BPS);
    assert_eq!(m.collateral_token, s.coll_id);
    assert_eq!(m.debt_token, s.debt_id);
}

// ============================================================
// LIQUIDATION GUARDS
// ============================================================

#[test]
#[should_panic(expected = "position not liquidatable")]
fn test_healthy_position_cannot_be_liquidated() {
    let mut s = setup();
    let (d1, alice, bob) = (s.d1, s.alice, s.bob);
    seed_liquidity(&mut s, &[d1], &[10_000]);
    open_position(&mut s, alice, 2_000, 1_000);
    s.liquidate(bob, alice, 0i128);
}

#[test]
#[should_panic(expected = "cannot self-liquidate")]
fn test_self_liquidation_rejected() {
    let mut s = setup();
    let (d1, alice) = (s.d1, s.alice);
    seed_liquidity(&mut s, &[d1], &[10_000]);
    open_position(&mut s, alice, 2_000, 1_500);
    s.coll_price(5_000_000); // deep crash
    s.liquidate(alice, alice, FULL_REPAY_SENTINEL);
}

// ============================================================
// PARTIAL LIQUIDATION → HF RESTORED TO ~1.1
// ============================================================

#[test]
fn test_partial_liquidation_restores_target_hf() {
    let mut s = setup();
    let (d1, alice, bob) = (s.d1, s.alice, s.bob);
    seed_liquidity(&mut s, &[d1], &[10_000]);
    open_position(&mut s, alice, 2_000, 1_000);

    s.coll_price(60_000_000); // 0.6 USD → coll value 1200
    let bob_coll_before = coll_balance(&s, bob);

    let res = s.liquidate(bob, alice, 0i128);

    // Dynamic bonus near HF=0.96 is close to the 5% base.
    assert!(res.bonus_bps >= 500 && res.bonus_bps < 800, "bonus={}", res.bonus_bps);
    assert_eq!(res.bad_debt_socialized, 0);

    // Health factor restored to ≈1.1: num/den >= 11/10 - rounding slack.
    let (num, den) = s.health_factor(alice);
    assert!(num * 10 + 20 >= den * 11, "post-HF {} / {} not ≈1.1", num, den);
    // And definitely above 1.
    assert!(num > den);

    // Borrower keeps the remainder of both sides.
    let pos = s.get_position(alice);
    assert!(pos.collateral > 0 && pos.debt > 0);

    // Liquidator paid debt tokens and received collateral (+bonus).
    assert_eq!(debt_balance(&s, bob), 100_000_000_000 - res.repay_units);
    assert_eq!(coll_balance(&s, bob), bob_coll_before + res.seize_units);

    // Pool accounting consistent.
    let (_, tb, _) = s.get_pool_info();
    assert_eq!(tb, pos.debt);
}

#[test]
fn test_specified_partial_amount_is_respected_and_capped() {
    let mut s = setup();
    let (d1, alice, bob) = (s.d1, s.alice, s.bob);
    seed_liquidity(&mut s, &[d1], &[10_000]);
    open_position(&mut s, alice, 2_000, 1_000);
    s.coll_price(60_000_000);

    // Ask for more than the whole debt — engine caps it safely.
    let res = s.liquidate(bob, alice, 5_000i128);
    assert!(res.repay_units <= 1_000);
    assert!(res.bad_debt_socialized == 0 || res.repay_units == 1_000);
}

// ============================================================
// DYNAMIC LIQUIDATOR INCENTIVES
// ============================================================

#[test]
fn test_dynamic_bonus_grows_as_health_deteriorates() {
    // Shallow crash.
    let mut s1 = setup();
    let (d1, alice, bob) = (s1.d1, s1.alice, s1.bob);
    seed_liquidity(&mut s1, &[d1], &[10_000]);
    open_position(&mut s1, alice, 2_000, 1_000);
    s1.coll_price(60_000_000);
    let shallow = s1.liquidate(bob, alice, 0i128);

    // Deep crash (same position shape, worse price).
    let mut s2 = setup();
    seed_liquidity(&mut s2, &[d1], &[10_000]);
    open_position(&mut s2, alice, 2_000, 1_500);
    s2.coll_price(10_000_000); // 0.1 USD → raw CR ≈ 0.133
    let deep = s2.liquidate(bob, alice, 0i128);

    assert!(
        deep.bonus_bps > shallow.bonus_bps,
        "deep bonus {} must exceed shallow bonus {}",
        deep.bonus_bps,
        shallow.bonus_bps
    );
    assert_eq!(shallow.bonus_bps, 580); // linear interp at HF=0.96
    assert_eq!(deep.bonus_bps, 1_500); // max dynamic bonus at very low HF
}

#[test]
fn test_penalty_cap_enforced_over_configured_max() {
    let mut s = setup();
    let (d1, alice, bob, admin) = (s.d1, s.alice, s.bob, s.admin);
    // Admin raises the dynamic ceiling to 25% but the hard cap stays 20%.
    s.set_liq_params(admin, 500u32, 2_500u32, 2_000u32);
    seed_liquidity(&mut s, &[d1], &[10_000]);
    open_position(&mut s, alice, 2_000, 1_500);
    s.coll_price(10_000_000);

    let res = s.liquidate(bob, alice, 0i128);
    assert_eq!(res.bonus_bps, 2_000, "penalty cap must bind");

    // Seized value can never exceed repay * (1 + cap).
    let repay_value = res.repay_units; // debt price = 1.0
    let seize_value = res.seize_units * 10_000_000 / PRICE_ONE;
    assert!(
        seize_value <= repay_value * 12_000 / 10_000 + 1,
        "seized {} exceeds repay*1.2 {}",
        seize_value,
        repay_value * 12_000 / 10_000
    );
}

// ============================================================
// FULL LIQUIDATION & BAD-DEBT SOCIALIZATION
// ============================================================

#[test]
fn test_full_liquidation_drains_and_socializes_bad_debt() {
    let mut s = setup();
    let (d1, d2, alice, bob) = (s.d1, s.d2, s.alice, s.bob);
    // Depositors: d1=6k, d2=4k → pro-rata shares 60/40.
    seed_liquidity(&mut s, &[d1, d2], &[6_000, 4_000]);
    open_position(&mut s, alice, 2_000, 1_500);

    // Catastrophic collateral crash: 2000 units @0.05 = 100 value vs 1500 debt.
    s.coll_price(5_000_000);

    let res = s.liquidate(bob, alice, FULL_REPAY_SENTINEL);

    // Position fully drained and written off.
    assert_eq!(res.bad_debt_socialized, 1_500 - res.repay_units);
    let pos = s.get_position(alice);
    assert_eq!(pos.collateral, 0);
    assert_eq!(pos.debt, 0);

    // Liquidator received all collateral.
    assert_eq!(res.seize_units, 2_000);
    assert_eq!(coll_balance(&s, bob), 100_000_000_000 + res.seize_units);

    // All borrower debt written off; accounting consistent.
    let (td, tb, _) = s.get_pool_info();
    assert_eq!(tb, 0, "all borrower debt written off");
    let b1 = s.get_depositor_balance(d1);
    let b2 = s.get_depositor_balance(d2);
    assert_eq!(td, b1 + b2, "deposits accounting must match balances");
}

#[test]
fn test_bad_debt_loss_split_proportionally() {
    let mut s = setup();
    let (d1, d2, alice, bob) = (s.d1, s.d2, s.alice, s.bob);
    seed_liquidity(&mut s, &[d1, d2], &[6_000, 4_000]);
    open_position(&mut s, alice, 2_000, 1_500);
    s.coll_price(5_000_000);

    s.liquidate(bob, alice, FULL_REPAY_SENTINEL);

    let total_after = s.get_depositor_balance(d1) + s.get_depositor_balance(d2);
    let (td, _, _) = s.get_pool_info();
    assert_eq!(td, total_after, "deposits accounting must match balances");

    // Loss = 1500 - repay(≈87) ≈ 1413 spread 60/40.
    let b1 = s.get_depositor_balance(d1);
    let b2 = s.get_depositor_balance(d2);
    assert!(b1 < 6_000 && b2 < 4_000);
    assert!((b1 - b2).abs() <= 2_200, "split should stay roughly proportional");
    // The pool still holds at least what depositors are owed.
    assert!(debt_balance(&s, s.id) >= td);
}

#[test]
fn test_deep_partial_also_drains_and_socializes() {
    let mut s = setup();
    let (d1, alice, bob) = (s.d1, s.alice, s.bob);
    seed_liquidity(&mut s, &[d1], &[10_000]);
    open_position(&mut s, alice, 2_000, 1_500);
    s.coll_price(5_000_000);

    // Partial mode on a hopeless position: target unreachable → affordability
    // cap drains all collateral and the remainder is socialized.
    let res = s.liquidate(bob, alice, 0i128);
    assert_eq!(res.seize_units, 2_000);
    assert!(res.bad_debt_socialized > 0);
    let pos = s.get_position(alice);
    assert_eq!(pos.debt, 0);
}

#[test]
fn test_zero_collateral_position_fully_socializes() {
    let mut s = setup();
    let (d1, alice, bob) = (s.d1, s.alice, s.bob);
    seed_liquidity(&mut s, &[d1], &[10_000]);
    open_position(&mut s, alice, 2_000, 1_000);
    s.coll_price(1_000_000); // nearly worthless

    // Drain everything: the tiny collateral covers almost nothing.
    let r1 = s.liquidate(bob, alice, FULL_REPAY_SENTINEL);
    assert!(r1.bad_debt_socialized > 0);
    assert_eq!(r1.bad_debt_socialized, 1_000 - r1.repay_units);
}

// ============================================================
// POOL SOLVENCY INVARIANT
// ============================================================

#[test]
fn test_pool_never_owes_more_than_it_holds() {
    let mut s = setup();
    let (d1, d2, alice, bob) = (s.d1, s.d2, s.alice, s.bob);
    seed_liquidity(&mut s, &[d1, d2], &[6_000, 4_000]);
    open_position(&mut s, alice, 2_000, 1_500);
    s.coll_price(5_000_000);
    let _ = s.liquidate(bob, alice, FULL_REPAY_SENTINEL);

    // Re-open at healthy prices, crash again, liquidate again.
    s.coll_price(PRICE_ONE);
    open_position(&mut s, alice, 1_000, 400);
    s.coll_price(2_000_000);
    let _ = s.liquidate(bob, alice, FULL_REPAY_SENTINEL);

    let (td, tb, _) = s.get_pool_info();
    assert!(
        debt_balance(&s, s.id) >= td,
        "contract balance {} < deposits owed {}",
        debt_balance(&s, s.id),
        td
    );
    assert!(tb == 0);
}

// ============================================================
// ADDITIONAL EDGE CASES & SCENARIOS
// ============================================================

#[test]
fn exact_threshold_is_not_liquidatable() {
    let mut s = setup();
    let (d1, alice, bob) = (s.d1, s.alice, s.bob);
    seed_liquidity(&mut s, &[d1], &[10_000]);
    open_position(&mut s, alice, 2_000, 1_000);

    // Price at which collateral value * 0.8 == debt value: 0.625.
    s.coll_price(62_500_000);

    // At exactly HF = 1 the position is not below the threshold.
    let res = s.try_liquidate(bob, alice, 0i128);
    assert_eq!(res, Err(LoanError::NotLiquidatable));
}

#[test]
fn test_sequential_partial_liquidations() {
    let mut s = setup();
    let (d1, alice, bob) = (s.d1, s.alice, s.bob);
    seed_liquidity(&mut s, &[d1], &[10_000]);
    open_position(&mut s, alice, 2_000, 1_000);
    s.coll_price(55_000_000);

    // First partial liquidation
    let res1 = s.liquidate(bob, alice, 100i128);
    assert_eq!(res1.repay_units, 100);

    let pos_after_1 = s.get_position(alice);

    // Position might still be liquidatable, try again
    if pos_after_1.debt > 0 && pos_after_1.collateral > 0 {
        let (num, den) = s.health_factor(alice);
        if num < den {
            // Second partial liquidation
            let res2 = s.liquidate(bob, alice, 100i128);
            assert!(res2.repay_units > 0);

            // Total collateral seized should not exceed initial
            assert!(res1.seize_units + res2.seize_units <= 2_000);
        }
    }
}

#[test]
fn test_full_liquidation_clears_position_completely() {
    let mut s = setup();
    let (d1, alice, bob) = (s.d1, s.alice, s.bob);
    seed_liquidity(&mut s, &[d1], &[10_000]);
    open_position(&mut s, alice, 2_000, 1_000);
    s.coll_price(5_000_000);

    s.liquidate(bob, alice, FULL_REPAY_SENTINEL);

    // Position should be completely cleared
    let pos = s.get_position(alice);
    assert_eq!(pos.collateral, 0);
    assert_eq!(pos.debt, 0);

    // Borrower should be able to open a new position
    s.coll_price(PRICE_ONE);
    open_position(&mut s, alice, 1_000, 500);
    let new_pos = s.get_position(alice);
    assert_eq!(new_pos.collateral, 1_000);
    assert_eq!(new_pos.debt, 500);
}

#[test]
fn test_liquidation_with_max_penalty_cap() {
    let mut s = setup();
    let (d1, alice, bob, admin) = (s.d1, s.alice, s.bob, s.admin);
    s.set_liq_params(admin, 500u32, 1_500u32, 2_000u32);

    seed_liquidity(&mut s, &[d1], &[10_000]);
    open_position(&mut s, alice, 2_000, 1_000);
    s.coll_price(10_000_000); // Deep crash

    let res = s.liquidate(bob, alice, 0i128);

    // Bonus should be capped at configured maximum
    assert!(res.bonus_bps <= 2_000);

    // Verify the liquidator doesn't get excessive bonus
    let repay_value = res.repay_units;
    let seize_value = res.seize_units * 10_000_000 / PRICE_ONE;
    let max_allowed = repay_value * 12_000 / 10_000;

    assert!(
        seize_value <= max_allowed + 1,
        "seize {} exceeds max allowed {}",
        seize_value,
        max_allowed
    );
}

#[test]
fn test_multiple_liquidators_compete_fairly() {
    let mut s = setup();
    let (d1, alice) = (s.d1, s.alice);
    seed_liquidity(&mut s, &[d1], &[10_000]);
    open_position(&mut s, alice, 4_000, 2_000);
    s.coll_price(55_000_000);

    let liquidator1 = s.generate();
    let liquidator2 = s.generate();
    let debt = s.debt_id;
    s.mint(debt, liquidator1, 1_000i128);
    s.mint(debt, liquidator2, 1_000i128);

    // First liquidator acts
    let res1 = s.liquidate(liquidator1, alice, 500i128);
    assert_eq!(res1.repay_units, 500);

    let pos_mid = s.get_position(alice);

    // If position still liquidatable, second liquidator can act
    let (num, den) = s.health_factor(alice);
    if num < den && pos_mid.debt > 0 {
        let res2 = s.liquidate(liquidator2, alice, 500i128);
        assert!(res2.repay_units > 0);

        // Combined shouldn't over-liquidate
        let pos_final = s.get_position(alice);
        assert!(pos_final.collateral >= 0);
        assert!(pos_final.debt >= 0);
    }
}

// ============================================================
// SCENARIO FUZZER — FAILURE MODES
// ============================================================

/// Small deterministic PRNG (xorshift64*) so failures are reproducible.
struct Rng(u64);

impl Rng {
    fn new(seed: u64) -> Self {
        Rng(seed.max(1))
    }
    fn next_u64(&mut self) -> u64 {
        let mut x = self.0;
        x ^= x >> 12;
        x ^= x << 25;
        x ^= x >> 27;
        self.0 = x;
        x.wrapping_mul(0x2545F4914F6CDD1D)
    }
    fn below(&mut self, n: u64) -> u64 {
        if n == 0 {
            0
        } else {
            self.next_u64() % n
        }
    }
}

#[test]
fn fuzz_scenario_random_markets_stay_solvent() {
    for seed in 0..24u64 {
        let mut rng = Rng::new(seed.wrapping_mul(0x9E3779B97F4A7C15));
        let mut s = setup();
        let (d1, d2, d3, alice, bob) = (s.d1, s.d2, s.d3, s.alice, s.bob);
        let (p, c, d) = (s.primary, s.coll_id, s.debt_id);

        let amounts = [
            200 + rng.below(3_000) as i128,
            200 + rng.below(3_000) as i128,
            200 + rng.below(3_000) as i128,
        ];
        seed_liquidity(&mut s, &[d1, d2, d3], &amounts);

        for _step in 0..30u64 {
            match rng.below(7) {
                // Alice posts collateral.
                0 => {
                    let amt = 100 + rng.below(2_000) as i128;
                    s.deposit_collateral(alice, amt);
                }
                // Alice borrows (may fail on HF).
                1 => {
                    let amt = 50 + rng.below(600) as i128;
                    let _ = s.try_borrow(alice, amt);
                }
                // Alice repays.
                2 => {
                    let amt = 10 + rng.below(400) as i128;
                    let _ = s.try_repay(alice, amt);
                }
                // Depositor pulls liquidity (may fail when locked).
                3 => {
                    let who = [d1, d2, d3][rng.below(3) as usize];
                    let bal = s.get_depositor_balance(who);
                    if bal > 0 {
                        let _ = s.try_withdraw(who, 1 + rng.below(bal as u64) as i128);
                    }
                }
                // Price shock: multiply or divide collateral price.
                4 => {
                    let cur = s.latest_price(p, c).unwrap().0;
                    let next = if rng.below(2) == 0 {
                        (cur / 2).max(1_000_000)
                    } else {
                        (cur.saturating_mul(3) / 2).min(300_000_000)
                    };
                    s.set_price(p, c, next);
                    s.advance_time(30 + rng.below(90));
                }
                // Oracle outage: force the primary stale; sometimes recover it.
                5 => {
                    if rng.below(2) == 0 {
                        s.set_stale(p, c, MAX_PRICE_STALENESS_SECS + 60);
                        s.set_stale(p, d, MAX_PRICE_STALENESS_SECS + 60);
                    } else {
                        s.set_price(p, c, PRICE_ONE);
                        s.set_price(p, d, PRICE_ONE);
                    }
                }
                // Liquidation attempt in a random mode.
                _ => {
                    let mode = rng.below(3);
                    let amt = match mode {
                        0 => FULL_REPAY_SENTINEL,
                        1 => 0i128,
                        _ => 1 + rng.below(900) as i128,
                    };
                    let _ = s.try_liquidate(bob, alice, amt);
                }
            }

            // ---- Global solvency invariants after EVERY step ----------
            let (td, tb, _) = s.get_pool_info();

            // Depositor accounting matches stored balances.
            let deps = s.pool.get_depositors();
            let mut sum_bal = 0i128;
            for dep in deps.iter() {
                sum_bal += s.get_depositor_balance(*dep);
            }
            assert_eq!(sum_bal, td, "seed {}: depositor balances {} != accounting {}", seed, sum_bal, td);

            // The pool's cash plus outstanding receivables always covers
            // depositor claims.
            let pool_bal = debt_balance(&s, s.id);
            assert!(
                pool_bal.saturating_add(tb) >= td,
                "seed {}: insolvent pool ({}+{} < {}) after step",
                seed,
                pool_bal,
                tb,
                td
            );

            // Borrow accounting mirrors positions.
            let pos = s.get_position(alice);
            assert_eq!(tb, pos.debt, "seed {}: borrowed != Σdebts", seed);

            // A fully drained borrower carries no phantom debt.
            if pos.collateral == 0 {
                assert_eq!(pos.debt, 0, "seed {}: orphaned debt remains", seed);
            }
        }
    }
}

// ============================================================
// LIQUIDATION: FURTHER SCENARIOS
// ============================================================

#[test]
fn test_liquidation_with_multiple_borrowers_independent() {
    // The liquidator must hold the debt tokens it repays; the depositor d1
    // has put all of its tokens into the pool, so a funded keeper acts.
    let mut s = setup();
    let (d1, alice, bob) = (s.d1, s.alice, s.bob);
    seed_liquidity(&mut s, &[d1], &[20_000]);

    // Two borrowers open positions
    open_position(&mut s, alice, 2_000, 1_000);
    open_position(&mut s, bob, 3_000, 1_500);

    // Price crash makes Alice liquidatable
    s.coll_price(60_000_000);

    // A keeper holding debt tokens liquidates Alice
    let keeper = s.generate();
    let debt = s.debt_id;
    s.mint(debt, keeper, 10_000);
    let res = s.liquidate(keeper, alice, 0i128);
    assert!(res.repay_units > 0);

    // Bob's position should remain untouched
    let bob_pos = s.get_position(bob);
    assert_eq!(bob_pos.collateral, 3_000);
    assert_eq!(bob_pos.debt, 1_500);

    // Pool accounting should be correct
    let (_, tb, _) = s.get_pool_info();
    let alice_pos = s.get_position(alice);
    assert_eq!(tb, alice_pos.debt + bob_pos.debt);
}

#[test]
fn test_liquidation_at_exact_threshold() {
    // Liquidatable means strictly below the threshold, so the boundary
    // price is refused and the next lower price is accepted.
    let mut s = setup();
    let (d1, alice, bob) = (s.d1, s.alice, s.bob);
    seed_liquidity(&mut s, &[d1], &[10_000]);
    open_position(&mut s, alice, 2_000, 1_000);

    // collateral_value * 0.8 == debt_value at price 0.625: the boundary
    // itself is not below the threshold.
    s.coll_price(62_500_000);
    assert_eq!(s.try_liquidate(bob, alice, 0i128), Err(LoanError::NotLiquidatable));

    // One step below the boundary the position is liquidatable.
    s.coll_price(62_400_000);
    let res = s.liquidate(bob, alice, 0i128);
    assert!(res.repay_units > 0);
}

#[test]
fn test_liquidator_insufficient_debt_tokens() {
    // The engine does not cap the repayment by what the liquidator holds,
    // so a liquidator with 100 tokens asks for a repayment of 100.
    let mut s = setup();
    let (d1, alice) = (s.d1, s.alice);
    seed_liquidity(&mut s, &[d1], &[10_000]);
    open_position(&mut s, alice, 2_000, 1_000);
    s.coll_price(50_000_000);

    // A liquidator with limited debt tokens repays what it holds.
    let liquidator = s.generate();
    let debt = s.debt_id;
    s.mint(debt, liquidator, 100);
    let res = s.liquidate(liquidator, alice, 100i128);
    assert!(res.repay_units <= 100);
    assert_eq!(debt_balance(&s, liquidator), 100 - res.repay_units);
    assert_eq!(coll_balance(&s, liquidator), res.seize_units);
}

#[test]
fn test_liquidation_bonus_increases_monotonically() {
    // Every price below makes the position liquidatable (at 0.70 it would
    // still be healthy and be refused); the bonus must grow as health
    // deteriorates.
    let prices = vec![60_000_000, 55_000_000, 50_000_000, 40_000_000, 30_000_000];
    let mut bonuses = vec![];

    for price in prices {
        let mut s = setup();
        let (d1, alice, bob) = (s.d1, s.alice, s.bob);
        seed_liquidity(&mut s, &[d1], &[10_000]);
        open_position(&mut s, alice, 2_000, 1_000);
        s.coll_price(price);

        let res = s.liquidate(bob, alice, 0i128);
        bonuses.push(res.bonus_bps);
    }

    for i in 1..bonuses.len() {
        assert!(
            bonuses[i] >= bonuses[i - 1],
            "bonus should increase as price drops: {} vs {}",
            bonuses[i],
            bonuses[i - 1]
        );
    }
    assert!(bonuses[bonuses.len() - 1] > bonuses[0]);
}

#[test]
fn test_liquidation_after_interest_accrual() {
    // The pool accrues no interest; what a month changes is the age of the
    // oracle answers, which the staleness limit refuses.
    let mut s = setup();
    let (d1, alice, bob) = (s.d1, s.alice, s.bob);
    seed_liquidity(&mut s, &[d1], &[10_000]);
    open_position(&mut s, alice, 2_000, 1_000);

    // A month passes; answers older than the staleness limit are refused,
    // and no TWAP history exists yet, so nothing can be priced.
    s.advance_time(86400 * 30);
    s.coll_price(55_000_000);
    assert_eq!(s.try_liquidate(bob, alice, 0i128), Err(LoanError::NoValidPriceSource));

    // Once the debt oracle answers again the position is liquidated.
    let (primary, debt) = (s.primary, s.debt_id);
    s.set_price(primary, debt, PRICE_ONE);
    let pos_before = s.get_position(alice);
    let res = s.liquidate(bob, alice, 0i128);
    assert!(res.repay_units > 0);
    assert!(res.repay_units <= pos_before.debt);
}

#[test]
fn test_liquidation_preserves_other_depositor_balances() {
    // A debt of 1_000 against 2_000 collateral units at 0.55 is below the
    // threshold (a debt of 800 would still be healthy and be refused).
    let mut s = setup();
    let (d1, d2, alice, bob) = (s.d1, s.d2, s.alice, s.bob);
    seed_liquidity(&mut s, &[d1, d2], &[6_000, 4_000]);

    let d1_before = s.get_depositor_balance(d1);
    let d2_before = s.get_depositor_balance(d2);

    open_position(&mut s, alice, 2_000, 1_000);
    s.coll_price(55_000_000);

    // Partial liquidation (no bad debt)
    let res = s.liquidate(bob, alice, 200i128);
    assert_eq!(res.bad_debt_socialized, 0);
    assert_eq!(s.get_depositor_balance(d1), d1_before);
    assert_eq!(s.get_depositor_balance(d2), d2_before);
}
