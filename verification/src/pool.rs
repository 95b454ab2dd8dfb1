//! The loan manager: a lending pool with a hardened liquidation engine.
//!
//! [`LoanManagerContract`] holds the whole contract state. Each entry point
//! takes the outside facts it depends on as plain values (the ledger time
//! and the answers of the configured oracles) and returns the token
//! transfers that the host must perform. A refused request returns the
//! reason as a [`LoanError`] and leaves the state untouched.
use vstd::prelude::*;

use crate::constants::{MAX_CONFIGURABLE_BONUS_BPS, MAX_LIQ_THRESHOLD_BPS, MAX_SANE_PRICE};
use crate::liquidation::{
    compute_plan, health_ratio, plan_computable, plan_guarantees, proportional_shares, share_of,
    units_to_value, value_of, RepayMode,
};
use crate::oracle::{
    empty_twap, observe_keeps_wf, observe_spec, twap_wf, twap_wf_computable, validate_answer,
    TwapState, TwapView,
};
use crate::storage::{sum_prefix_le, sum_take_step, PriceResolution, PriceSource};
use crate::storage::{
    default_liq_params, has_key, key_index, key_index_unique, keys_distinct, lookup, remove_key,
    sum, sum_nonneg, upsert, upsert_facts, AccountId, LiqParams, Market, Position,
};
use crate::model::{
    liquidation_step, pass2_idle, FULL_REPAY_SENTINEL, Liquidation, LiquidationResult,
    LoanError, PoolState, PriceFeed, Transfer, admin_check, balance_of, balances,
    balances_nonneg_upsert, balances_upsert, borrow_spec, checked_resolution, covers, debts,
    debts_upsert, deposit_collateral_spec, deposit_spec, fresh_state, health_factor_spec,
    liquidate_spec, lookup_upsert, observed_state, pair_resolution, pair_state,
    pair_state_frame, pass1, pass1_facts, pass2, pass2_facts, pool_wf, position_of,
    positions_nonneg_upsert, repay_spec, resolution_facts, resolution_nonneg, resolution_spec,
    resolved_state, second_resolution, socialize_spec, twap_of, twap_price_spec, value_nonneg,
    wf_bounds, with_fallbacks, withdraw_collateral_spec, withdraw_spec,
};

verus! {

/// The contract state as plain values, as the host stores it between
/// requests.
pub struct PoolParts {
    pub contract_id: AccountId,
    pub admin: Option<AccountId>,
    pub paused: bool,
    pub market: Option<Market>,
    pub primary_oracle: Option<AccountId>,
    pub secondary_oracle: Option<AccountId>,
    pub positions: Vec<(AccountId, Position)>,
    pub depositors: Vec<(AccountId, i128)>,
    pub total_deposits: i128,
    pub total_borrowed: i128,
    pub twaps: Vec<(AccountId, TwapState)>,
    pub liq_params: LiqParams,
    pub twap_fallback_count: u32,
}

impl View for PoolParts {
    type V = PoolState;

    open spec fn view(&self) -> PoolState {
        PoolState {
            contract_id: self.contract_id,
            admin: self.admin,
            paused: self.paused,
            market: self.market,
            primary_oracle: self.primary_oracle,
            secondary_oracle: self.secondary_oracle,
            positions: self.positions@,
            depositors: self.depositors@,
            total_deposits: self.total_deposits,
            total_borrowed: self.total_borrowed,
            twaps: self.twaps@.map_values(|e: (AccountId, TwapState)| (e.0, e.1@)),
            liq_params: self.liq_params,
            twap_fallback_count: self.twap_fallback_count,
        }
    }
}

/// Whether no key occurs twice in a keyed list.
fn distinct_keys<V>(v: &Vec<(AccountId, V)>) -> (r: bool)
    ensures
        r == keys_distinct(v@),
{
    let n = v.len();
    let mut i: usize = 0;
    while i < n
        invariant
            n == v@.len(),
            i <= n,
            forall|a: int, b: int| 0 <= a < i && 0 <= b < n && a != b ==> v@[a].0 != v@[b].0,
        decreases n - i,
    {
        let mut j: usize = 0;
        while j < n
            invariant
                n == v@.len(),
                i < n,
                j <= n,
                forall|a: int, b: int| 0 <= a < i && 0 <= b < n && a != b ==> v@[a].0 != v@[b].0,
                forall|b: int| 0 <= b < j && b != i ==> v@[i as int].0 != v@[b].0,
            decreases n - j,
        {
            if j != i && v[i].0 == v[j].0 {
                return false;
            }
            j = j + 1;
        }
        i = i + 1;
    }
    true
}

/// Whether every entry of a sequence of integers is non-negative and its
/// sum equals `total`.
fn sums_to(s: Ghost<Seq<int>>, values: &Vec<i128>, total: i128) -> (r: bool)
    requires
        values@.len() == s@.len(),
        forall|j: int| 0 <= j < s@.len() ==> #[trigger] s@[j] == values@[j],
    ensures
        r == ((forall|j: int| 0 <= j < s@.len() ==> #[trigger] s@[j] >= 0) && sum(s@) == total),
{
    let ghost sq = s@;
    let n = values.len();
    let mut acc: i128 = 0;
    let mut i: usize = 0;
    while i < n
        invariant
            sq == s@,
            n == sq.len(),
            values@.len() == n,
            forall|j: int| 0 <= j < sq.len() ==> #[trigger] sq[j] == values@[j],
            i <= n,
            forall|j: int| 0 <= j < i ==> #[trigger] sq[j] >= 0,
            acc == sum(sq.take(i as int)),
            acc >= 0,
        decreases n - i,
    {
        if values[i] < 0 {
            proof {
                assert(sq[i as int] == values@[i as int]);
                assert(sq[i as int] < 0);
            }
            return false;
        }
        proof {
            sum_take_step(sq, i as int);
        }
        if acc > i128::MAX - values[i] {
            proof {
                assert(sq[i as int] == values@[i as int]);
                if forall|m: int| 0 <= m < sq.len() ==> #[trigger] sq[m] >= 0 {
                    sum_prefix_le(sq, i as int + 1);
                    assert(sum(sq) > i128::MAX);
                }
            }
            return false;
        }
        acc = acc + values[i];
        i = i + 1;
    }
    proof {
        assert(sq.take(n as int) =~= sq);
    }
    acc == total
}

/// Whether a stored accumulator is well formed.
fn twap_state_wf(t: &TwapState) -> (r: bool)
    ensures
        r == twap_wf(t@),
{
    if t.last_price < 0 || t.cumulative < 0 || t.snapshots.len() > crate::constants::TWAP_MAX_SNAPSHOTS as usize {
        return false;
    }
    let n = t.snapshots.len();
    let mut i: usize = 0;
    while i < n
        invariant
            n == t.snapshots@.len(),
            i <= n,
            forall|j: int| 0 <= j < i ==> #[trigger] t.snapshots@[j].cum >= 0,
        decreases n - i,
    {
        if t.snapshots[i].cum < 0 {
            return false;
        }
        i = i + 1;
    }
    true
}

/// Whether stored parts satisfy the state invariant.
fn parts_wf(p: &PoolParts) -> (r: bool)
    ensures
        r == pool_wf(p@),
{
    let twaps_distinct = distinct_keys(&p.twaps);
    proof {
        let raw = p.twaps@;
        let viewed = p@.twaps;
        assert(viewed.len() == raw.len());
        assert forall|a: int| 0 <= a < raw.len() implies #[trigger] viewed[a].0 == raw[a].0 by {}
        if keys_distinct(raw) {
            assert forall|a: int, b: int| 0 <= a < viewed.len() && 0 <= b < viewed.len() && a != b implies viewed[a].0
                != viewed[b].0 by {
                assert(viewed[a].0 == raw[a].0);
                assert(viewed[b].0 == raw[b].0);
            }
        } else {
            let (a, b) = choose|a: int, b: int| 0 <= a < raw.len() && 0 <= b < raw.len() && a != b && raw[a].0 == raw[b].0;
            assert(viewed[a].0 == raw[a].0);
            assert(viewed[b].0 == raw[b].0);
        }
    }
    if !distinct_keys(&p.positions) || !distinct_keys(&p.depositors) || !twaps_distinct {
        return false;
    }
    let mut debts_v: Vec<i128> = Vec::new();
    let n = p.positions.len();
    let mut i: usize = 0;
    while i < n
        invariant
            n == p.positions@.len(),
            i <= n,
            debts_v@.len() == i,
            forall|j: int| 0 <= j < i ==> #[trigger] debts_v@[j] == p.positions@[j].1.debt,
            forall|j: int| 0 <= j < i ==> #[trigger] p.positions@[j].1.collateral >= 0,
        decreases n - i,
    {
        if p.positions[i].1.collateral < 0 {
            return false;
        }
        debts_v.push(p.positions[i].1.debt);
        i = i + 1;
    }
    let ghost ds = debts(p@.positions);
    if !sums_to(Ghost(ds), &debts_v, p.total_borrowed) {
        proof {
            if pool_wf(p@) {
                assert forall|j: int| 0 <= j < ds.len() implies #[trigger] ds[j] >= 0 by {
                    assert(p@.positions[j].1.collateral >= 0);
                }
            }
        }
        return false;
    }
    let mut bal_v: Vec<i128> = Vec::new();
    let m = p.depositors.len();
    let mut k: usize = 0;
    while k < m
        invariant
            m == p.depositors@.len(),
            k <= m,
            bal_v@.len() == k,
            forall|j: int| 0 <= j < k ==> #[trigger] bal_v@[j] == p.depositors@[j].1,
        decreases m - k,
    {
        bal_v.push(p.depositors[k].1);
        k = k + 1;
    }
    let ghost bs = balances(p@.depositors);
    if !sums_to(Ghost(bs), &bal_v, p.total_deposits) {
        proof {
            if pool_wf(p@) {
                assert forall|j: int| 0 <= j < bs.len() implies #[trigger] bs[j] >= 0 by {
                    assert(p@.depositors[j].1 >= 0);
                }
            }
        }
        return false;
    }
    let t = p.twaps.len();
    let mut q: usize = 0;
    while q < t
        invariant
            t == p.twaps@.len(),
            q <= t,
            forall|j: int| 0 <= j < q ==> twap_wf(#[trigger] p@.twaps[j].1),
        decreases t - q,
    {
        if !twap_state_wf(&p.twaps[q].1) {
            proof {
                assert(p@.twaps[q as int].1 == p.twaps@[q as int].1@);
            }
            return false;
        }
        q = q + 1;
    }
    if p.total_borrowed > p.total_deposits {
        return false;
    }
    let lp = p.liq_params;
    if lp.base_bonus_bps > lp.max_bonus_bps || lp.max_bonus_bps > MAX_CONFIGURABLE_BONUS_BPS
        || lp.penalty_cap_bps > MAX_CONFIGURABLE_BONUS_BPS {
        return false;
    }
    if let Some(m) = p.market {
        if m.liq_threshold_bps == 0 || m.liq_threshold_bps > MAX_LIQ_THRESHOLD_BPS || m.collateral_token == m.debt_token {
            return false;
        }
    }
    proof {
        assert forall|j: int| 0 <= j < p@.positions.len() implies #[trigger] p@.positions[j].1.collateral >= 0
            && p@.positions[j].1.debt >= 0 by {
            assert(ds[j] == p@.positions[j].1.debt);
        }
        assert forall|j: int| 0 <= j < p@.depositors.len() implies #[trigger] p@.depositors[j].1 >= 0 by {
            assert(bs[j] == p@.depositors[j].1);
        }
    }
    true
}

/// Contract state of the loan manager.
pub struct LoanManagerContract {
    contract_id: AccountId,
    admin: Option<AccountId>,
    paused: bool,
    market: Option<Market>,
    primary_oracle: Option<AccountId>,
    secondary_oracle: Option<AccountId>,
    positions: Vec<(AccountId, Position)>,
    depositors: Vec<(AccountId, i128)>,
    total_deposits: i128,
    total_borrowed: i128,
    twaps: Vec<(AccountId, TwapState)>,
    liq_params: LiqParams,
    twap_fallback_count: u32,
}

/// Index of `k` in a keyed list, if present.
fn find_key<V>(v: &Vec<(AccountId, V)>, k: AccountId) -> (r: Option<usize>)
    ensures
        match r {
            Some(i) => i < v@.len() && v@[i as int].0 == k,
            None => !has_key(v@, k),
        },
{
    let n = v.len();
    let mut i: usize = 0;
    while i < n
        invariant
            n == v@.len(),
            i <= n,
            forall|j: int| 0 <= j < i ==> v@[j].0 != k,
        decreases n - i,
    {
        if v[i].0 == k {
            return Some(i);
        }
        i = i + 1;
    }
    None
}

impl View for LoanManagerContract {
    type V = PoolState;

    closed spec fn view(&self) -> PoolState {
        PoolState {
            contract_id: self.contract_id,
            admin: self.admin,
            paused: self.paused,
            market: self.market,
            primary_oracle: self.primary_oracle,
            secondary_oracle: self.secondary_oracle,
            positions: self.positions@,
            depositors: self.depositors@,
            total_deposits: self.total_deposits,
            total_borrowed: self.total_borrowed,
            twaps: self.twaps@.map_values(|e: (AccountId, TwapState)| (e.0, e.1@)),
            liq_params: self.liq_params,
            twap_fallback_count: self.twap_fallback_count,
        }
    }
}


impl LoanManagerContract {
    /// A fresh, unconfigured contract living at `contract_id`.
    pub fn new(contract_id: AccountId) -> (r: LoanManagerContract)
        ensures
            r@ == fresh_state(contract_id),
            pool_wf(r@),
    {
        let r = LoanManagerContract {
            contract_id,
            admin: None,
            paused: false,
            market: None,
            primary_oracle: None,
            secondary_oracle: None,
            positions: Vec::new(),
            depositors: Vec::new(),
            total_deposits: 0,
            total_borrowed: 0,
            twaps: Vec::new(),
            liq_params: LiqParams::default(),
            twap_fallback_count: 0,
        };
        proof {
            assert(r@.twaps =~= Seq::<(AccountId, TwapView)>::empty());
            assert(debts(r@.positions) =~= Seq::<int>::empty());
            assert(balances(r@.depositors) =~= Seq::<int>::empty());
        }
        r
    }

    /// The state as plain values, for the host to store.
    pub fn into_parts(self) -> (p: PoolParts)
        ensures
            p@ == self@,
    {
        PoolParts {
            contract_id: self.contract_id,
            admin: self.admin,
            paused: self.paused,
            market: self.market,
            primary_oracle: self.primary_oracle,
            secondary_oracle: self.secondary_oracle,
            positions: self.positions,
            depositors: self.depositors,
            total_deposits: self.total_deposits,
            total_borrowed: self.total_borrowed,
            twaps: self.twaps,
            liq_params: self.liq_params,
            twap_fallback_count: self.twap_fallback_count,
        }
    }

    /// Rebuild the contract from stored parts; `None` when the parts break
    /// the state invariant.
    pub fn from_parts(p: PoolParts) -> (r: Option<LoanManagerContract>)
        ensures
            r is Some <==> pool_wf(p@),
            r matches Some(c) ==> c@ == p@,
    {
        if !parts_wf(&p) {
            return None;
        }
        Some(LoanManagerContract {
            contract_id: p.contract_id,
            admin: p.admin,
            paused: p.paused,
            market: p.market,
            primary_oracle: p.primary_oracle,
            secondary_oracle: p.secondary_oracle,
            positions: p.positions,
            depositors: p.depositors,
            total_deposits: p.total_deposits,
            total_borrowed: p.total_borrowed,
            twaps: p.twaps,
            liq_params: p.liq_params,
            twap_fallback_count: p.twap_fallback_count,
        })
    }

    // --------------------------------------------------------
    // ADMIN & CONFIGURATION
    // --------------------------------------------------------

    /// Ensure the caller matches the stored admin.
    fn assert_admin(&self, admin: AccountId) -> (r: Result<(), LoanError>)
        ensures
            r == admin_check(self@, admin),
    {
        match self.admin {
            None => Err(LoanError::AdminNotSet),
            Some(a) => if a == admin {
                Ok(())
            } else {
                Err(LoanError::Unauthorized)
            },
        }
    }

    /// Initialise the contract with an administrator; refused once an
    /// administrator exists.
    pub fn init(&mut self, admin: AccountId) -> (r: Result<(), LoanError>)
        requires
            pool_wf(old(self)@),
        ensures
            pool_wf(final(self)@),
            old(self)@.admin is Some ==> r == Err::<(), LoanError>(LoanError::AlreadyInitialized)
                && final(self)@ == old(self)@,
            old(self)@.admin is None ==> r is Ok && final(self)@ == (PoolState {
                admin: Some(admin),
                liq_params: default_liq_params(),
                ..old(self)@
            }),
    {
        if self.admin.is_some() {
            return Err(LoanError::AlreadyInitialized);
        }
        self.admin = Some(admin);
        self.liq_params = LiqParams::default();
        Ok(())
    }

    /// Configure the oracle failover chain (primary first, then secondary).
    pub fn set_oracles(&mut self, admin: AccountId, primary: Option<AccountId>, secondary: Option<AccountId>) -> (r: Result<(), LoanError>)
        requires
            pool_wf(old(self)@),
        ensures
            pool_wf(final(self)@),
            match admin_check(old(self)@, admin) {
                Err(e) => r == Err::<(), LoanError>(e) && final(self)@ == old(self)@,
                Ok(_) => r is Ok && final(self)@ == (PoolState {
                    primary_oracle: primary,
                    secondary_oracle: secondary,
                    ..old(self)@
                }),
            },
    {
        self.assert_admin(admin)?;
        self.primary_oracle = primary;
        self.secondary_oracle = secondary;
        Ok(())
    }

    /// Configure the single lending market (collateral/debt pair). The
    /// threshold must lie in `1..=MAX_LIQ_THRESHOLD_BPS` and the two tokens
    /// must differ.
    pub fn set_market(&mut self, admin: AccountId, collateral_token: AccountId, debt_token: AccountId, liq_threshold_bps: u32) -> (r: Result<(), LoanError>)
        requires
            pool_wf(old(self)@),
        ensures
            pool_wf(final(self)@),
            match admin_check(old(self)@, admin) {
                Err(e) => r == Err::<(), LoanError>(e) && final(self)@ == old(self)@,
                Ok(_) => if liq_threshold_bps == 0 || liq_threshold_bps > MAX_LIQ_THRESHOLD_BPS {
                    r == Err::<(), LoanError>(LoanError::InvalidLiquidationThreshold) && final(self)@ == old(self)@
                } else if collateral_token == debt_token {
                    r == Err::<(), LoanError>(LoanError::SameTokens) && final(self)@ == old(self)@
                } else {
                    r is Ok && final(self)@ == (PoolState {
                        market: Some(Market { collateral_token, debt_token, liq_threshold_bps }),
                        ..old(self)@
                    })
                },
            },
    {
        self.assert_admin(admin)?;
        if liq_threshold_bps == 0 || liq_threshold_bps > MAX_LIQ_THRESHOLD_BPS {
            return Err(LoanError::InvalidLiquidationThreshold);
        }
        if collateral_token == debt_token {
            return Err(LoanError::SameTokens);
        }
        self.market = Some(Market { collateral_token, debt_token, liq_threshold_bps });
        Ok(())
    }

    /// Tune liquidation incentives. Every value must be at most
    /// `MAX_CONFIGURABLE_BONUS_BPS` and the base bonus at most the maximum.
    pub fn set_liq_params(&mut self, admin: AccountId, base_bonus_bps: u32, max_bonus_bps: u32, penalty_cap_bps: u32) -> (r: Result<(), LoanError>)
        requires
            pool_wf(old(self)@),
        ensures
            pool_wf(final(self)@),
            match admin_check(old(self)@, admin) {
                Err(e) => r == Err::<(), LoanError>(e) && final(self)@ == old(self)@,
                Ok(_) => if base_bonus_bps > MAX_CONFIGURABLE_BONUS_BPS || max_bonus_bps
                    > MAX_CONFIGURABLE_BONUS_BPS || penalty_cap_bps > MAX_CONFIGURABLE_BONUS_BPS {
                    r == Err::<(), LoanError>(LoanError::BonusParamsTooHigh) && final(self)@ == old(self)@
                } else if base_bonus_bps > max_bonus_bps {
                    r == Err::<(), LoanError>(LoanError::BaseBonusExceedsMax) && final(self)@ == old(self)@
                } else {
                    r is Ok && final(self)@ == (PoolState {
                        liq_params: LiqParams { base_bonus_bps, max_bonus_bps, penalty_cap_bps },
                        ..old(self)@
                    })
                },
            },
    {
        self.assert_admin(admin)?;
        if base_bonus_bps > MAX_CONFIGURABLE_BONUS_BPS || max_bonus_bps > MAX_CONFIGURABLE_BONUS_BPS
            || penalty_cap_bps > MAX_CONFIGURABLE_BONUS_BPS {
            return Err(LoanError::BonusParamsTooHigh);
        }
        if base_bonus_bps > max_bonus_bps {
            return Err(LoanError::BaseBonusExceedsMax);
        }
        self.liq_params = LiqParams { base_bonus_bps, max_bonus_bps, penalty_cap_bps };
        Ok(())
    }

    /// Emergency circuit breaker: halt all state-changing operations.
    pub fn pause(&mut self, admin: AccountId) -> (r: Result<(), LoanError>)
        requires
            pool_wf(old(self)@),
        ensures
            pool_wf(final(self)@),
            match admin_check(old(self)@, admin) {
                Err(e) => r == Err::<(), LoanError>(e) && final(self)@ == old(self)@,
                Ok(_) => r is Ok && final(self)@ == (PoolState { paused: true, ..old(self)@ }),
            },
    {
        self.assert_admin(admin)?;
        self.paused = true;
        Ok(())
    }

    /// Resume normal operation.
    pub fn unpause(&mut self, admin: AccountId) -> (r: Result<(), LoanError>)
        requires
            pool_wf(old(self)@),
        ensures
            pool_wf(final(self)@),
            match admin_check(old(self)@, admin) {
                Err(e) => r == Err::<(), LoanError>(e) && final(self)@ == old(self)@,
                Ok(_) => r is Ok && final(self)@ == (PoolState { paused: false, ..old(self)@ }),
            },
    {
        self.assert_admin(admin)?;
        self.paused = false;
        Ok(())
    }

    // --------------------------------------------------------
    // ORACLE FAILOVER CHAIN
    // --------------------------------------------------------

    /// The stored accumulator of `asset` (unseeded when none exists).
    fn twap_ref(&self, asset: AccountId) -> (r: Option<usize>)
        requires
            pool_wf(self@),
        ensures
            match r {
                Some(i) => i < self.twaps@.len() && self.twaps@[i as int].0 == asset
                    && has_key(self@.twaps, asset) && key_index(self@.twaps, asset) == i
                    && twap_of(self@, asset) == self.twaps@[i as int].1@,
                None => !has_key(self@.twaps, asset) && twap_of(self@, asset) == empty_twap(),
            },
    {
        let r = find_key(&self.twaps, asset);
        proof {
            let m = self@.twaps;
            match r {
                Some(i) => {
                    assert(m[i as int].0 == asset);
                    key_index_unique(m, asset, i as int);
                },
                None => {
                    if has_key(m, asset) {
                        let j = key_index(m, asset);
                        assert(self.twaps@[j].0 == asset);
                    }
                },
            }
        }
        r
    }

    /// Feed an observed price into the accumulator of `asset` and record a
    /// bounded ring-buffer snapshot on the configured cadence.
    pub fn record_observation(&mut self, asset: AccountId, price: i128, now: u64)
        requires
            pool_wf(old(self)@),
        ensures
            final(self)@ == observed_state(old(self)@, asset, price, now),
            price >= 0 ==> pool_wf(final(self)@),
    {
        let ghost s = self@;
        let ghost t = twap_of(s, asset);
        match self.twap_ref(asset) {
            Some(i) => {
                let entry = self.twaps.remove(i);
                let (k, mut st) = entry;
                st.observe(price, now);
                self.twaps.insert(i, (k, st));
                proof {
                    assert(self@.twaps =~= s.twaps.update(i as int, (asset, observe_spec(t, price, now))));
                }
            },
            None => {
                let mut st = TwapState::empty();
                st.observe(price, now);
                self.twaps.push((asset, st));
                proof {
                    assert(self@.twaps =~= s.twaps.push((asset, observe_spec(t, price, now))));
                }
            },
        }
        proof {
            upsert_facts(s.twaps, asset, observe_spec(t, price, now));
            if price >= 0 {
                if has_key(s.twaps, asset) {
                    assert(twap_wf(s.twaps[key_index(s.twaps, asset)].1));
                }
                observe_keeps_wf(t, price, now);
                let u = self@.twaps;
                assert forall|i: int| 0 <= i < u.len() implies twap_wf(#[trigger] u[i].1) by {
                    if has_key(s.twaps, asset) && i == key_index(s.twaps, asset) {
                    } else if i < s.twaps.len() {
                        assert(u[i] == s.twaps[i]);
                    }
                }
            }
        }
    }

    /// Read-only half of [`Self::resolve_price`]: which price the failover
    /// chain yields when the fallback counter stands at `fallbacks`.
    fn resolution(&self, asset: AccountId, now: u64, feed: &PriceFeed, fallbacks: u32) -> (r: Result<PriceResolution, LoanError>)
        requires
            pool_wf(self@),
        ensures
            r == resolution_spec(with_fallbacks(self@, fallbacks), asset, now, *feed),
    {
        if let Some(_) = self.primary_oracle {
            if let Some((price, ts)) = feed.primary {
                if validate_answer(price, ts, now) {
                    return Ok(PriceResolution { price, source: PriceSource::Primary });
                }
            }
        }
        if let Some(_) = self.secondary_oracle {
            if let Some((price, ts)) = feed.secondary {
                if validate_answer(price, ts, now) {
                    return Ok(PriceResolution { price, source: PriceSource::Secondary });
                }
            }
        }
        // Both direct sources failed: fall back to the TWAP built from
        // previously recorded observations.
        if fallbacks == u32::MAX {
            return Err(LoanError::ArithmeticOverflow);
        }
        let twap = match self.twap_ref(asset) {
            Some(i) => {
                proof {
                    assert(twap_wf(self@.twaps[i as int].1));
                    twap_wf_computable(self.twaps@[i as int].1@, now);
                }
                self.twaps[i].1.twap_at(now)
            },
            None => {
                let st = TwapState::empty();
                proof {
                    twap_wf_computable(st@, now);
                }
                st.twap_at(now)
            },
        };
        match twap {
            Some(price) => Ok(PriceResolution { price, source: PriceSource::Twap }),
            None => Err(LoanError::NoValidPriceSource),
        }
    }

    /// Write half of a resolution: feed a direct answer into the TWAP
    /// history, or count a TWAP fallback.
    fn apply_resolution(&mut self, asset: AccountId, now: u64, r: PriceResolution)
        requires
            pool_wf(old(self)@),
            r.source != PriceSource::Twap ==> r.price > 0,
            r.source == PriceSource::Twap ==> old(self)@.twap_fallback_count < u32::MAX,
        ensures
            pool_wf(final(self)@),
            final(self)@ == resolved_state(old(self)@, asset, now, r),
    {
        match r.source {
            PriceSource::Twap => {
                self.twap_fallback_count = self.twap_fallback_count + 1;
            },
            _ => {
                self.record_observation(asset, r.price, now);
            },
        }
    }

    /// Resolve a trustworthy price for `asset`, walking the failover chain:
    /// primary oracle → secondary oracle → 30-minute TWAP accumulator.
    pub fn resolve_price(&mut self, asset: AccountId, now: u64, feed: PriceFeed) -> (r: Result<PriceResolution, LoanError>)
        requires
            pool_wf(old(self)@),
        ensures
            pool_wf(final(self)@),
            r == resolution_spec(old(self)@, asset, now, feed),
            match r {
                Ok(res) => final(self)@ == resolved_state(old(self)@, asset, now, res),
                Err(_) => final(self)@ == old(self)@,
            },
    {
        let r = self.resolution(asset, now, &feed, self.twap_fallback_count);
        proof {
            assert(with_fallbacks(self@, self@.twap_fallback_count) == self@);
        }
        if let Ok(res) = r {
            proof {
                resolution_facts(self@, asset, now, feed);
            }
            self.apply_resolution(asset, now, res);
        }
        r
    }

    /// Resolve a price through the failover chain and sanity-check it.
    pub fn require_price(&mut self, asset: AccountId, now: u64, feed: PriceFeed) -> (r: Result<i128, LoanError>)
        requires
            pool_wf(old(self)@),
        ensures
            pool_wf(final(self)@),
            match checked_resolution(old(self)@, asset, now, feed) {
                Ok(res) => r == Ok::<i128, LoanError>(res.price) && final(self)@ == resolved_state(old(self)@, asset, now, res),
                Err(e) => r == Err::<i128, LoanError>(e) && final(self)@ == old(self)@,
            },
    {
        let res = self.resolution(asset, now, &feed, self.twap_fallback_count)?;
        proof {
            assert(with_fallbacks(self@, self@.twap_fallback_count) == self@);
        }
        if res.price <= 0 || res.price > MAX_SANE_PRICE {
            return Err(LoanError::InvalidPrice);
        }
        proof {
            resolution_facts(self@, asset, now, feed);
        }
        self.apply_resolution(asset, now, res);
        Ok(res.price)
    }

    /// Read-only resolution of the collateral and the debt price of the market.
    fn pair_resolution(&self, coll: AccountId, debt: AccountId, now: u64, coll_feed: &PriceFeed, debt_feed: &PriceFeed, checked: bool) -> (r: Result<(PriceResolution, PriceResolution), LoanError>)
        requires
            pool_wf(self@),
            coll != debt,
        ensures
            r == pair_resolution(self@, coll, debt, now, *coll_feed, *debt_feed, checked),
    {
        let r1 = self.resolution(coll, now, coll_feed, self.twap_fallback_count)?;
        proof {
            assert(with_fallbacks(self@, self@.twap_fallback_count) == self@);
        }
        if checked && (r1.price <= 0 || r1.price > MAX_SANE_PRICE) {
            return Err(LoanError::InvalidPrice);
        }
        proof {
            resolution_facts(self@, coll, now, *coll_feed);
        }
        let fallbacks = match r1.source {
            PriceSource::Twap => self.twap_fallback_count + 1,
            _ => self.twap_fallback_count,
        };
        let r2 = self.resolution(debt, now, debt_feed, fallbacks);
        proof {
            second_resolution(self@, coll, debt, now, r1, *debt_feed);
        }
        let r2 = r2?;
        if checked && (r2.price <= 0 || r2.price > MAX_SANE_PRICE) {
            return Err(LoanError::InvalidPrice);
        }
        Ok((r1, r2))
    }

    /// Write half of a pair resolution.
    fn apply_pair(&mut self, coll: AccountId, debt: AccountId, now: u64, coll_feed: PriceFeed, debt_feed: PriceFeed, checked: bool, r1: PriceResolution, r2: PriceResolution)
        requires
            pool_wf(old(self)@),
            pair_resolution(old(self)@, coll, debt, now, coll_feed, debt_feed, checked) == Ok::<(PriceResolution, PriceResolution), LoanError>((r1, r2)),
        ensures
            pool_wf(final(self)@),
            final(self)@ == pair_state(old(self)@, coll, debt, now, r1, r2),
    {
        proof {
            resolution_facts(self@, coll, now, coll_feed);
        }
        self.apply_resolution(coll, now, r1);
        proof {
            resolution_facts(self@, debt, now, debt_feed);
        }
        self.apply_resolution(debt, now, r2);
    }

    // --------------------------------------------------------
    // STORAGE HELPERS
    // --------------------------------------------------------

    /// Liquidity balance recorded for `depositor`.
    pub fn get_depositor_balance(&self, depositor: AccountId) -> (r: i128)
        requires
            pool_wf(self@),
        ensures
            r == balance_of(self@, depositor),
    {
        match find_key(&self.depositors, depositor) {
            Some(i) => {
                proof {
                    key_index_unique(self@.depositors, depositor, i as int);
                }
                self.depositors[i].1
            },
            None => 0,
        }
    }

    /// Current position of `user`.
    pub fn get_position(&self, user: AccountId) -> (r: Position)
        requires
            pool_wf(self@),
        ensures
            r == position_of(self@, user),
    {
        match find_key(&self.positions, user) {
            Some(i) => {
                proof {
                    key_index_unique(self@.positions, user, i as int);
                }
                self.positions[i].1
            },
            None => Position::default(),
        }
    }

    /// Store the balance of `depositor`, registering it when new.
    fn set_balance(&mut self, depositor: AccountId, balance: i128)
        requires
            keys_distinct(old(self)@.depositors),
        ensures
            final(self)@ == (PoolState { depositors: upsert(old(self)@.depositors, depositor, balance), ..old(self)@ }),
    {
        let ghost s = self@;
        match find_key(&self.depositors, depositor) {
            Some(i) => {
                proof {
                    key_index_unique(s.depositors, depositor, i as int);
                }
                self.depositors.set(i, (depositor, balance));
            },
            None => {
                self.depositors.push((depositor, balance));
            },
        }
        proof {
            assert(self@.twaps =~= s.twaps);
        }
    }

    /// Store the position of `user`.
    fn save_position(&mut self, user: AccountId, pos: Position)
        requires
            keys_distinct(old(self)@.positions),
        ensures
            final(self)@ == (PoolState { positions: upsert(old(self)@.positions, user, pos), ..old(self)@ }),
    {
        let ghost s = self@;
        match find_key(&self.positions, user) {
            Some(i) => {
                proof {
                    key_index_unique(s.positions, user, i as int);
                }
                self.positions.set(i, (user, pos));
            },
            None => {
                self.positions.push((user, pos));
            },
        }
        proof {
            assert(self@.twaps =~= s.twaps);
        }
    }

    /// Delete the position of `user`.
    fn remove_position(&mut self, user: AccountId)
        requires
            keys_distinct(old(self)@.positions),
        ensures
            final(self)@ == (PoolState { positions: remove_key(old(self)@.positions, user), ..old(self)@ }),
    {
        let ghost s = self@;
        match find_key(&self.positions, user) {
            Some(i) => {
                proof {
                    key_index_unique(s.positions, user, i as int);
                }
                self.positions.remove(i);
            },
            None => {},
        }
        proof {
            assert(self@.twaps =~= s.twaps);
        }
    }

    /// The market, or the refusal when none is configured.
    fn require_market(&self) -> (r: Result<Market, LoanError>)
        ensures
            match self@.market {
                Some(m) => r == Ok::<Market, LoanError>(m),
                None => r == Err::<Market, LoanError>(LoanError::MarketNotInitialized),
            },
    {
        match self.market {
            Some(m) => Ok(m),
            None => Err(LoanError::MarketNotInitialized),
        }
    }

    // --------------------------------------------------------
    // LIQUIDITY (DEBT-TOKEN DEPOSITORS)
    // --------------------------------------------------------

    /// Supply debt-token liquidity to the pool; the depositor pays `amount`
    /// debt tokens into the pool.
    pub fn deposit(&mut self, depositor: AccountId, amount: i128) -> (r: Result<Transfer, LoanError>)
        requires
            pool_wf(old(self)@),
        ensures
            pool_wf(final(self)@),
            match deposit_spec(old(self)@, depositor, amount) {
                Ok((s, t)) => r == Ok::<Transfer, LoanError>(t) && final(self)@ == s,
                Err(e) => r == Err::<Transfer, LoanError>(e) && final(self)@ == old(self)@,
            },
    {
        if self.paused {
            return Err(LoanError::Paused);
        }
        let market = self.require_market()?;
        if amount <= 0 {
            return Err(LoanError::InvalidAmount);
        }
        let td = self.total_deposits;
        if td > i128::MAX - amount {
            return Err(LoanError::ArithmeticOverflow);
        }
        let bal = self.get_depositor_balance(depositor);
        proof {
            wf_bounds(self@, depositor);
            balances_upsert(self@.depositors, depositor, (bal + amount) as i128);
            balances_nonneg_upsert(self@.depositors, depositor, (bal + amount) as i128);
            upsert_facts(self@.depositors, depositor, (bal + amount) as i128);
            lookup_upsert(self@.depositors, depositor, (bal + amount) as i128, depositor);
        }
        self.set_balance(depositor, bal + amount);
        self.total_deposits = td + amount;
        Ok(Transfer { token: market.debt_token, from: depositor, to: self.contract_id, amount })
    }

    /// Withdraw previously supplied liquidity; blocked beyond the
    /// depositor's balance and beyond free pool liquidity.
    pub fn withdraw(&mut self, depositor: AccountId, amount: i128) -> (r: Result<Transfer, LoanError>)
        requires
            pool_wf(old(self)@),
        ensures
            pool_wf(final(self)@),
            match withdraw_spec(old(self)@, depositor, amount) {
                Ok((s, t)) => r == Ok::<Transfer, LoanError>(t) && final(self)@ == s,
                Err(e) => r == Err::<Transfer, LoanError>(e) && final(self)@ == old(self)@,
            },
    {
        if self.paused {
            return Err(LoanError::Paused);
        }
        let market = self.require_market()?;
        if amount <= 0 {
            return Err(LoanError::InvalidAmount);
        }
        let bal = self.get_depositor_balance(depositor);
        if bal < amount {
            return Err(LoanError::InsufficientDepositorBalance);
        }
        proof {
            wf_bounds(self@, depositor);
        }
        let free = crate::arith::sat_sub(self.total_deposits, self.total_borrowed);
        if free < amount {
            return Err(LoanError::InsufficientPoolLiquidity);
        }
        proof {
            balances_upsert(self@.depositors, depositor, (bal - amount) as i128);
            balances_nonneg_upsert(self@.depositors, depositor, (bal - amount) as i128);
            upsert_facts(self@.depositors, depositor, (bal - amount) as i128);
        }
        self.set_balance(depositor, bal - amount);
        self.total_deposits = self.total_deposits - amount;
        Ok(Transfer { token: market.debt_token, from: self.contract_id, to: depositor, amount })
    }

    // --------------------------------------------------------
    // BORROWER POSITIONS
    // --------------------------------------------------------

    /// Collateral value covers debt value at the threshold.
    fn covers_exec(cv: i128, dv: i128, thr: u32) -> (r: bool)
        ensures
            r == covers(cv as int, dv as int, thr),
    {
        let (num, den) = health_ratio(cv, dv, thr);
        num >= den
    }

    /// Deposit collateral tokens backing future borrows; the user pays
    /// `amount` collateral tokens into the pool.
    pub fn deposit_collateral(&mut self, user: AccountId, amount: i128) -> (r: Result<Transfer, LoanError>)
        requires
            pool_wf(old(self)@),
        ensures
            pool_wf(final(self)@),
            match deposit_collateral_spec(old(self)@, user, amount) {
                Ok((s, t)) => r == Ok::<Transfer, LoanError>(t) && final(self)@ == s,
                Err(e) => r == Err::<Transfer, LoanError>(e) && final(self)@ == old(self)@,
            },
    {
        if self.paused {
            return Err(LoanError::Paused);
        }
        let market = self.require_market()?;
        if amount <= 0 {
            return Err(LoanError::InvalidAmount);
        }
        let pos = self.get_position(user);
        if pos.collateral > i128::MAX - amount {
            return Err(LoanError::ArithmeticOverflow);
        }
        proof {
            wf_bounds(self@, user);
        }
        let np = Position { collateral: pos.collateral + amount, debt: pos.debt };
        proof {
            debts_upsert(self@.positions, user, np);
            positions_nonneg_upsert(self@.positions, user, np);
            upsert_facts(self@.positions, user, np);
            if has_key(self@.positions, user) {
                assert(lookup(self@.positions, user) == Some(pos));
            }
        }
        self.save_position(user, np);
        Ok(Transfer { token: market.collateral_token, from: user, to: self.contract_id, amount })
    }

    /// Borrow debt-token units against posted collateral; the pool pays
    /// `amount` debt tokens to the user. Refused when the resulting health
    /// factor would drop below 1.
    pub fn borrow(&mut self, user: AccountId, amount: i128, now: u64, coll_feed: PriceFeed, debt_feed: PriceFeed) -> (r: Result<Transfer, LoanError>)
        requires
            pool_wf(old(self)@),
        ensures
            pool_wf(final(self)@),
            match borrow_spec(old(self)@, user, amount, now, coll_feed, debt_feed) {
                Ok((s, t)) => r == Ok::<Transfer, LoanError>(t) && final(self)@ == s,
                Err(e) => r == Err::<Transfer, LoanError>(e) && final(self)@ == old(self)@,
            },
    {
        if self.paused {
            return Err(LoanError::Paused);
        }
        let market = self.require_market()?;
        if amount <= 0 {
            return Err(LoanError::InvalidAmount);
        }
        proof {
            wf_bounds(self@, user);
        }
        let free = crate::arith::sat_sub(self.total_deposits, self.total_borrowed);
        if free < amount {
            return Err(LoanError::InsufficientPoolLiquidity);
        }
        let pos = self.get_position(user);
        let (r1, r2) = self.pair_resolution(
            market.collateral_token,
            market.debt_token,
            now,
            &coll_feed,
            &debt_feed,
            true,
        )?;
        let coll_value = units_to_value(pos.collateral, r1.price);
        let new_debt_value = units_to_value(crate::arith::sat_add(pos.debt, amount), r2.price);
        if !Self::covers_exec(coll_value, new_debt_value, market.liq_threshold_bps) {
            return Err(LoanError::InsufficientCollateral);
        }
        self.apply_pair(market.collateral_token, market.debt_token, now, coll_feed, debt_feed, true, r1, r2);
        proof {
            pair_state_frame(old(self)@, market.collateral_token, market.debt_token, now, r1, r2);
        }
        let np = Position { collateral: pos.collateral, debt: pos.debt + amount };
        proof {
            debts_upsert(self@.positions, user, np);
            positions_nonneg_upsert(self@.positions, user, np);
            upsert_facts(self@.positions, user, np);
        }
        self.save_position(user, np);
        self.total_borrowed = self.total_borrowed + amount;
        Ok(Transfer { token: market.debt_token, from: self.contract_id, to: user, amount })
    }

    /// Repay borrowed units, capped at the outstanding debt; the user pays
    /// the capped amount into the pool.
    pub fn repay(&mut self, user: AccountId, amount: i128) -> (r: Result<Transfer, LoanError>)
        requires
            pool_wf(old(self)@),
        ensures
            pool_wf(final(self)@),
            match repay_spec(old(self)@, user, amount) {
                Ok((s, t)) => r == Ok::<Transfer, LoanError>(t) && final(self)@ == s,
                Err(e) => r == Err::<Transfer, LoanError>(e) && final(self)@ == old(self)@,
            },
    {
        if self.paused {
            return Err(LoanError::Paused);
        }
        let market = self.require_market()?;
        if amount <= 0 {
            return Err(LoanError::InvalidAmount);
        }
        let pos = self.get_position(user);
        let paid = crate::arith::min128(amount, pos.debt);
        if paid == 0 {
            return Err(LoanError::NothingToRepay);
        }
        proof {
            wf_bounds(self@, user);
        }
        let np = Position { collateral: pos.collateral, debt: pos.debt - paid };
        proof {
            debts_upsert(self@.positions, user, np);
            positions_nonneg_upsert(self@.positions, user, np);
            upsert_facts(self@.positions, user, np);
        }
        self.save_position(user, np);
        self.total_borrowed = crate::arith::sat_sub(self.total_borrowed, paid);
        Ok(Transfer { token: market.debt_token, from: user, to: self.contract_id, amount: paid })
    }

    /// Withdraw collateral while keeping the position healthy; the pool
    /// pays `amount` collateral tokens to the user.
    pub fn withdraw_collateral(&mut self, user: AccountId, amount: i128, now: u64, coll_feed: PriceFeed, debt_feed: PriceFeed) -> (r: Result<Transfer, LoanError>)
        requires
            pool_wf(old(self)@),
        ensures
            pool_wf(final(self)@),
            match withdraw_collateral_spec(old(self)@, user, amount, now, coll_feed, debt_feed) {
                Ok((s, t)) => r == Ok::<Transfer, LoanError>(t) && final(self)@ == s,
                Err(e) => r == Err::<Transfer, LoanError>(e) && final(self)@ == old(self)@,
            },
    {
        if self.paused {
            return Err(LoanError::Paused);
        }
        let market = self.require_market()?;
        if amount <= 0 {
            return Err(LoanError::InvalidAmount);
        }
        let pos = self.get_position(user);
        if pos.collateral < amount {
            return Err(LoanError::InsufficientCollateral);
        }
        proof {
            wf_bounds(self@, user);
        }
        if pos.debt > 0 {
            let (r1, r2) = self.pair_resolution(
                market.collateral_token,
                market.debt_token,
                now,
                &coll_feed,
                &debt_feed,
                true,
            )?;
            let coll_value = units_to_value(pos.collateral - amount, r1.price);
            let debt_value = units_to_value(pos.debt, r2.price);
            if !Self::covers_exec(coll_value, debt_value, market.liq_threshold_bps) {
                return Err(LoanError::WithdrawalUndercollateralizes);
            }
            self.apply_pair(market.collateral_token, market.debt_token, now, coll_feed, debt_feed, true, r1, r2);
            proof {
                pair_state_frame(old(self)@, market.collateral_token, market.debt_token, now, r1, r2);
            }
        }
        let np = Position { collateral: pos.collateral - amount, debt: pos.debt };
        proof {
            debts_upsert(self@.positions, user, np);
            positions_nonneg_upsert(self@.positions, user, np);
            upsert_facts(self@.positions, user, np);
        }
        self.save_position(user, np);
        Ok(Transfer { token: market.collateral_token, from: self.contract_id, to: user, amount })
    }

    // --------------------------------------------------------
    // BAD-DEBT SOCIALIZATION
    // --------------------------------------------------------

    /// Write off `loss` units of bad debt across all liquidity depositors,
    /// proportionally to their balances. Rounding residuals are taken from
    /// any account with remaining balance, so the write-off covers `loss`
    /// whenever the depositor base can absorb it. Returns the amount
    /// written off.
    fn socialize_bad_debt(&mut self, loss: i128) -> (applied: i128)
        requires
            pool_wf(old(self)@),
            loss <= old(self)@.total_deposits - old(self)@.total_borrowed,
        ensures
            pool_wf(final(self)@),
            (final(self)@, applied) == socialize_spec(old(self)@, loss),
    {
        if loss <= 0 {
            return 0;
        }
        let total_deposits = self.total_deposits;
        if total_deposits <= 0 || self.depositors.len() == 0 {
            // Nothing to socialize against; the pool absorbs the hole.
            proof {
                sum_nonneg(balances(self@.depositors));
                assert forall|i: int| 0 <= i < balances(self@.depositors).len() implies balances(self@.depositors)[i] == 0 by {
                    assert(self@.depositors[i].1 >= 0);
                    sum_nonneg(balances(self@.depositors));
                }
            }
            self.total_deposits = 0;
            proof {
                if self@.depositors.len() == 0 {
                    assert(balances(self@.depositors) =~= Seq::<int>::empty());
                } else {
                    assert forall|i: int| 0 <= i < balances(self@.depositors).len() implies balances(self@.depositors)[i] >= 0 by {
                        assert(self@.depositors[i].1 >= 0);
                    }
                    sum_nonneg(balances(self@.depositors));
                }
            }
            return 0;
        }
        let ghost s = self@;
        let ghost d = s.depositors;
        let n = self.depositors.len();

        let mut bals: Vec<i128> = Vec::new();
        let mut k: usize = 0;
        while k < n
            invariant
                n == self.depositors@.len(),
                k <= n,
                bals@.len() == k,
                forall|j: int| 0 <= j < k ==> #[trigger] bals@[j] == self.depositors@[j].1,
            decreases n - k,
        {
            bals.push(self.depositors[k].1);
            k = k + 1;
        }
        let shares = proportional_shares(&bals, total_deposits, loss);
        proof {
            assert forall|j: int| 0 <= j < n implies #[trigger] d[j].1 >= 0 by {
                assert(s.depositors[j].1 >= 0);
            }
        }

        let mut applied_total: i128 = 0;
        let mut residual = loss;
        // Pass 1: proportional deductions (floored at each balance).
        let mut i: usize = 0;
        while i < n
            invariant
                n == d.len(),
                i <= n,
                forall|j: int| 0 <= j < d.len() ==> #[trigger] d[j].1 >= 0,
                shares@.len() == n,
                forall|j: int| 0 <= j < n ==> #[trigger] shares@[j] == share_of(d[j].1 as int, total_deposits as int, loss as int),
                (self.depositors@, residual as int) == pass1(d, total_deposits as int, loss as int, i as int),
                applied_total == loss - residual,
                loss > 0,
                total_deposits > 0,
                self@ == (PoolState { depositors: self@.depositors, ..s }),
            decreases n - i,
        {
            proof {
                pass1_facts(d, total_deposits as int, loss as int, i as int);
            }
            let bal = self.depositors[i].1;
            let cut = crate::arith::min128(crate::arith::min128(shares[i], bal), residual);
            if cut > 0 {
                let who = self.depositors[i].0;
                self.depositors.set(i, (who, bal - cut));
                applied_total = applied_total + cut;
                residual = residual - cut;
            }
            proof {
                assert(self@.twaps =~= s.twaps);
            }
            i = i + 1;
        }
        proof {
            pass1_facts(d, total_deposits as int, loss as int, n as int);
        }
        let ghost d1 = self.depositors@;
        let ghost r1 = residual as int;
        // Pass 2: rounding residual from accounts with remaining balance.
        if residual > 0 {
            let mut i: usize = 0;
            while i < n
                invariant_except_break
                    (self.depositors@, residual as int) == pass2(d1, r1, i as int),
                invariant
                    n == d1.len(),
                    i <= n,
                    r1 >= 0,
                    forall|j: int| 0 <= j < d1.len() ==> #[trigger] d1[j].1 >= 0,
                    applied_total == loss - residual,
                    self@ == (PoolState { depositors: self@.depositors, ..s }),
                ensures
                    (self.depositors@, residual as int) == pass2(d1, r1, n as int),
                decreases n - i,
            {
                proof {
                    pass2_facts(d1, r1, i as int);
                }
                if residual == 0 {
                    proof {
                        pass2_idle(d1, r1, i as int, n as int);
                    }
                    break;
                }
                let bal = self.depositors[i].1;
                let spare = crate::arith::min128(bal, residual);
                if spare > 0 {
                    let who = self.depositors[i].0;
                    self.depositors.set(i, (who, bal - spare));
                    applied_total = applied_total + spare;
                    residual = residual - spare;
                }
                proof {
                    assert(self@.twaps =~= s.twaps);
                }
                i = i + 1;
            }
        } else {
            proof {
                pass2_idle(d1, r1, 0, n as int);
            }
        }
        proof {
            pass2_facts(d1, r1, n as int);
        }
        self.total_deposits = crate::arith::sat_sub(self.total_deposits, applied_total);
        proof {
            let p2 = pass2(d1, r1, n as int);
            assert(keys_distinct(self@.depositors)) by {
                assert forall|a: int, b: int| 0 <= a < n && 0 <= b < n && a != b implies self@.depositors[a].0 != self@.depositors[b].0 by {
                    assert(p2.0[a].0 == d1[a].0);
                    assert(d1[a].0 == d[a].0);
                    assert(p2.0[b].0 == d1[b].0);
                    assert(d1[b].0 == d[b].0);
                }
            }
        }
        applied_total
    }

    // --------------------------------------------------------
    // LIQUIDATION ENGINE
    // --------------------------------------------------------

    /// Execute a liquidation against `borrower`'s position. Open to any
    /// account. Applies dynamic incentives within the penalty cap and
    /// triggers bad-debt socialization when the seizure drains all
    /// collateral with debt remaining.
    ///
    /// `repay_amount`: [`FULL_REPAY_SENTINEL`] for full liquidation, `0`
    /// for partial liquidation to the 1.1 target, `n > 0` for a
    /// caller-specified repayment, always capped by the engine rules.
    pub fn liquidate(
        &mut self,
        liquidator: AccountId,
        borrower: AccountId,
        repay_amount: i128,
        now: u64,
        coll_feed: PriceFeed,
        debt_feed: PriceFeed,
    ) -> (r: Result<Liquidation, LoanError>)
        requires
            pool_wf(old(self)@),
        ensures
            pool_wf(final(self)@),
            match liquidate_spec(old(self)@, liquidator, borrower, repay_amount, now, coll_feed, debt_feed) {
                Ok((s, l)) => r == Ok::<Liquidation, LoanError>(l) && final(self)@ == s,
                Err(e) => r == Err::<Liquidation, LoanError>(e) && final(self)@ == old(self)@,
            },
    {
        if self.paused {
            return Err(LoanError::Paused);
        }
        let market = self.require_market()?;
        if liquidator == borrower {
            return Err(LoanError::SelfLiquidation);
        }
        let pos = self.get_position(borrower);
        if pos.debt <= 0 {
            return Err(LoanError::NotLiquidatable);
        }
        proof {
            wf_bounds(self@, borrower);
        }

        // Resolve prices through the failover chain.
        let (r1, r2) = self.pair_resolution(
            market.collateral_token,
            market.debt_token,
            now,
            &coll_feed,
            &debt_feed,
            false,
        )?;

        let params = self.liq_params;
        let mode = if repay_amount == FULL_REPAY_SENTINEL {
            RepayMode::Full
        } else if repay_amount == 0 {
            RepayMode::PartialToTarget
        } else {
            if repay_amount < 0 {
                return Err(LoanError::InvalidAmount);
            }
            RepayMode::Specified(repay_amount)
        };

        proof {
            resolution_nonneg(self@, market.collateral_token, now, coll_feed);
            second_resolution(self@, market.collateral_token, market.debt_token, now, r1, debt_feed);
            resolution_nonneg(
                with_fallbacks(self@, resolved_state(self@, market.collateral_token, now, r1).twap_fallback_count),
                market.debt_token,
                now,
                debt_feed,
            );
            value_nonneg(pos.collateral as int, r1.price as int);
            value_nonneg(pos.debt as int, r2.price as int);
            let cv = value_of(pos.collateral as int, r1.price as int);
            assert(cv * market.liq_threshold_bps >= 0) by (nonlinear_arith)
                requires
                    cv >= 0,
            ;
            assert(plan_computable(pos.collateral, pos.debt, r1.price, r2.price, market.liq_threshold_bps, params.base_bonus_bps, params.max_bonus_bps));
        }
        let plan = compute_plan(
            pos.collateral,
            pos.debt,
            r1.price,
            r2.price,
            market.liq_threshold_bps,
            params.base_bonus_bps,
            params.max_bonus_bps,
            params.penalty_cap_bps,
            mode,
        );

        if plan.repay_units == 0 && plan.bad_debt_units == 0 {
            return Err(LoanError::NotLiquidatable);
        }
        proof {
            plan_guarantees(
                pos.collateral,
                pos.debt,
                r1.price,
                r2.price,
                market.liq_threshold_bps,
                params.base_bonus_bps,
                params.max_bonus_bps,
                params.penalty_cap_bps,
                mode,
            );
        }

        let repay_transfer = if plan.repay_units > 0 {
            Some(Transfer { token: market.debt_token, from: liquidator, to: self.contract_id, amount: plan.repay_units })
        } else {
            None
        };
        let seize_transfer = if plan.seize_units > 0 {
            Some(Transfer { token: market.collateral_token, from: self.contract_id, to: liquidator, amount: plan.seize_units })
        } else {
            None
        };

        self.apply_pair(market.collateral_token, market.debt_token, now, coll_feed, debt_feed, false, r1, r2);
        proof {
            pair_state_frame(old(self)@, market.collateral_token, market.debt_token, now, r1, r2);
        }

        // Apply state.
        let updated = Position {
            collateral: pos.collateral - plan.seize_units,
            debt: crate::arith::sat_sub(crate::arith::sat_sub(pos.debt, plan.repay_units), plan.bad_debt_units),
        };
        proof {
            liquidation_step(self@, borrower, updated, plan.repay_units as int, plan.bad_debt_units as int);
        }
        if updated.collateral == 0 && updated.debt == 0 {
            self.remove_position(borrower);
        } else {
            self.save_position(borrower, updated);
        }
        self.total_borrowed = crate::arith::sat_sub(self.total_borrowed, plan.repay_units + plan.bad_debt_units);

        // Bad-debt socialization when the position was drained with debt left.
        let socialized = if plan.bad_debt_units > 0 {
            self.socialize_bad_debt(plan.bad_debt_units)
        } else {
            0
        };

        Ok(Liquidation {
            result: LiquidationResult {
                repay_units: plan.repay_units,
                seize_units: plan.seize_units,
                bonus_bps: plan.bonus_bps,
                bad_debt_socialized: socialized,
            },
            bad_debt_units: plan.bad_debt_units,
            repay_transfer,
            seize_transfer,
        })
    }

    // --------------------------------------------------------
    // KEEPER & VIEW FUNCTIONS
    // --------------------------------------------------------

    /// Keeper hook: refresh the TWAP accumulator of `asset` from the live
    /// failover chain without performing any other action.
    pub fn record_price(&mut self, asset: AccountId, now: u64, feed: PriceFeed) -> (r: Result<(), LoanError>)
        requires
            pool_wf(old(self)@),
        ensures
            pool_wf(final(self)@),
            old(self)@.paused ==> r == Err::<(), LoanError>(LoanError::Paused) && final(self)@ == old(self)@,
            !old(self)@.paused ==> match resolution_spec(old(self)@, asset, now, feed) {
                Ok(res) => r is Ok && final(self)@ == resolved_state(old(self)@, asset, now, res),
                Err(e) => r == Err::<(), LoanError>(e) && final(self)@ == old(self)@,
            },
    {
        if self.paused {
            return Err(LoanError::Paused);
        }
        self.resolve_price(asset, now, feed)?;
        Ok(())
    }

    /// Health factor of `user` as the exact fraction `(num, den)`;
    /// healthy iff `num >= den`. Resolving the prices feeds the TWAP history.
    pub fn health_factor(&mut self, user: AccountId, now: u64, coll_feed: PriceFeed, debt_feed: PriceFeed) -> (r: Result<(i128, i128), LoanError>)
        requires
            pool_wf(old(self)@),
        ensures
            pool_wf(final(self)@),
            match health_factor_spec(old(self)@, user, now, coll_feed, debt_feed) {
                Ok((s, hf)) => r == Ok::<(i128, i128), LoanError>(hf) && final(self)@ == s,
                Err(e) => r == Err::<(i128, i128), LoanError>(e) && final(self)@ == old(self)@,
            },
    {
        let market = self.require_market()?;
        let pos = self.get_position(user);
        if pos.debt == 0 {
            return Ok((i128::MAX, 1));
        }
        let (r1, r2) = self.pair_resolution(
            market.collateral_token,
            market.debt_token,
            now,
            &coll_feed,
            &debt_feed,
            true,
        )?;
        self.apply_pair(market.collateral_token, market.debt_token, now, coll_feed, debt_feed, true, r1, r2);
        let coll_value = units_to_value(pos.collateral, r1.price);
        let debt_value = units_to_value(pos.debt, r2.price);
        Ok(health_ratio(coll_value, debt_value, market.liq_threshold_bps))
    }

    /// Preview the price resolution path for `asset`; like every
    /// resolution it feeds the TWAP history.
    pub fn preview_price(&mut self, asset: AccountId, now: u64, feed: PriceFeed) -> (r: Result<PriceResolution, LoanError>)
        requires
            pool_wf(old(self)@),
        ensures
            pool_wf(final(self)@),
            r == resolution_spec(old(self)@, asset, now, feed),
            match r {
                Ok(res) => final(self)@ == resolved_state(old(self)@, asset, now, res),
                Err(_) => final(self)@ == old(self)@,
            },
    {
        self.resolve_price(asset, now, feed)
    }

    /// Time-weighted average price of `asset` over the trailing window.
    pub fn twap_price(&self, asset: AccountId, now: u64) -> (r: Result<i128, LoanError>)
        requires
            pool_wf(self@),
        ensures
            r == twap_price_spec(self@, asset, now),
    {
        let twap = match self.twap_ref(asset) {
            Some(i) => {
                proof {
                    assert(twap_wf(self@.twaps[i as int].1));
                    twap_wf_computable(self.twaps@[i as int].1@, now);
                }
                self.twaps[i].1.twap_at(now)
            },
            None => {
                let st = TwapState::empty();
                proof {
                    twap_wf_computable(st@, now);
                }
                st.twap_at(now)
            },
        };
        match twap {
            Some(p) => Ok(p),
            None => Err(LoanError::NoValidPriceSource),
        }
    }

    /// TWAP computation over the trailing window at `now` (diagnostics).
    pub fn twap_now(&self, asset: AccountId, now: u64) -> (r: Result<i128, LoanError>)
        requires
            pool_wf(self@),
        ensures
            r == twap_price_spec(self@, asset, now),
    {
        self.twap_price(asset, now)
    }

    /// Stored TWAP snapshots of `asset`, oldest first.
    pub fn get_twap(&self, asset: AccountId) -> (r: Vec<crate::storage::PriceObservation>)
        requires
            pool_wf(self@),
        ensures
            r@ == twap_of(self@, asset).snapshots,
    {
        match self.twap_ref(asset) {
            Some(i) => {
                let snaps = &self.twaps[i].1.snapshots;
                let mut out: Vec<crate::storage::PriceObservation> = Vec::new();
                let mut k: usize = 0;
                while k < snaps.len()
                    invariant
                        k <= snaps@.len(),
                        out@ == snaps@.subrange(0, k as int),
                    decreases snaps@.len() - k,
                {
                    out.push(snaps[k]);
                    k = k + 1;
                    proof {
                        assert(out@ =~= snaps@.subrange(0, k as int));
                    }
                }
                proof {
                    assert(out@ =~= snaps@);
                }
                out
            },
            None => Vec::new(),
        }
    }

    /// Pool-level accounting snapshot: total deposits, total borrowed and
    /// the number of TWAP fallbacks.
    pub fn get_pool_info(&self) -> (r: (i128, i128, u32))
        ensures
            r == (self@.total_deposits, self@.total_borrowed, self@.twap_fallback_count),
    {
        (self.total_deposits, self.total_borrowed, self.twap_fallback_count)
    }

    /// Depositor registry in registration order.
    pub fn get_depositors(&self) -> (r: Vec<AccountId>)
        ensures
            r@ == self@.depositors.map_values(|e: (AccountId, i128)| e.0),
    {
        let mut out: Vec<AccountId> = Vec::new();
        let mut k: usize = 0;
        while k < self.depositors.len()
            invariant
                k <= self.depositors@.len(),
                out@ == self@.depositors.map_values(|e: (AccountId, i128)| e.0).subrange(0, k as int),
            decreases self.depositors@.len() - k,
        {
            out.push(self.depositors[k].0);
            k = k + 1;
            proof {
                assert(out@ =~= self@.depositors.map_values(|e: (AccountId, i128)| e.0).subrange(0, k as int));
            }
        }
        proof {
            assert(out@ =~= self@.depositors.map_values(|e: (AccountId, i128)| e.0));
        }
        out
    }

    /// Effective liquidation parameters.
    pub fn get_liquidation_params(&self) -> (r: LiqParams)
        ensures
            r == self@.liq_params,
    {
        self.liq_params
    }

    /// Market configuration, refused when none is set.
    pub fn get_market_config(&self) -> (r: Result<Market, LoanError>)
        ensures
            match self@.market {
                Some(m) => r == Ok::<Market, LoanError>(m),
                None => r == Err::<Market, LoanError>(LoanError::MarketNotInitialized),
            },
    {
        self.require_market()
    }

    /// Oracle chain configuration: present only when a primary is set.
    pub fn get_oracles(&self) -> (r: Option<(AccountId, Option<AccountId>)>)
        ensures
            r == match self@.primary_oracle {
                Some(p) => Some((p, self@.secondary_oracle)),
                None => None,
            },
    {
        match self.primary_oracle {
            Some(p) => Some((p, self.secondary_oracle)),
            None => None,
        }
    }

    /// The primary oracle, if configured.
    pub fn get_primary_oracle(&self) -> (r: Option<AccountId>)
        ensures
            r == self@.primary_oracle,
    {
        self.primary_oracle
    }

    /// The secondary oracle, if configured.
    pub fn get_secondary_oracle(&self) -> (r: Option<AccountId>)
        ensures
            r == self@.secondary_oracle,
    {
        self.secondary_oracle
    }

    /// The administrator, if initialised.
    pub fn get_admin(&self) -> (r: Option<AccountId>)
        ensures
            r == self@.admin,
    {
        self.admin
    }

    /// Whether the circuit breaker is engaged.
    pub fn is_paused_view(&self) -> (r: bool)
        ensures
            r == self@.paused,
    {
        self.paused
    }
}

} // verus!

