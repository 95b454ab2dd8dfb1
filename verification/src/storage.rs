//! Data types of the loan manager and the lookup/update helpers over the
//! keyed lists that hold per-account state.
use vstd::prelude::*;

use crate::constants::{BASE_LIQUIDATION_BONUS_BPS, LIQUIDATION_PENALTY_CAP_BPS, MAX_DYNAMIC_BONUS_BPS};

verus! {

/// Identifier of an account or token contract.
pub type AccountId = u64;

/// Lending market configuration. A market pairs one collateral asset with
/// one borrowable (debt) asset.
#[derive(Clone, Copy, Debug, PartialEq, Eq, Structural)]
pub struct Market {
    /// Token accepted as collateral.
    pub collateral_token: AccountId,
    /// Token that can be borrowed (pool liquidity asset).
    pub debt_token: AccountId,
    /// Liquidation threshold in basis points (e.g. 8_000 = 80%).
    /// A position is liquidatable when
    /// `collateral_value * liq_threshold_bps < debt_value * 10_000`.
    pub liq_threshold_bps: u32,
}

/// Per-user lending position.
#[derive(Clone, Copy, Debug, PartialEq, Eq, Structural)]
pub struct Position {
    /// Collateral units deposited by the user.
    pub collateral: i128,
    /// Debt units owed by the user (debt token).
    pub debt: i128,
}

/// The empty position.
pub open spec fn empty_position() -> Position {
    Position { collateral: 0, debt: 0 }
}

impl Default for Position {
    fn default() -> (p: Position)
        ensures
            p == empty_position(),
    {
        Position { collateral: 0, debt: 0 }
    }
}

/// One cumulative-price snapshot used for TWAP computation.
#[derive(Clone, Copy, Debug, PartialEq, Eq, Structural)]
pub struct PriceObservation {
    /// Ledger timestamp (seconds) at which the snapshot was recorded.
    pub ts: u64,
    /// Cumulative price-seconds accumulator value at `ts`.
    pub cum: i128,
}

/// Admin-configurable liquidation parameters.
#[derive(Clone, Copy, Debug, PartialEq, Eq, Structural)]
pub struct LiqParams {
    /// Bonus at health factor = 1.0, in bps (default 500 = 5%).
    pub base_bonus_bps: u32,
    /// Maximum dynamic bonus, in bps (default 1500 = 15%).
    pub max_bonus_bps: u32,
    /// Hard cap on the penalty, in bps (default 2000 = 20%).
    pub penalty_cap_bps: u32,
}

/// The default liquidation parameters.
pub open spec fn default_liq_params() -> LiqParams {
    LiqParams {
        base_bonus_bps: BASE_LIQUIDATION_BONUS_BPS,
        max_bonus_bps: MAX_DYNAMIC_BONUS_BPS,
        penalty_cap_bps: LIQUIDATION_PENALTY_CAP_BPS,
    }
}

impl Default for LiqParams {
    fn default() -> (p: LiqParams)
        ensures
            p == default_liq_params(),
    {
        LiqParams {
            base_bonus_bps: BASE_LIQUIDATION_BONUS_BPS,
            max_bonus_bps: MAX_DYNAMIC_BONUS_BPS,
            penalty_cap_bps: LIQUIDATION_PENALTY_CAP_BPS,
        }
    }
}

/// Which link of the failover chain produced a price.
#[derive(Clone, Copy, Debug, PartialEq, Eq, Structural)]
pub enum PriceSource {
    Primary,
    Secondary,
    Twap,
}

/// Result of a price resolution through the failover chain.
#[derive(Clone, Copy, Debug, PartialEq, Eq, Structural)]
pub struct PriceResolution {
    pub price: i128,
    pub source: PriceSource,
}

// ============================================================
// KEYED LISTS
// ============================================================

/// No key occurs twice.
pub open spec fn keys_distinct<V>(s: Seq<(AccountId, V)>) -> bool {
    forall|i: int, j: int| 0 <= i < s.len() && 0 <= j < s.len() && i != j ==> s[i].0 != s[j].0
}

/// `k` occurs as a key.
pub open spec fn has_key<V>(s: Seq<(AccountId, V)>, k: AccountId) -> bool {
    exists|i: int| 0 <= i < s.len() && s[i].0 == k
}

/// The index at which `k` occurs (meaningful when `has_key`).
pub open spec fn key_index<V>(s: Seq<(AccountId, V)>, k: AccountId) -> int {
    choose|i: int| 0 <= i < s.len() && s[i].0 == k
}

/// The list with `k` bound to `v`: replaced in place when present,
/// appended otherwise.
pub open spec fn upsert<V>(s: Seq<(AccountId, V)>, k: AccountId, v: V) -> Seq<(AccountId, V)> {
    if has_key(s, k) {
        s.update(key_index(s, k), (k, v))
    } else {
        s.push((k, v))
    }
}

/// The list without the entry for `k`, order of the rest kept.
pub open spec fn remove_key<V>(s: Seq<(AccountId, V)>, k: AccountId) -> Seq<(AccountId, V)> {
    if has_key(s, k) {
        s.remove(key_index(s, k))
    } else {
        s
    }
}

/// In a list without duplicate keys, any index holding `k` is `key_index`.
pub proof fn key_index_unique<V>(s: Seq<(AccountId, V)>, k: AccountId, i: int)
    requires
        keys_distinct(s),
        0 <= i < s.len(),
        s[i].0 == k,
    ensures
        has_key(s, k),
        key_index(s, k) == i,
{
    assert(has_key(s, k));
    let j = key_index(s, k);
    assert(0 <= j < s.len() && s[j].0 == k);
}

/// `upsert` keeps keys distinct and binds exactly `k`.
pub proof fn upsert_facts<V>(s: Seq<(AccountId, V)>, k: AccountId, v: V)
    requires
        keys_distinct(s),
    ensures
        keys_distinct(upsert(s, k, v)),
        has_key(upsert(s, k, v), k),
        upsert(s, k, v)[key_index(upsert(s, k, v), k)].1 == v,
        forall|j: AccountId| j != k ==> (#[trigger] has_key(upsert(s, k, v), j) == has_key(s, j)),
        forall|j: AccountId|
            j != k && has_key(s, j) ==> #[trigger] upsert(s, k, v)[key_index(upsert(s, k, v), j)]
                == s[key_index(s, j)],
{
    let t = upsert(s, k, v);
    if has_key(s, k) {
        let i = key_index(s, k);
        assert(keys_distinct(t));
        key_index_unique(t, k, i);
        assert forall|j: AccountId| j != k implies (#[trigger] has_key(t, j) == has_key(s, j)) by {
            if has_key(s, j) {
                let m = key_index(s, j);
                assert(t[m].0 == j);
            }
            if has_key(t, j) {
                let m = key_index(t, j);
                assert(s[m].0 == j);
            }
        }
        assert forall|j: AccountId| j != k && has_key(s, j) implies #[trigger] t[key_index(t, j)]
            == s[key_index(s, j)] by {
            let m = key_index(s, j);
            assert(t[m].0 == j);
            key_index_unique(t, j, m);
        }
    } else {
        let n = s.len() as int;
        assert(keys_distinct(t));
        key_index_unique(t, k, n);
        assert forall|j: AccountId| j != k implies (#[trigger] has_key(t, j) == has_key(s, j)) by {
            if has_key(s, j) {
                let m = key_index(s, j);
                assert(t[m].0 == j);
            }
            if has_key(t, j) {
                let m = key_index(t, j);
                assert(s[m].0 == j);
            }
        }
        assert forall|j: AccountId| j != k && has_key(s, j) implies #[trigger] t[key_index(t, j)]
            == s[key_index(s, j)] by {
            let m = key_index(s, j);
            assert(t[m].0 == j);
            key_index_unique(t, j, m);
        }
    }
}

/// `remove_key` keeps keys distinct, drops `k`, and keeps every other binding.
pub proof fn remove_key_facts<V>(s: Seq<(AccountId, V)>, k: AccountId)
    requires
        keys_distinct(s),
    ensures
        keys_distinct(remove_key(s, k)),
        !has_key(remove_key(s, k), k),
        forall|j: AccountId| j != k ==> (#[trigger] has_key(remove_key(s, k), j) == has_key(s, j)),
        forall|j: AccountId|
            j != k && has_key(s, j) ==> #[trigger] remove_key(s, k)[key_index(remove_key(s, k), j)]
                == s[key_index(s, j)],
{
    let t = remove_key(s, k);
    if has_key(s, k) {
        let i = key_index(s, k);
        assert forall|a: int, b: int| 0 <= a < t.len() && 0 <= b < t.len() && a != b implies t[a].0
            != t[b].0 by {
            let a2 = if a < i { a } else { a + 1 };
            let b2 = if b < i { b } else { b + 1 };
            assert(t[a] == s[a2]);
            assert(t[b] == s[b2]);
        }
        if has_key(t, k) {
            let m = key_index(t, k);
            let m2 = if m < i { m } else { m + 1 };
            assert(t[m] == s[m2]);
        }
        assert forall|j: AccountId| j != k implies (#[trigger] has_key(t, j) == has_key(s, j)) by {
            if has_key(s, j) {
                let m = key_index(s, j);
                let m2 = if m < i { m } else { m - 1 };
                assert(t[m2] == s[m]);
            }
            if has_key(t, j) {
                let m = key_index(t, j);
                let m2 = if m < i { m } else { m + 1 };
                assert(t[m] == s[m2]);
            }
        }
        assert forall|j: AccountId| j != k && has_key(s, j) implies #[trigger] t[key_index(t, j)]
            == s[key_index(s, j)] by {
            let m = key_index(s, j);
            let m2 = if m < i { m } else { m - 1 };
            assert(t[m2] == s[m]);
            assert(keys_distinct(t));
            key_index_unique(t, j, m2);
        }
    }
}

/// Value bound to `k`, if any.
pub open spec fn lookup<V>(s: Seq<(AccountId, V)>, k: AccountId) -> Option<V> {
    if has_key(s, k) {
        Some(s[key_index(s, k)].1)
    } else {
        None
    }
}

/// Sum of a sequence of integers.
pub open spec fn sum(s: Seq<int>) -> int
    decreases s.len(),
{
    if s.len() == 0 {
        0
    } else {
        sum(s.drop_last()) + s.last()
    }
}

/// Sum after appending.
pub proof fn sum_push(s: Seq<int>, x: int)
    ensures
        sum(s.push(x)) == sum(s) + x,
{
    assert(s.push(x).drop_last() =~= s);
}

/// Sum after replacing one element.
pub proof fn sum_update(s: Seq<int>, i: int, x: int)
    requires
        0 <= i < s.len(),
    ensures
        sum(s.update(i, x)) == sum(s) - s[i] + x,
    decreases s.len(),
{
    if i == s.len() - 1 {
        assert(s.update(i, x).drop_last() =~= s.drop_last());
    } else {
        sum_update(s.drop_last(), i, x);
        assert(s.update(i, x).drop_last() =~= s.drop_last().update(i, x));
    }
}

/// Sum after removing one element.
pub proof fn sum_remove(s: Seq<int>, i: int)
    requires
        0 <= i < s.len(),
    ensures
        sum(s.remove(i)) == sum(s) - s[i],
    decreases s.len(),
{
    if i == s.len() - 1 {
        assert(s.remove(i) =~= s.drop_last());
    } else {
        sum_remove(s.drop_last(), i);
        assert(s.remove(i).drop_last() =~= s.drop_last().remove(i));
        assert(s.remove(i).last() == s.last());
    }
}

/// Prefix sums extend one term at a time.
pub proof fn sum_take_step(s: Seq<int>, i: int)
    requires
        0 <= i < s.len(),
    ensures
        sum(s.take(i + 1)) == sum(s.take(i)) + s[i],
{
    assert(s.take(i + 1).drop_last() =~= s.take(i));
}

/// A prefix sum of non-negative terms never exceeds the whole sum.
pub proof fn sum_prefix_le(s: Seq<int>, i: int)
    requires
        0 <= i <= s.len(),
        forall|j: int| 0 <= j < s.len() ==> s[j] >= 0,
    ensures
        sum(s.take(i)) <= sum(s),
    decreases s.len() - i,
{
    if i < s.len() {
        sum_take_step(s, i);
        sum_prefix_le(s, i + 1);
    } else {
        assert(s.take(i) =~= s);
    }
}

/// A sum of non-negative terms is non-negative and bounds each term.
pub proof fn sum_nonneg(s: Seq<int>)
    requires
        forall|i: int| 0 <= i < s.len() ==> s[i] >= 0,
    ensures
        sum(s) >= 0,
        forall|i: int| 0 <= i < s.len() ==> s[i] <= sum(s),
    decreases s.len(),
{
    if s.len() > 0 {
        sum_nonneg(s.drop_last());
        assert forall|i: int| 0 <= i < s.len() implies s[i] <= sum(s) by {
            if i < s.len() - 1 {
                assert(s.drop_last()[i] == s[i]);
            }
        }
    }
}

} // verus!
