//! Oracle failover chain: primary → secondary → 30-minute TWAP.
//!
//! Direct oracle answers are validated for freshness and positivity. Every
//! valid answer feeds a cumulative-price accumulator whose snapshots power
//! the time-weighted average fallback used when both oracles are down or
//! returning stale data.
use vstd::prelude::*;

use crate::arith::{clamp128, sat_add, sat_mul, tdiv};
use crate::constants::{
    MAX_FUTURE_SKEW_SECS, MAX_PRICE_STALENESS_SECS, TWAP_MAX_SNAPSHOTS, TWAP_MIN_SPAN_SECS,
    TWAP_SNAPSHOT_INTERVAL_SECS, TWAP_WINDOW_SECS,
};
use crate::storage::PriceObservation;

verus! {

// ============================================================
// VALIDATION
// ============================================================

/// `a + b` for timestamps, saturating at `u64::MAX`.
pub open spec fn ts_add(a: u64, b: u64) -> int {
    if a + b > u64::MAX {
        u64::MAX as int
    } else {
        a + b
    }
}

/// `a - b` for timestamps, saturating at zero.
pub open spec fn ts_sub(a: u64, b: u64) -> int {
    if a >= b {
        a - b
    } else {
        0
    }
}

/// A raw oracle answer is usable: positive price, observation neither
/// stale nor implausibly far in the future.
pub open spec fn answer_valid(price: i128, ts: u64, now: u64) -> bool {
    &&& price > 0
    &&& ts <= ts_add(now, MAX_FUTURE_SKEW_SECS)
    &&& ts_sub(now, ts) <= MAX_PRICE_STALENESS_SECS
}

/// Validate a raw oracle answer: price must be positive and the observation
/// neither stale nor implausibly in the future.
pub fn validate_answer(price: i128, ts: u64, now: u64) -> (r: bool)
    ensures
        r == answer_valid(price, ts, now),
{
    if price <= 0 {
        return false;
    }
    if ts > now.saturating_add(MAX_FUTURE_SKEW_SECS) {
        return false;
    }
    if now.saturating_sub(ts) > MAX_PRICE_STALENESS_SECS {
        return false;
    }
    true
}

// ============================================================
// TWAP ACCUMULATOR
// ============================================================

/// State of the time-weighted average price accumulator for one asset.
#[derive(Debug)]
pub struct TwapState {
    /// Timestamp of the last observed price.
    pub last_ts: u64,
    /// Last directly observed price (0 = not seeded).
    pub last_price: i128,
    /// Cumulative sum of price * elapsed seconds.
    pub cumulative: i128,
    /// Timestamp of the most recent snapshot.
    pub last_snapshot_ts: u64,
    /// Ring buffer of snapshots (bounded, oldest first).
    pub snapshots: Vec<PriceObservation>,
}

/// Mathematical view of a [`TwapState`].
pub struct TwapView {
    pub last_ts: u64,
    pub last_price: i128,
    pub cumulative: i128,
    pub last_snapshot_ts: u64,
    pub snapshots: Seq<PriceObservation>,
}

impl View for TwapState {
    type V = TwapView;

    open spec fn view(&self) -> TwapView {
        TwapView {
            last_ts: self.last_ts,
            last_price: self.last_price,
            cumulative: self.cumulative,
            last_snapshot_ts: self.last_snapshot_ts,
            snapshots: self.snapshots@,
        }
    }
}

/// The unseeded accumulator.
pub open spec fn empty_twap() -> TwapView {
    TwapView { last_ts: 0, last_price: 0, cumulative: 0, last_snapshot_ts: 0, snapshots: Seq::empty() }
}

/// Well-formed accumulator: non-negative price and accumulator values and
/// at most `TWAP_MAX_SNAPSHOTS` snapshots.
pub open spec fn twap_wf(t: TwapView) -> bool {
    &&& t.last_price >= 0
    &&& t.cumulative >= 0
    &&& t.snapshots.len() <= TWAP_MAX_SNAPSHOTS
    &&& forall|i: int| 0 <= i < t.snapshots.len() ==> #[trigger] t.snapshots[i].cum >= 0
}

/// Keep only the newest `TWAP_MAX_SNAPSHOTS` entries.
pub open spec fn keep_newest(s: Seq<PriceObservation>) -> Seq<PriceObservation> {
    if s.len() > TWAP_MAX_SNAPSHOTS {
        s.subrange(s.len() - TWAP_MAX_SNAPSHOTS, s.len() as int)
    } else {
        s
    }
}

/// Seconds elapsed from `from` to `to`, saturating at zero and capped at `u32::MAX`.
pub open spec fn elapsed_capped(to: u64, from: u64) -> int {
    let e = ts_sub(to, from);
    if e > u32::MAX {
        u32::MAX as int
    } else {
        e
    }
}

/// The accumulator after observing `price` at time `now`.
pub open spec fn observe_spec(t: TwapView, price: i128, now: u64) -> TwapView {
    if t.last_price == 0 || t.last_ts >= now {
        TwapView { last_ts: now, last_price: price, ..t }
    } else {
        let cum = clamp128(t.cumulative + clamp128(t.last_price * elapsed_capped(now, t.last_ts)));
        if t.snapshots.len() == 0 || now >= ts_add(t.last_snapshot_ts, TWAP_SNAPSHOT_INTERVAL_SECS) {
            TwapView {
                last_ts: now,
                last_price: price,
                cumulative: cum as i128,
                last_snapshot_ts: now,
                snapshots: keep_newest(t.snapshots.push(PriceObservation { ts: now, cum: cum as i128 })),
            }
        } else {
            TwapView { last_ts: now, last_price: price, cumulative: cum as i128, ..t }
        }
    }
}

/// Index of the first snapshot at or after position `i` whose timestamp is
/// not before `cutoff`; the last snapshot when none is.
pub open spec fn first_from(snaps: Seq<PriceObservation>, cutoff: int, i: int) -> int
    decreases snaps.len() - i,
{
    if i >= snaps.len() {
        snaps.len() - 1
    } else if snaps[i].ts >= cutoff {
        i
    } else {
        first_from(snaps, cutoff, i + 1)
    }
}

/// Index of the oldest snapshot inside the trailing window ending at `now`,
/// or of the newest snapshot when every one has aged out.
pub open spec fn window_start(snaps: Seq<PriceObservation>, now: u64) -> int {
    first_from(snaps, ts_sub(now, TWAP_WINDOW_SECS), 0)
}

/// Accumulator value interpolated to `now` with the last observed price.
pub open spec fn cum_at(t: TwapView, now: u64) -> int {
    clamp128(t.cumulative + clamp128(t.last_price * elapsed_capped(now, t.last_ts)))
}

/// Inputs on which the TWAP computation stays within `i128`.
pub open spec fn twap_computable(t: TwapView, now: u64) -> bool {
    t.last_price <= 0 || t.snapshots.len() < 2 || {
        let start = t.snapshots[window_start(t.snapshots, now)];
        ts_sub(now, start.ts) < TWAP_MIN_SPAN_SECS || i128::MIN <= cum_at(t, now) - start.cum
            <= i128::MAX
    }
}

/// Time-weighted average price over the trailing window, or `None` when
/// the recorded history is insufficient.
pub open spec fn twap_spec(t: TwapView, now: u64) -> Option<i128> {
    if t.last_price <= 0 || t.snapshots.len() < 2 {
        None
    } else {
        let start = t.snapshots[window_start(t.snapshots, now)];
        let span = ts_sub(now, start.ts);
        if span < TWAP_MIN_SPAN_SECS {
            None
        } else {
            let delta = cum_at(t, now) - start.cum;
            if delta <= 0 {
                None
            } else {
                Some(tdiv(delta, span) as i128)
            }
        }
    }
}

/// `first_from` stays in range for a non-empty list.
proof fn first_from_in_range(snaps: Seq<PriceObservation>, cutoff: int, i: int)
    requires
        snaps.len() > 0,
        0 <= i,
    ensures
        0 <= first_from(snaps, cutoff, i) < snaps.len(),
    decreases snaps.len() - i,
{
    if i < snaps.len() && snaps[i].ts < cutoff {
        first_from_in_range(snaps, cutoff, i + 1);
    }
}

/// A well-formed accumulator never overflows the TWAP computation.
pub proof fn twap_wf_computable(t: TwapView, now: u64)
    requires
        twap_wf(t),
    ensures
        twap_computable(t, now),
{
    if t.snapshots.len() >= 2 {
        first_from_in_range(t.snapshots, ts_sub(now, TWAP_WINDOW_SECS), 0);
        assert(t.last_price * elapsed_capped(now, t.last_ts) >= 0) by (nonlinear_arith)
            requires
                t.last_price >= 0,
                elapsed_capped(now, t.last_ts) >= 0,
        ;
    }
}

/// Snapshots are in strictly increasing time order, none after the last
/// observation.
pub open spec fn snapshots_ordered(t: TwapView) -> bool {
    &&& forall|i: int, j: int|
        0 <= i < j < t.snapshots.len() ==> #[trigger] t.snapshots[i].ts < #[trigger] t.snapshots[j].ts
    &&& forall|i: int| 0 <= i < t.snapshots.len() ==> #[trigger] t.snapshots[i].ts <= t.last_ts
}

/// Observing a non-negative price keeps the accumulator well formed: the
/// ring buffer never grows beyond `TWAP_MAX_SNAPSHOTS` and accumulator
/// values stay non-negative.
pub proof fn observe_keeps_wf(t: TwapView, price: i128, now: u64)
    requires
        twap_wf(t),
        price >= 0,
    ensures
        twap_wf(observe_spec(t, price, now)),
{
    if !(t.last_price == 0 || t.last_ts >= now) {
        let e = elapsed_capped(now, t.last_ts);
        assert(t.last_price * e >= 0) by (nonlinear_arith)
            requires
                t.last_price >= 0,
                e >= 0,
        ;
        let r = observe_spec(t, price, now);
        let pushed = t.snapshots.push(PriceObservation { ts: now, cum: r.cumulative });
        assert forall|i: int| 0 <= i < r.snapshots.len() implies #[trigger] r.snapshots[i].cum >= 0 by {
            if t.snapshots.len() == 0 || now >= ts_add(t.last_snapshot_ts, TWAP_SNAPSHOT_INTERVAL_SECS) {
                if pushed.len() > TWAP_MAX_SNAPSHOTS {
                    assert(r.snapshots[i] == pushed[i + pushed.len() - TWAP_MAX_SNAPSHOTS]);
                } else {
                    assert(r.snapshots[i] == pushed[i]);
                }
            }
        }
    }
}

/// While time does not run backwards, snapshots stay ordered oldest first.
pub proof fn observe_keeps_order(t: TwapView, price: i128, now: u64)
    requires
        snapshots_ordered(t),
        now >= t.last_ts,
    ensures
        snapshots_ordered(observe_spec(t, price, now)),
{
    let r = observe_spec(t, price, now);
    if !(t.last_price == 0 || t.last_ts >= now) {
        if t.snapshots.len() == 0 || now >= ts_add(t.last_snapshot_ts, TWAP_SNAPSHOT_INTERVAL_SECS) {
            let pushed = t.snapshots.push(PriceObservation { ts: now, cum: r.cumulative });
            let off: int = if pushed.len() > TWAP_MAX_SNAPSHOTS {
                pushed.len() - TWAP_MAX_SNAPSHOTS
            } else {
                0
            };
            assert forall|i: int| 0 <= i < r.snapshots.len() implies r.snapshots[i] == pushed[i + off] by {}
            assert forall|i: int, j: int|
                0 <= i < j < r.snapshots.len() implies #[trigger] r.snapshots[i].ts
                < #[trigger] r.snapshots[j].ts by {
                assert(r.snapshots[i] == pushed[i + off]);
                assert(r.snapshots[j] == pushed[j + off]);
            }
            assert forall|i: int| 0 <= i < r.snapshots.len() implies #[trigger] r.snapshots[i].ts <= r.last_ts by {
                assert(r.snapshots[i] == pushed[i + off]);
            }
        }
    }
}

// ============================================================
// TWAP WITHIN THE RECORDED PRICE BAND
// ============================================================

/// Every price observed since `t0` lay in `[lo, hi]`: the accumulator is
/// seeded with such a price (or unseeded and empty), it has grown by at
/// most `hi` per second since `t0`, and since each snapshot it has grown by
/// between `lo` and `hi` per elapsed second.
pub open spec fn in_band(t: TwapView, lo: int, hi: int, t0: int) -> bool {
    &&& t.last_price == 0 ==> t.snapshots.len() == 0 && t.cumulative == 0
    &&& t.last_price != 0 ==> lo <= t.last_price <= hi && t0 <= t.last_ts && 0 <= t.cumulative <= hi * (
    t.last_ts - t0)
    &&& forall|i: int|
        0 <= i < t.snapshots.len() ==> t0 <= #[trigger] t.snapshots[i].ts <= t.last_ts && lo * (t.last_ts
            - t.snapshots[i].ts) <= t.cumulative - t.snapshots[i].cum <= hi * (t.last_ts
            - t.snapshots[i].ts)
}

/// The accumulator after observing, in order, each `(price, time)` pair
/// of `obs`, starting from the unseeded accumulator.
pub open spec fn replay(obs: Seq<(i128, u64)>) -> TwapView
    decreases obs.len(),
{
    if obs.len() == 0 {
        empty_twap()
    } else {
        observe_spec(replay(obs.drop_last()), obs.last().0, obs.last().1)
    }
}

/// Observing a price inside the band keeps the accumulator in the band,
/// while time does not run backwards, the gap since the last observation
/// fits the `u32` cap on elapsed seconds, and the accumulator cannot
/// saturate.
pub proof fn observe_keeps_band(t: TwapView, price: i128, now: u64, lo: int, hi: int, t0: int)
    requires
        in_band(t, lo, hi, t0),
        0 < lo <= hi,
        lo <= price <= hi,
        t0 <= now,
        t.last_price != 0 ==> t.last_ts <= now && now - t.last_ts <= u32::MAX,
        hi * (now - t0) <= i128::MAX,
    ensures
        in_band(observe_spec(t, price, now), lo, hi, t0),
        observe_spec(t, price, now).last_ts == now,
{
    let r = observe_spec(t, price, now);
    if t.last_price == 0 {
        assert(hi * (now - t0) >= 0) by (nonlinear_arith)
            requires
                hi > 0,
                now - t0 >= 0,
        ;
    } else if t.last_ts >= now {
        assert(t.last_ts == now);
    } else {
        let e: int = now - t.last_ts;
        assert(elapsed_capped(now, t.last_ts) == e);
        let inc = t.last_price * e;
        assert(lo * e <= inc <= hi * e) by (nonlinear_arith)
            requires
                inc == t.last_price * e,
                lo <= t.last_price <= hi,
                e > 0,
        ;
        assert(hi * (t.last_ts - t0) + hi * e == hi * (now - t0)) by (nonlinear_arith)
            requires
                e == now - t.last_ts,
        ;
        assert(inc >= 0 && inc <= i128::MAX) by (nonlinear_arith)
            requires
                lo * e <= inc <= hi * e,
                hi * (t.last_ts - t0) + hi * e <= i128::MAX,
                t.last_ts - t0 >= 0,
                lo > 0,
                e > 0,
                hi > 0,
        ;
        let cum = t.cumulative + inc;
        assert(clamp128(inc) == inc);
        assert(clamp128(cum) == cum);
        assert(r.cumulative == cum);
        assert(0 <= cum <= hi * (now - t0));
        assert forall|i: int| 0 <= i < t.snapshots.len() implies lo * (now - #[trigger] t.snapshots[i].ts) <= cum
            - t.snapshots[i].cum <= hi * (now - t.snapshots[i].ts) by {
            let d = t.last_ts - t.snapshots[i].ts;
            assert(lo * d + lo * e == lo * (now - t.snapshots[i].ts) && hi * d + hi * e == hi * (now
                - t.snapshots[i].ts)) by (nonlinear_arith)
                requires
                    d == t.last_ts - t.snapshots[i].ts,
                    e == now - t.last_ts,
            ;
        }
        if t.snapshots.len() == 0 || now >= ts_add(t.last_snapshot_ts, TWAP_SNAPSHOT_INTERVAL_SECS) {
            let pushed = t.snapshots.push(PriceObservation { ts: now, cum: cum as i128 });
            let off: int = if pushed.len() > TWAP_MAX_SNAPSHOTS {
                pushed.len() - TWAP_MAX_SNAPSHOTS
            } else {
                0
            };
            assert forall|i: int| 0 <= i < r.snapshots.len() implies t0 <= #[trigger] r.snapshots[i].ts <= r.last_ts
                && lo * (r.last_ts - r.snapshots[i].ts) <= r.cumulative - r.snapshots[i].cum <= hi * (
            r.last_ts - r.snapshots[i].ts) by {
                assert(r.snapshots[i] == pushed[i + off]);
                if i + off == t.snapshots.len() {
                    assert(lo * 0 == 0 && hi * 0 == 0) by (nonlinear_arith);
                }
            }
        } else {
            assert forall|i: int| 0 <= i < r.snapshots.len() implies t0 <= #[trigger] r.snapshots[i].ts <= r.last_ts
                && lo * (r.last_ts - r.snapshots[i].ts) <= r.cumulative - r.snapshots[i].cum <= hi * (
            r.last_ts - r.snapshots[i].ts) by {
                assert(r.snapshots[i] == t.snapshots[i]);
            }
        }
    }
}

/// `floor(delta / span)` lies in `[lo, hi]` when `delta` lies in
/// `[lo * span, hi * span]`.
proof fn quotient_in_band(delta: int, span: int, lo: int, hi: int)
    requires
        span > 0,
        lo * span <= delta <= hi * span,
    ensures
        lo <= delta / span <= hi,
{
    let q = delta / span;
    let m = delta % span;
    assert(delta == q * span + m && 0 <= m < span) by (nonlinear_arith)
        requires
            span > 0,
            q == delta / span,
            m == delta % span,
    ;
    assert(lo <= q) by (nonlinear_arith)
        requires
            lo * span <= q * span + m,
            m < span,
            span > 0,
    ;
    assert(q <= hi) by (nonlinear_arith)
        requires
            q * span + m <= hi * span,
            m >= 0,
            span > 0,
    ;
}

/// An accumulator in the band yields a TWAP in the band, while `now` does
/// not lie before the last observation, the gap fits the `u32` cap, and the
/// accumulator cannot saturate.
pub proof fn twap_within_band(t: TwapView, now: u64, lo: int, hi: int, t0: int)
    requires
        in_band(t, lo, hi, t0),
        0 < lo <= hi,
        t.last_price != 0 ==> t.last_ts <= now && now - t.last_ts <= u32::MAX,
        hi * (now - t0) <= i128::MAX,
    ensures
        twap_spec(t, now) matches Some(r) ==> lo <= r <= hi,
{
    if t.last_price > 0 && t.snapshots.len() >= 2 {
        first_from_in_range(t.snapshots, ts_sub(now, TWAP_WINDOW_SECS), 0);
        let k = window_start(t.snapshots, now);
        let start = t.snapshots[k];
        let span: int = now - start.ts;
        assert(ts_sub(now, start.ts) == span);
        let e: int = now - t.last_ts;
        assert(elapsed_capped(now, t.last_ts) == e);
        let inc = t.last_price * e;
        assert(lo * e <= inc <= hi * e) by (nonlinear_arith)
            requires
                inc == t.last_price * e,
                lo <= t.last_price <= hi,
                e >= 0,
        ;
        assert(hi * (t.last_ts - t0) + hi * e == hi * (now - t0)) by (nonlinear_arith)
            requires
                e == now - t.last_ts,
        ;
        assert(0 <= inc <= i128::MAX) by (nonlinear_arith)
            requires
                lo * e <= inc <= hi * e,
                hi * (t.last_ts - t0) + hi * e <= i128::MAX,
                t.last_ts - t0 >= 0,
                lo > 0,
                e >= 0,
                hi > 0,
        ;
        assert(cum_at(t, now) == t.cumulative + inc);
        let d = t.last_ts - start.ts;
        assert(lo * d + lo * e == lo * span && hi * d + hi * e == hi * span) by (nonlinear_arith)
            requires
                d == t.last_ts - start.ts,
                e == now - t.last_ts,
                span == now - start.ts,
        ;
        let delta = cum_at(t, now) - start.cum;
        assert(lo * span <= delta <= hi * span);
        assert(hi * span <= hi * (now - t0)) by (nonlinear_arith)
            requires
                hi > 0,
                t0 <= start.ts,
                span == now - start.ts,
        ;
        if span >= TWAP_MIN_SPAN_SECS && delta > 0 {
            quotient_in_band(delta, span, lo, hi);
            assert(tdiv(delta, span) == delta / span);
            assert(twap_spec(t, now) == Some((delta / span) as i128));
        }
    }
}

/// Seconds between observation `i - 1` and observation `i`.
pub open spec fn gap(obs: Seq<(i128, u64)>, i: int) -> int {
    obs[i].1 - obs[i - 1].1
}

/// Every gap between consecutive observations is below 2^32 seconds, the
/// cap on elapsed time that the accumulator applies.
pub open spec fn gaps_fit(obs: Seq<(i128, u64)>) -> bool {
    forall|i: int| 0 < i < obs.len() ==> #[trigger] gap(obs, i) <= u32::MAX
}

/// Replaying observations keeps the accumulator in the band of the
/// observed prices, with its last observation time the time of the last
/// pair.
proof fn replay_in_band(obs: Seq<(i128, u64)>, lo: int, hi: int, t0: int, horizon: int)
    requires
        0 < lo <= hi,
        forall|i: int| 0 <= i < obs.len() ==> lo <= #[trigger] obs[i].0 <= hi,
        forall|i: int, j: int| 0 <= i < j < obs.len() ==> #[trigger] obs[i].1 <= #[trigger] obs[j].1,
        forall|i: int| 0 <= i < obs.len() ==> t0 <= #[trigger] obs[i].1 <= horizon,
        gaps_fit(obs),
        hi * (horizon - t0) <= i128::MAX,
    ensures
        in_band(replay(obs), lo, hi, t0),
        obs.len() > 0 ==> replay(obs).last_ts == obs.last().1,
        obs.len() == 0 ==> replay(obs).last_price == 0,
    decreases obs.len(),
{
    if obs.len() > 0 {
        let prev = obs.drop_last();
        assert forall|i: int| 0 <= i < prev.len() implies lo <= #[trigger] prev[i].0 <= hi by {
            assert(prev[i] == obs[i]);
        }
        assert forall|i: int, j: int| 0 <= i < j < prev.len() implies #[trigger] prev[i].1
            <= #[trigger] prev[j].1 by {
            assert(prev[i] == obs[i] && prev[j] == obs[j]);
        }
        assert forall|i: int| 0 <= i < prev.len() implies t0 <= #[trigger] prev[i].1 <= horizon by {
            assert(prev[i] == obs[i]);
        }
        assert forall|i: int| 0 < i < prev.len() implies #[trigger] gap(prev, i) <= u32::MAX by {
            assert(prev[i] == obs[i] && prev[i - 1] == obs[i - 1]);
            assert(gap(obs, i) <= u32::MAX);
        }
        replay_in_band(prev, lo, hi, t0, horizon);
        let last = obs.last();
        assert(last == obs[obs.len() - 1]);
        if prev.len() > 0 {
            assert(prev.last() == obs[obs.len() - 2]);
            assert(gap(obs, obs.len() - 1) <= u32::MAX);
        }
        assert(hi * (last.1 - t0) <= hi * (horizon - t0)) by (nonlinear_arith)
            requires
                hi > 0,
                last.1 <= horizon,
        ;
        observe_keeps_band(replay(prev), last.0, last.1, lo, hi, t0);
    }
}

/// The time-weighted average lies within the range of the recorded prices:
/// when an asset's accumulator was built only from observations `obs`
/// whose prices all lie in `[lo, hi]` with `lo > 0`, recorded at
/// non-decreasing times, each gap between consecutive observations (and
/// from the last one to `now`) below 2^32 seconds, and `hi` times the whole
/// span fitting in `i128` (so nothing saturates), a TWAP served at `now`
/// lies in `[lo, hi]`. In particular it equals `p` when every recorded
/// price is `p`.
pub proof fn twap_stays_within_recorded_prices(obs: Seq<(i128, u64)>, lo: i128, hi: i128, now: u64)
    requires
        0 < lo <= hi,
        obs.len() > 0,
        forall|i: int| 0 <= i < obs.len() ==> lo <= #[trigger] obs[i].0 <= hi,
        forall|i: int, j: int| 0 <= i < j < obs.len() ==> #[trigger] obs[i].1 <= #[trigger] obs[j].1,
        gaps_fit(obs),
        obs.last().1 <= now,
        now - obs.last().1 <= u32::MAX,
        hi * (now - obs[0].1) <= i128::MAX,
    ensures
        twap_spec(replay(obs), now) matches Some(r) ==> lo <= r <= hi,
{
    let t0 = obs[0].1 as int;
    assert forall|i: int| 0 <= i < obs.len() implies t0 <= #[trigger] obs[i].1 <= now by {
        if i > 0 {
            assert(obs[0].1 <= obs[i].1);
        }
        if i < obs.len() - 1 {
            assert(obs[i].1 <= obs[obs.len() - 1].1);
        }
    }
    replay_in_band(obs, lo as int, hi as int, t0, now as int);
    assert(obs.last() == obs[obs.len() - 1]);
    twap_within_band(replay(obs), now, lo as int, hi as int, t0);
}

/// The average rate at which the accumulator grew from snapshot `k` to
/// `now`: the accumulator interpolated to `now` minus the snapshot's
/// value, over the seconds since the snapshot; none while the history is
/// too short, the span below the minimum, or the growth not positive.
pub open spec fn average_since(t: TwapView, k: int, now: u64) -> Option<i128> {
    if t.last_price <= 0 || t.snapshots.len() < 2 {
        None
    } else {
        let span: int = if now >= t.snapshots[k].ts { now - t.snapshots[k].ts } else { 0 };
        let delta = cum_at(t, now) - t.snapshots[k].cum;
        if span < TWAP_MIN_SPAN_SECS || delta <= 0 {
            None
        } else {
            Some((delta / span) as i128)
        }
    }
}

/// `first_from` finds the first index at or after `i` whose timestamp
/// reaches the cutoff.
proof fn first_from_finds(snaps: Seq<PriceObservation>, cutoff: int, i: int, k: int)
    requires
        0 <= i <= k < snaps.len(),
        snaps[k].ts >= cutoff,
        forall|j: int| 0 <= j < k ==> #[trigger] snaps[j].ts < cutoff,
    ensures
        first_from(snaps, cutoff, i) == k,
    decreases k - i,
{
    if i < k {
        first_from_finds(snaps, cutoff, i + 1, k);
    }
}

/// `first_from` falls back to the newest snapshot when none reaches the
/// cutoff.
proof fn first_from_none(snaps: Seq<PriceObservation>, cutoff: int, i: int)
    requires
        0 <= i,
        snaps.len() > 0,
        forall|j: int| 0 <= j < snaps.len() ==> #[trigger] snaps[j].ts < cutoff,
    ensures
        first_from(snaps, cutoff, i) == snaps.len() - 1,
    decreases snaps.len() - i,
{
    if i < snaps.len() {
        first_from_none(snaps, cutoff, i + 1);
    }
}

/// The TWAP is taken over the trailing 30-minute window: its start is the
/// oldest snapshot no older than 1_800 seconds before `now` (every earlier
/// snapshot is older than that), and the TWAP is the accumulator's average
/// growth since that snapshot. Older history never enters the average.
pub proof fn twap_uses_trailing_window(t: TwapView, now: u64, k: int)
    requires
        0 <= k < t.snapshots.len(),
        t.snapshots[k].ts >= now - 1_800,
        forall|j: int| 0 <= j < k ==> #[trigger] t.snapshots[j].ts < now - 1_800,
    ensures
        twap_spec(t, now) == average_since(t, k, now),
{
    let cutoff = ts_sub(now, TWAP_WINDOW_SECS);
    assert forall|j: int| 0 <= j < k implies #[trigger] t.snapshots[j].ts < cutoff by {
        assert(t.snapshots[j].ts < now - 1_800);
    }
    first_from_finds(t.snapshots, cutoff, 0, k);
}

/// When every snapshot has aged out of the 30-minute window, the TWAP is
/// the average growth since the newest snapshot.
pub proof fn twap_after_window_empties(t: TwapView, now: u64)
    requires
        t.snapshots.len() > 0,
        forall|j: int| 0 <= j < t.snapshots.len() ==> #[trigger] t.snapshots[j].ts < now - 1_800,
    ensures
        twap_spec(t, now) == average_since(t, t.snapshots.len() - 1, now),
{
    let cutoff = ts_sub(now, TWAP_WINDOW_SECS);
    assert forall|j: int| 0 <= j < t.snapshots.len() implies #[trigger] t.snapshots[j].ts < cutoff by {
        assert(t.snapshots[j].ts < now - 1_800);
    }
    first_from_none(t.snapshots, cutoff, 0);
}

impl TwapState {
    /// The unseeded accumulator.
    pub fn empty() -> (r: TwapState)
        ensures
            r@ == empty_twap(),
    {
        TwapState { last_ts: 0, last_price: 0, cumulative: 0, last_snapshot_ts: 0, snapshots: Vec::new() }
    }

    /// Feed an observed price into the cumulative-price accumulator and
    /// record a bounded ring-buffer snapshot on the configured cadence.
    pub fn observe(&mut self, price: i128, now: u64)
        ensures
            final(self)@ == observe_spec(old(self)@, price, now),
    {
        // Unseeded state is signalled by a zero price (valid prices are
        // always positive); ledger time may legitimately start at zero.
        if self.last_price == 0 || self.last_ts >= now {
            self.last_ts = now;
            self.last_price = price;
            return;
        }
        let elapsed = now - self.last_ts;
        let elapsed = if elapsed > u32::MAX as u64 {
            u32::MAX as u64
        } else {
            elapsed
        };
        self.cumulative = sat_add(self.cumulative, sat_mul(self.last_price, elapsed as i128));
        self.last_ts = now;
        self.last_price = price;

        if self.snapshots.len() == 0 || now >= self.last_snapshot_ts.saturating_add(
            TWAP_SNAPSHOT_INTERVAL_SECS,
        ) {
            let ghost pushed = self.snapshots@.push(PriceObservation { ts: now, cum: self.cumulative });
            self.snapshots.push(PriceObservation { ts: now, cum: self.cumulative });
            while self.snapshots.len() > TWAP_MAX_SNAPSHOTS as usize
                invariant
                    self.last_ts == now,
                    self.last_price == price,
                    self.cumulative == pushed.last().cum,
                    pushed.len() >= self.snapshots@.len(),
                    self.snapshots@ =~= pushed.subrange(pushed.len() - self.snapshots@.len(), pushed.len() as int),
                    pushed.len() <= TWAP_MAX_SNAPSHOTS ==> self.snapshots@.len() == pushed.len(),
                    pushed.len() > TWAP_MAX_SNAPSHOTS ==> self.snapshots@.len() >= TWAP_MAX_SNAPSHOTS,
                decreases self.snapshots.len(),
            {
                self.snapshots.remove(0);
            }
            assert(self.snapshots@ =~= keep_newest(pushed));
            self.last_snapshot_ts = now;
        }
    }

    /// Time-weighted average price over the trailing [`TWAP_WINDOW_SECS`],
    /// or `None` ("no valid price source") when the history is insufficient.
    pub fn twap_at(&self, now: u64) -> (r: Option<i128>)
        requires
            twap_computable(self@, now),
        ensures
            r == twap_spec(self@, now),
    {
        if self.last_price <= 0 || self.snapshots.len() < 2 {
            return None;
        }
        // Interpolate the accumulator to `now` using the last observed price.
        let elapsed = now.saturating_sub(self.last_ts);
        let elapsed = if elapsed > u32::MAX as u64 {
            u32::MAX as u64
        } else {
            elapsed
        };
        let cum_now = sat_add(self.cumulative, sat_mul(self.last_price, elapsed as i128));

        // Pick the oldest snapshot that still lies inside the window; if
        // every snapshot has aged out, degrade to the most recent one.
        let cutoff = now.saturating_sub(TWAP_WINDOW_SECS);
        let n = self.snapshots.len();
        let mut start_idx = n - 1;
        let mut i: usize = 0;
        while i < n
            invariant_except_break
                start_idx == n - 1,
                first_from(self.snapshots@, cutoff as int, 0) == first_from(self.snapshots@, cutoff as int, i as int),
            invariant
                n == self.snapshots@.len(),
                n >= 2,
                i <= n,
            ensures
                start_idx == first_from(self.snapshots@, cutoff as int, 0),
            decreases n - i,
        {
            if self.snapshots[i].ts >= cutoff {
                start_idx = i;
                break;
            }
            i = i + 1;
        }
        proof {
            first_from_in_range(self.snapshots@, cutoff as int, 0);
        }
        let start = self.snapshots[start_idx];

        let span = now.saturating_sub(start.ts);
        if span < TWAP_MIN_SPAN_SECS {
            return None;
        }
        let delta = cum_now - start.cum;
        if delta <= 0 {
            return None;
        }
        Some(delta / span as i128)
    }
}

} // verus!
