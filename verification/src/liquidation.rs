//! Liquidation engine: pure math core plus plan computation.
//!
//! - Dynamic liquidator incentives: the bonus interpolates linearly from
//!   `base_bonus` at HF = 1.0 up to `max_bonus` at HF <= 0.5.
//! - Penalty caps: the effective bonus never exceeds `penalty_cap_bps`.
//! - Partial liquidation: by default only enough debt is liquidated to
//!   restore the position's health factor to 1.1.
//! - Bad-debt socialization: when a liquidation drains all collateral and
//!   debt still remains, the shortfall is reported for write-off.
use vstd::prelude::*;

use crate::arith::{clamp128, max128, min128, sat_add, sat_mul, sat_sub, tdiv};
use crate::constants::{BPS_DENOMINATOR, PRICE_SCALE, TARGET_HF_DEN, TARGET_HF_NUM};

verus! {

// ============================================================
// HEALTH FACTOR
// ============================================================

/// Health ratio expressed as an exact fraction `(num, den)`:
/// `HF = num / den` where `num = collateral_value * liq_threshold_bps` and
/// `den = debt_value * 10_000`, each saturating at the `i128` bounds.
pub fn health_ratio(coll_value: i128, debt_value: i128, liq_threshold_bps: u32) -> (r: (i128, i128))
    ensures
        r.0 == clamp128(coll_value * liq_threshold_bps),
        r.1 == clamp128(debt_value * BPS_DENOMINATOR),
{
    let num = sat_mul(coll_value, liq_threshold_bps as i128);
    let den = sat_mul(debt_value, BPS_DENOMINATOR);
    (num, den)
}

/// A position is liquidatable when its health factor drops below 1.
pub open spec fn liquidatable(num: int, den: int) -> bool {
    den > 0 && num < den
}

/// A position is liquidatable when its health factor drops below 1.
pub fn is_liquidatable(num: i128, den: i128) -> (r: bool)
    ensures
        r == liquidatable(num as int, den as int),
{
    den > 0 && num < den
}

// ============================================================
// DYNAMIC LIQUIDATOR INCENTIVES
// ============================================================

/// Width of the dynamic bonus range (`max - base`, never negative).
pub open spec fn bonus_span(base_bonus_bps: u32, max_bonus_bps: u32) -> int {
    if max_bonus_bps >= base_bonus_bps {
        max_bonus_bps - base_bonus_bps
    } else {
        0
    }
}

/// Inputs on which the bonus interpolation stays within `i128`.
pub open spec fn bonus_computable(num: int, den: int, base_bonus_bps: u32, max_bonus_bps: u32) -> bool {
    den <= 0 || num >= den || bonus_span(base_bonus_bps, max_bonus_bps) == 0 || den - num
        <= i128::MAX
}

/// The interpolated bonus before clamping into range and capping.
pub open spec fn interpolated_bonus(num: int, den: int, base_bonus_bps: u32, max_bonus_bps: u32) -> int {
    let span = bonus_span(base_bonus_bps, max_bonus_bps);
    if den <= 0 || num >= den || span == 0 {
        base_bonus_bps as int
    } else {
        let a = clamp128((den - num) * 2);
        let b = clamp128(den * 2);
        let depth_x2 = if a <= b { a } else { b };
        base_bonus_bps + tdiv(clamp128(span * depth_x2), den)
    }
}

/// Effective liquidation bonus in bps: the interpolated bonus held inside
/// `[base, base + span]`, then capped at `penalty_cap_bps`.
pub open spec fn bonus_spec(num: int, den: int, base_bonus_bps: u32, max_bonus_bps: u32, penalty_cap_bps: u32) -> int {
    let lo = base_bonus_bps as int;
    let hi = base_bonus_bps + bonus_span(base_bonus_bps, max_bonus_bps);
    let b = interpolated_bonus(num, den, base_bonus_bps, max_bonus_bps);
    let c = if b < lo {
        lo
    } else if b > hi {
        hi
    } else {
        b
    };
    if c <= penalty_cap_bps {
        c
    } else {
        penalty_cap_bps as int
    }
}

/// Effective liquidation bonus in bps.
///
/// Linear interpolation from `base_bonus_bps` at HF = 1.0 to
/// `max_bonus_bps` at HF <= 0.5, then hard-capped at `penalty_cap_bps`.
pub fn dynamic_bonus_bps(
    num: i128,
    den: i128,
    base_bonus_bps: u32,
    max_bonus_bps: u32,
    penalty_cap_bps: u32,
) -> (r: u32)
    requires
        base_bonus_bps <= max_bonus_bps,
        bonus_computable(num as int, den as int, base_bonus_bps, max_bonus_bps),
    ensures
        r == bonus_spec(num as int, den as int, base_bonus_bps, max_bonus_bps, penalty_cap_bps),
{
    let base = base_bonus_bps as i128;
    let span = (max_bonus_bps - base_bonus_bps) as i128;

    let bonus = if den <= 0 || num >= den || span == 0 {
        base
    } else {
        let depth_x2 = min128(sat_mul(den - num, 2), sat_mul(den, 2));
        proof {
            assert(0 < depth_x2 <= 2 * den);
            assert(0 <= span * depth_x2 <= span * (2 * den)) by (nonlinear_arith)
                requires
                    0 < depth_x2 <= 2 * den,
                    0 <= span,
            ;
            assert(span * (2 * den) <= u32::MAX * (2 * i128::MAX)) by (nonlinear_arith)
                requires
                    0 <= span <= u32::MAX,
                    0 < den <= i128::MAX,
            ;
        }
        let q = sat_mul(span, depth_x2) / den;
        proof {
            let p = clamp128(span * depth_x2);
            assert(0 <= p <= span * (2 * den));
            assert(p / (den as int) <= 2 * span) by (nonlinear_arith)
                requires
                    0 <= p <= span * (2 * den),
                    den > 0,
            ;
        }
        base + q
    };

    let hi = base + span;
    let clamped = if bonus < base {
        base
    } else if bonus > hi {
        hi
    } else {
        bonus
    };
    let capped = min128(clamped, penalty_cap_bps as i128);
    capped as u32
}

// ============================================================
// VALUE / UNIT CONVERSIONS
// ============================================================

/// USD value of `units` token units at oracle price `price`.
pub open spec fn value_of(units: int, price: int) -> int {
    if price <= 0 {
        0
    } else {
        tdiv(clamp128(units * price), PRICE_SCALE as int)
    }
}

/// Token units worth `value` USD at oracle price `price` (rounded toward zero).
pub open spec fn units_of(value: int, price: int) -> int {
    if price <= 0 {
        0
    } else {
        tdiv(clamp128(value * PRICE_SCALE), price)
    }
}

/// Convert token units to USD value using an oracle price.
pub fn units_to_value(units: i128, price: i128) -> (r: i128)
    ensures
        r == value_of(units as int, price as int),
{
    if price <= 0 {
        return 0;
    }
    sat_mul(units, price) / PRICE_SCALE
}

/// Convert USD value back to token units (rounded toward zero).
pub fn value_to_units(value: i128, price: i128) -> (r: i128)
    ensures
        r == units_of(value as int, price as int),
{
    if price <= 0 {
        return 0;
    }
    sat_mul(value, PRICE_SCALE) / price
}

// ============================================================
// LIQUIDATION PLAN
// ============================================================

/// How much debt the caller asks to repay.
#[derive(Clone, Copy, Debug, PartialEq, Eq, Structural)]
pub enum RepayMode {
    /// Repay exactly enough to bring the health factor back to the
    /// partial-liquidation target (1.1). Recommended default.
    PartialToTarget,
    /// Repay the entire remaining debt (drains the position).
    Full,
    /// Caller-specified debt-token units; always capped by the engine rules.
    Specified(i128),
}

/// Outcome of the liquidation math for one call.
#[derive(Clone, Copy, Debug, PartialEq, Eq, Structural)]
pub struct LiquidationPlan {
    /// Debt-token units the liquidator must pay into the pool.
    pub repay_units: i128,
    /// Collateral units transferred to the liquidator.
    pub seize_units: i128,
    /// Effective bonus applied, in bps (already penalty-cap bounded).
    pub bonus_bps: u32,
    /// Remaining borrower debt (debt-token units) written off through
    /// bad-debt socialization. Zero when the position stays alive.
    pub bad_debt_units: i128,
}

/// `BPS + bonus`: the seizure multiplier numerator.
pub open spec fn gross_of(bonus: int) -> int {
    BPS_DENOMINATOR + bonus
}

/// Denominator of the closed-form target repayment; non-positive when the
/// 1.1 target cannot be reached by any repayment.
pub open spec fn target_denom(thr: int, gross: int) -> int {
    TARGET_HF_NUM * BPS_DENOMINATOR * BPS_DENOMINATOR - TARGET_HF_DEN * gross * thr
}

/// Repayment value (debt-token USD) that the requested mode aims at.
pub open spec fn target_value(mode: RepayMode, coll_value: int, debt_value: int, thr: int, gross: int, price_debt: int) -> int {
    match mode {
        RepayMode::PartialToTarget => {
            let denom = target_denom(thr, gross);
            if denom > 0 {
                let inner = clamp128(
                    clamp128(TARGET_HF_NUM * BPS_DENOMINATOR * debt_value) - clamp128(
                        TARGET_HF_DEN * thr * coll_value,
                    ),
                );
                let q = tdiv(clamp128(BPS_DENOMINATOR * (if inner >= 0 { inner } else { 0 })), denom);
                if q >= 0 { q } else { 0 }
            } else {
                debt_value
            }
        },
        RepayMode::Full => debt_value,
        RepayMode::Specified(units) => value_of(if units >= 0 { units as int } else { 0 }, price_debt),
    }
}

/// Largest repayment value whose seizure (with bonus) the collateral can cover,
/// rounded up.
pub open spec fn affordable_value(coll_value: int, gross: int) -> int {
    tdiv(clamp128(clamp128(coll_value * BPS_DENOMINATOR) + (gross - 1)), gross)
}

/// The smaller of two integers.
pub open spec fn min_int(a: int, b: int) -> int {
    if a <= b { a } else { b }
}

/// The larger of two integers.
pub open spec fn max_int(a: int, b: int) -> int {
    if a >= b { a } else { b }
}

/// The liquidation plan for a position, as a function of its inputs.
pub open spec fn plan_spec(
    coll_units: i128,
    debt_units: i128,
    price_coll: i128,
    price_debt: i128,
    liq_threshold_bps: u32,
    base_bonus_bps: u32,
    max_bonus_bps: u32,
    penalty_cap_bps: u32,
    mode: RepayMode,
) -> LiquidationPlan {
    let coll_value = value_of(coll_units as int, price_coll as int);
    let debt_value = value_of(debt_units as int, price_debt as int);
    let num = clamp128(coll_value * liq_threshold_bps);
    let den = clamp128(debt_value * BPS_DENOMINATOR);
    let bonus = bonus_spec(num, den, base_bonus_bps, max_bonus_bps, penalty_cap_bps);
    if !liquidatable(num, den) {
        LiquidationPlan { repay_units: 0, seize_units: 0, bonus_bps: bonus as u32, bad_debt_units: 0 }
    } else {
        let gross = gross_of(bonus);
        let target = target_value(mode, coll_value, debt_value, liq_threshold_bps as int, gross, price_debt as int);
        let repay0 = max_int(min_int(target, debt_value), 0);
        let repay_value = max_int(min_int(repay0, affordable_value(coll_value, gross)), 0);
        let repay_units = max_int(min_int(units_of(repay_value, price_debt as int), debt_units as int), 0);
        if repay_units == 0 {
            LiquidationPlan {
                repay_units: 0,
                seize_units: 0,
                bonus_bps: bonus as u32,
                bad_debt_units: debt_units,
            }
        } else {
            let seize_value = tdiv(clamp128(repay_value * gross), BPS_DENOMINATOR as int);
            let seize_units = max_int(min_int(units_of(seize_value, price_coll as int), coll_units as int), 0);
            let drained = coll_value > 0 && seize_value >= coll_value;
            LiquidationPlan {
                repay_units: repay_units as i128,
                seize_units: seize_units as i128,
                bonus_bps: bonus as u32,
                bad_debt_units: if drained { (debt_units - repay_units) as i128 } else { 0 },
            }
        }
    }
}

/// Inputs on which the plan computation stays within `i128`.
pub open spec fn plan_computable(
    coll_units: i128,
    debt_units: i128,
    price_coll: i128,
    price_debt: i128,
    liq_threshold_bps: u32,
    base_bonus_bps: u32,
    max_bonus_bps: u32,
) -> bool {
    let coll_value = value_of(coll_units as int, price_coll as int);
    let debt_value = value_of(debt_units as int, price_debt as int);
    bonus_computable(
        clamp128(coll_value * liq_threshold_bps),
        clamp128(debt_value * BPS_DENOMINATOR),
        base_bonus_bps,
        max_bonus_bps,
    )
}

/// Compute the liquidation plan for a position.
///
/// The result is `plan_spec` of the inputs; see `plan_guarantees` for the
/// safety properties that it always satisfies.
pub fn compute_plan(
    coll_units: i128,
    debt_units: i128,
    price_coll: i128,
    price_debt: i128,
    liq_threshold_bps: u32,
    base_bonus_bps: u32,
    max_bonus_bps: u32,
    penalty_cap_bps: u32,
    mode: RepayMode,
) -> (plan: LiquidationPlan)
    requires
        base_bonus_bps <= max_bonus_bps,
        plan_computable(coll_units, debt_units, price_coll, price_debt, liq_threshold_bps, base_bonus_bps, max_bonus_bps),
    ensures
        plan == plan_spec(
            coll_units,
            debt_units,
            price_coll,
            price_debt,
            liq_threshold_bps,
            base_bonus_bps,
            max_bonus_bps,
            penalty_cap_bps,
            mode,
        ),
{
    let coll_value = units_to_value(coll_units, price_coll);
    let debt_value = units_to_value(debt_units, price_debt);
    let (num, den) = health_ratio(coll_value, debt_value, liq_threshold_bps);

    let empty = LiquidationPlan {
        repay_units: 0,
        seize_units: 0,
        bonus_bps: dynamic_bonus_bps(num, den, base_bonus_bps, max_bonus_bps, penalty_cap_bps),
        bad_debt_units: 0,
    };

    if !is_liquidatable(num, den) {
        return empty;
    }

    let bonus_bps = dynamic_bonus_bps(num, den, base_bonus_bps, max_bonus_bps, penalty_cap_bps);

    // Solve for the repayment r that brings the post-liquidation health
    // factor to the target T = NUM/DEN, accounting for both sides:
    //   r = BPS * (NUM*BPS*D - DEN*thr*C) / (NUM*BPS^2 - DEN*g*thr)
    // A non-positive denominator means the target is unreachable; the
    // engine then repays as much as possible.
    let n_bs = sat_mul(TARGET_HF_NUM, BPS_DENOMINATOR);
    let thr = liq_threshold_bps as i128;
    let gross = sat_add(BPS_DENOMINATOR, bonus_bps as i128);
    proof {
        assert(0 <= gross * thr <= (10_000 + u32::MAX) * u32::MAX) by (nonlinear_arith)
            requires
                10_000 <= gross <= 10_000 + u32::MAX,
                0 <= thr <= u32::MAX,
        ;
    }
    let denom = sat_sub(sat_mul(n_bs, BPS_DENOMINATOR), sat_mul(sat_mul(TARGET_HF_DEN, gross), thr));

    let target_value = match mode {
        RepayMode::PartialToTarget => {
            if denom > 0 {
                let inner = sat_sub(sat_mul(n_bs, debt_value), sat_mul(sat_mul(TARGET_HF_DEN, thr), coll_value));
                max128(sat_mul(BPS_DENOMINATOR, max128(inner, 0)) / denom, 0)
            } else {
                debt_value
            }
        },
        RepayMode::Full => debt_value,
        RepayMode::Specified(units) => units_to_value(max128(units, 0), price_debt),
    };

    // Cap by the requested amount itself and by total debt.
    let mut repay_value = max128(min128(target_value, debt_value), 0);

    // Collateral affordability cap, rounded up so that drained positions
    // are never left with a dust sliver of collateral.
    let affordable = sat_add(sat_mul(coll_value, BPS_DENOMINATOR), gross - 1) / gross;
    repay_value = max128(min128(repay_value, affordable), 0);

    let repay_units = max128(min128(value_to_units(repay_value, price_debt), debt_units), 0);
    if repay_units == 0 {
        return LiquidationPlan { repay_units: 0, seize_units: 0, bonus_bps, bad_debt_units: debt_units };
    }

    // Seizure includes the (capped) bonus, rounded toward zero.
    let seize_value = sat_mul(repay_value, gross) / BPS_DENOMINATOR;
    let seize_units = max128(min128(value_to_units(seize_value, price_coll), coll_units), 0);

    // The position is drained when the seized value covers all collateral
    // value; the remaining debt is then bad debt.
    let drained = coll_value > 0 && seize_value >= coll_value;
    let remaining_debt = debt_units - repay_units;
    let bad_debt_units = if drained {
        remaining_debt
    } else {
        0
    };

    LiquidationPlan { repay_units, seize_units, bonus_bps, bad_debt_units }
}

/// The effective bonus always lies between `min(base, cap)` and
/// `min(max, cap)`: the penalty cap binds over any configured maximum.
pub proof fn bonus_bounds(num: int, den: int, base_bonus_bps: u32, max_bonus_bps: u32, penalty_cap_bps: u32)
    requires
        base_bonus_bps <= max_bonus_bps,
    ensures
        bonus_spec(num, den, base_bonus_bps, max_bonus_bps, penalty_cap_bps) <= penalty_cap_bps,
        bonus_spec(num, den, base_bonus_bps, max_bonus_bps, penalty_cap_bps) <= max_bonus_bps,
        bonus_spec(num, den, base_bonus_bps, max_bonus_bps, penalty_cap_bps) >= min_int(
            base_bonus_bps as int,
            penalty_cap_bps as int,
        ),
        !liquidatable(num, den) ==> bonus_spec(num, den, base_bonus_bps, max_bonus_bps, penalty_cap_bps)
            == min_int(base_bonus_bps as int, penalty_cap_bps as int),
{
}

/// Floor division is monotone in the fraction: `a1/d1 <= a2/d2` implies
/// `k*a1 / d1 <= k*a2 / d2` (rounded down) for non-negative `k`.
proof fn scaled_floor_monotone(k: int, a1: int, d1: int, a2: int, d2: int)
    requires
        k >= 0,
        a1 >= 0,
        a2 >= 0,
        d1 > 0,
        d2 > 0,
        a1 * d2 <= a2 * d1,
    ensures
        (k * a1) / d1 <= (k * a2) / d2,
{
    let q1 = (k * a1) / d1;
    assert(q1 * d1 <= k * a1) by (nonlinear_arith)
        requires
            q1 == (k * a1) / d1,
            d1 > 0,
    ;
    assert(q1 * d1 * d2 <= k * a2 * d1) by (nonlinear_arith)
        requires
            q1 * d1 <= k * a1,
            a1 * d2 <= a2 * d1,
            k >= 0,
            d2 > 0,
    ;
    assert(q1 * d2 <= k * a2) by (nonlinear_arith)
        requires
            q1 * d1 * d2 <= k * a2 * d1,
            d1 > 0,
    ;
    assert(q1 <= (k * a2) / d2) by (nonlinear_arith)
        requires
            q1 * d2 <= k * a2,
            d2 > 0,
    ;
}

/// The liquidator bonus never shrinks as health deteriorates: for two
/// health factors `num1/den1 >= num2/den2` (with non-negative collateral
/// values and every intermediate product inside `i128`), the bonus paid at
/// the lower health factor is at least the bonus paid at the higher one.
pub proof fn bonus_monotone_in_health(
    num1: int,
    den1: int,
    num2: int,
    den2: int,
    base_bonus_bps: u32,
    max_bonus_bps: u32,
    penalty_cap_bps: u32,
)
    requires
        base_bonus_bps <= max_bonus_bps,
        0 <= num1 <= i128::MAX,
        0 <= num2 <= i128::MAX,
        0 < den1,
        0 < den2,
        2 * bonus_span(base_bonus_bps, max_bonus_bps) * den1 <= i128::MAX,
        2 * bonus_span(base_bonus_bps, max_bonus_bps) * den2 <= i128::MAX,
        2 * den1 <= i128::MAX,
        2 * den2 <= i128::MAX,
        num2 * den1 <= num1 * den2,
    ensures
        bonus_spec(num1, den1, base_bonus_bps, max_bonus_bps, penalty_cap_bps) <= bonus_spec(
            num2,
            den2,
            base_bonus_bps,
            max_bonus_bps,
            penalty_cap_bps,
        ),
{
    let span = bonus_span(base_bonus_bps, max_bonus_bps);
    let b1 = interpolated_bonus(num1, den1, base_bonus_bps, max_bonus_bps);
    let b2 = interpolated_bonus(num2, den2, base_bonus_bps, max_bonus_bps);
    if num2 >= den2 {
        // Then num1 >= den1 as well: both positions are healthy.
        assert(num1 >= den1) by (nonlinear_arith)
            requires
                num2 >= den2,
                num2 * den1 <= num1 * den2,
                den1 > 0,
                den2 > 0,
        ;
    } else if span == 0 {
    } else {
        assert(num2 < den2);
        let a2 = den2 - num2;
        assert(clamp128((den2 - num2) * 2) == 2 * a2);
        assert(span * (2 * a2) <= 2 * span * den2 && span * (2 * a2) >= 0) by (nonlinear_arith)
            requires
                span >= 0,
                0 < a2 <= den2,
        ;
        assert(clamp128(span * (2 * a2)) == span * (2 * a2));
        assert(b2 == base_bonus_bps + (span * (2 * a2)) / den2);
        if num1 >= den1 {
            assert(b1 == base_bonus_bps);
            assert((span * (2 * a2)) / den2 >= 0) by (nonlinear_arith)
                requires
                    span >= 0,
                    a2 > 0,
                    den2 > 0,
            ;
        } else {
            let a1 = den1 - num1;
            assert(clamp128((den1 - num1) * 2) == 2 * a1);
            assert(span * (2 * a1) <= 2 * span * den1 && span * (2 * a1) >= 0) by (nonlinear_arith)
                requires
                    span >= 0,
                    0 < a1 <= den1,
            ;
            assert(clamp128(span * (2 * a1)) == span * (2 * a1));
            assert(b1 == base_bonus_bps + (span * (2 * a1)) / den1);
            assert(a1 * den2 <= a2 * den1) by (nonlinear_arith)
                requires
                    a1 == den1 - num1,
                    a2 == den2 - num2,
                    num2 * den1 <= num1 * den2,
            ;
            scaled_floor_monotone(2 * span, a1, den1, a2, den2);
            assert((2 * span) * a1 == span * (2 * a1)) by (nonlinear_arith);
            assert((2 * span) * a2 == span * (2 * a2)) by (nonlinear_arith);
        }
    }
}

/// Floor division facts for non-negative numerators.
proof fn floor_div(a: int, b: int)
    requires
        a >= 0,
        b > 0,
    ensures
        (a / b) * b <= a < (a / b) * b + b,
        a / b >= 0,
{
    assert((a / b) * b <= a < (a / b) * b + b) by (nonlinear_arith)
        requires
            a >= 0,
            b > 0,
    ;
    assert(a / b >= 0) by (nonlinear_arith)
        requires
            a >= 0,
            b > 0,
    ;
}

/// Value of non-negative holdings in the realistic range, without saturation.
proof fn value_small(units: int, price: int)
    requires
        0 <= units <= 1_000_000_000_000_000_000_000_000,
        1 <= price <= 1_000_000_000_000,
    ensures
        value_of(units, price) == (units * price) / 100_000_000,
        0 <= value_of(units, price) <= 10_000_000_000_000_000_000_000_000_000,
        units <= 4_000_000_000_000 && price <= 400_000_000 ==> value_of(units, price) <= 16_000_000_000_000,
        value_of(units, price) * 100_000_000 <= units * price,
        units * price < (value_of(units, price) + 1) * 100_000_000,
{
    assert(0 <= units * price <= 1_000_000_000_000_000_000_000_000 * 1_000_000_000_000) by (nonlinear_arith)
        requires
            0 <= units <= 1_000_000_000_000_000_000_000_000,
            1 <= price <= 1_000_000_000_000,
    ;
    if units <= 4_000_000_000_000 && price <= 400_000_000 {
        assert(units * price <= 4_000_000_000_000 * 400_000_000) by (nonlinear_arith)
            requires
                0 <= units <= 4_000_000_000_000,
                1 <= price <= 400_000_000,
        ;
    }
    floor_div(units * price, 100_000_000 as int);
}

/// Converting units to value and back never yields more units than were
/// converted, and converting value to units and back never yields more
/// value: both conversions round toward zero, for non-negative amounts and
/// positive prices where nothing saturates.
pub proof fn conversions_round_down(units: int, value: int, price: int)
    requires
        units >= 0,
        value >= 0,
        price > 0,
        units * price <= i128::MAX,
        value * PRICE_SCALE <= i128::MAX,
    ensures
        0 <= units_of(value_of(units, price), price) <= units,
        0 <= value_of(units_of(value, price), price) <= value,
{
    let p = price;
    assert(units * p >= 0 && value * 100_000_000 >= 0) by (nonlinear_arith)
        requires
            units >= 0,
            value >= 0,
            p > 0,
    ;
    floor_div(units * p, 100_000_000);
    let v = (units * p) / 100_000_000;
    assert(value_of(units, p) == v);
    assert(v * 100_000_000 <= units * p);
    assert(v * 100_000_000 <= i128::MAX);
    floor_div(v * 100_000_000, p);
    assert(units_of(v, p) == (v * 100_000_000) / p);
    assert((v * 100_000_000) / p <= units) by (nonlinear_arith)
        requires
            ((v * 100_000_000) / p) * p <= v * 100_000_000,
            v * 100_000_000 <= units * p,
            p > 0,
    ;
    floor_div(value * 100_000_000, p);
    let u = (value * 100_000_000) / p;
    assert(units_of(value, p) == u);
    assert(u * p <= value * 100_000_000);
    assert(u * p <= i128::MAX);
    floor_div(u * p, 100_000_000);
    assert((u * p) / 100_000_000 <= value) by (nonlinear_arith)
        requires
            ((u * p) / 100_000_000) * 100_000_000 <= u * p,
            u * p <= value * 100_000_000,
    ;
    assert(value_of(u, p) == (u * p) / 100_000_000);
}

/// Asking to repay at least the whole debt is a full liquidation: the plan
/// for a specified repayment of `amount >= debt_units` equals the plan of
/// full mode.
pub proof fn oversized_repayment_is_full(
    coll_units: i128,
    debt_units: i128,
    price_coll: i128,
    price_debt: i128,
    liq_threshold_bps: u32,
    base_bonus_bps: u32,
    max_bonus_bps: u32,
    penalty_cap_bps: u32,
    amount: i128,
)
    requires
        0 <= debt_units <= amount,
    ensures
        plan_spec(
            coll_units,
            debt_units,
            price_coll,
            price_debt,
            liq_threshold_bps,
            base_bonus_bps,
            max_bonus_bps,
            penalty_cap_bps,
            RepayMode::Specified(amount),
        ) == plan_spec(
            coll_units,
            debt_units,
            price_coll,
            price_debt,
            liq_threshold_bps,
            base_bonus_bps,
            max_bonus_bps,
            penalty_cap_bps,
            RepayMode::Full,
        ),
{
    let pd = price_debt as int;
    if pd > 0 {
        let a = amount as int;
        let d = debt_units as int;
        assert(d * pd <= a * pd && 0 <= d * pd) by (nonlinear_arith)
            requires
                0 <= d <= a,
                pd > 0,
        ;
        let x = clamp128(d * pd);
        let y = clamp128(a * pd);
        assert(0 <= x <= y);
        assert(x / 100_000_000 <= y / 100_000_000) by (nonlinear_arith)
            requires
                0 <= x <= y,
        ;
        assert(value_of(d, pd) <= value_of(a, pd));
    }
}

/// Partial liquidation restores health: in partial-to-target mode, a
/// liquidation that repays something and writes nothing off leaves the
/// position at a health factor of at least 1.1, up to integer-rounding
/// slack of `1_000_000` in the numerator (`num * 10 + 1_000_000 >= den *
/// 11`), over the input ranges of realistic markets (up to `4e12` units,
/// prices up to 4 USD at 8 decimals, thresholds up to 95%, bonuses up to 25%).
pub proof fn partial_liquidation_restores_target(
    coll_units: i128,
    debt_units: i128,
    price_coll: i128,
    price_debt: i128,
    liq_threshold_bps: u32,
    base_bonus_bps: u32,
    max_bonus_bps: u32,
    penalty_cap_bps: u32,
)
    requires
        0 <= coll_units <= 4_000_000_000_000,
        0 <= debt_units <= 4_000_000_000_000,
        1 <= price_coll <= 400_000_000,
        1 <= price_debt <= 400_000_000,
        liq_threshold_bps <= 9_500,
        base_bonus_bps <= max_bonus_bps <= 2_500,
    ensures
        ({
            let plan = plan_spec(
                coll_units,
                debt_units,
                price_coll,
                price_debt,
                liq_threshold_bps,
                base_bonus_bps,
                max_bonus_bps,
                penalty_cap_bps,
                RepayMode::PartialToTarget,
            );
            plan.repay_units > 0 && plan.bad_debt_units == 0 ==> {
                let post_num = clamp128(value_of(coll_units - plan.seize_units, price_coll as int) * liq_threshold_bps);
                let post_den = clamp128(value_of(debt_units - plan.repay_units, price_debt as int) * BPS_DENOMINATOR);
                post_num * 10 + 1_000_000 >= post_den * 11
            }
        }),
{
    let plan = plan_spec(
        coll_units,
        debt_units,
        price_coll,
        price_debt,
        liq_threshold_bps,
        base_bonus_bps,
        max_bonus_bps,
        penalty_cap_bps,
        RepayMode::PartialToTarget,
    );
    if plan.repay_units > 0 && plan.bad_debt_units == 0 {
        let cu = coll_units as int;
        let du = debt_units as int;
        let pc = price_coll as int;
        let pd = price_debt as int;
        let t = liq_threshold_bps as int;
        value_small(cu, pc);
        value_small(du, pd);
        let c = value_of(cu, pc);
        let d = value_of(du, pd);
        assert(0 <= c * t <= 16_000_000_000_000 * 9_500) by (nonlinear_arith)
            requires
                0 <= c <= 16_000_000_000_000,
                0 <= t <= 9_500,
        ;
        let num = clamp128(c * t);
        let den = clamp128(d * BPS_DENOMINATOR);
        assert(num == c * t);
        assert(den == d * 10_000);
        assert(liquidatable(num, den));
        bonus_bounds(num, den, base_bonus_bps, max_bonus_bps, penalty_cap_bps);
        let bonus = bonus_spec(num, den, base_bonus_bps, max_bonus_bps, penalty_cap_bps);
        assert(bonus == plan.bonus_bps);
        assert(0 <= bonus <= 2_500);
        let g = gross_of(bonus);
        let denom = target_denom(t, g);
        assert(0 <= g * t <= 12_500 * 9_500) by (nonlinear_arith)
            requires
                10_000 <= g <= 12_500,
                0 <= t <= 9_500,
        ;
        assert(10 * g * t == 10 * (g * t)) by (nonlinear_arith);
        assert(denom == 1_100_000_000 - 10 * (g * t));
        let target = target_value(RepayMode::PartialToTarget, c, d, t, g, pd);
        let rv0 = max_int(min_int(target, d), 0);
        let aff = affordable_value(c, g);
        assert(0 <= c * 10_000 <= 16_000_000_000_000 * 10_000);
        floor_div(c * 10_000 + (g - 1), g);
        assert(aff == (c * 10_000 + (g - 1)) / g);
        let rv = max_int(min_int(rv0, aff), 0);
        assert(0 <= rv <= d);
        assert(0 <= rv * 100_000_000 <= 16_000_000_000_000 * 100_000_000) by (nonlinear_arith)
            requires
                0 <= rv <= 16_000_000_000_000,
        ;
        floor_div(rv * 100_000_000, pd);
        let ru = max_int(min_int(units_of(rv, pd), du), 0);
        assert(units_of(rv, pd) == (rv * 100_000_000) / pd);
        assert(ru == plan.repay_units);
        assert(0 <= rv * g <= 16_000_000_000_000 * 12_500) by (nonlinear_arith)
            requires
                0 <= rv <= 16_000_000_000_000,
                10_000 <= g <= 12_500,
        ;
        floor_div(rv * g, 10_000);
        let sv = tdiv(clamp128(rv * g), BPS_DENOMINATOR as int);
        assert(sv == (rv * g) / 10_000);
        assert(sv * 10_000 <= rv * g);
        assert(0 <= sv <= 20_000_000_000_000);
        assert(0 <= sv * 100_000_000 <= 20_000_000_000_000 * 100_000_000) by (nonlinear_arith)
            requires
                0 <= sv <= 20_000_000_000_000,
        ;
        floor_div(sv * 100_000_000, pc);
        let su = max_int(min_int(units_of(sv, pc), cu), 0);
        assert(su == plan.seize_units);
        let drained = c > 0 && sv >= c;
        // Post-liquidation collateral value: at least C - sv.
        assert(su * pc <= sv * 100_000_000) by (nonlinear_arith)
            requires
                0 <= su <= (sv * 100_000_000) / pc,
                pc > 0,
                ((sv * 100_000_000) / pc) * pc <= sv * 100_000_000,
        ;
        value_small(cu - su, pc);
        let c2 = value_of(cu - su, pc);
        assert((cu - su) * pc == cu * pc - su * pc) by (nonlinear_arith);
        assert(c2 >= c - sv) by (nonlinear_arith)
            requires
                c2 * 100_000_000 <= (cu - su) * pc < (c2 + 1) * 100_000_000,
                c * 100_000_000 <= cu * pc,
                (cu - su) * pc == cu * pc - su * pc,
                su * pc <= sv * 100_000_000,
        ;
        value_small(du - ru, pd);
        let d2 = value_of(du - ru, pd);
        // Post-liquidation debt value: at most D - rv + 4.
        if ru < du {
            assert(ru == (rv * 100_000_000) / pd);
            assert((du - ru) * pd == du * pd - ru * pd) by (nonlinear_arith);
            assert(ru * pd > rv * 100_000_000 - pd) by (nonlinear_arith)
                requires
                    ru == (rv * 100_000_000) / pd,
                    rv * 100_000_000 < ru * pd + pd,
            ;
            assert(d2 <= d - rv + 4) by (nonlinear_arith)
                requires
                    d2 * 100_000_000 <= (du - ru) * pd,
                    (du - ru) * pd == du * pd - ru * pd,
                    du * pd < (d + 1) * 100_000_000,
                    ru * pd > rv * 100_000_000 - pd,
                    pd <= 400_000_000,
            ;
        } else {
            assert(du - ru == 0);
            assert(d2 == 0);
        }
        assert(0 <= c2 * t <= 16_000_000_000_000 * 9_500) by (nonlinear_arith)
            requires
                0 <= c2 <= 16_000_000_000_000,
                0 <= t <= 9_500,
        ;
        if ru < du {
            assert(!drained);
            // The repayment was not cut down by the affordability cap.
            if rv0 > aff {
                assert(rv == aff);
                assert(aff * g + g > c * 10_000 + (g - 1));
                assert(aff * g >= c * 10_000);
                assert(rv > 0);
                assert(c > 0) by {
                    if c == 0 {
                        assert((g - 1) / g == 0) by (nonlinear_arith)
                            requires
                                g >= 1,
                        ;
                    }
                }
                assert(sv >= c) by (nonlinear_arith)
                    requires
                        sv * 10_000 > rv * g - 10_000,
                        rv * g >= c * 10_000,
                ;
                assert(false);
            }
            assert(rv == rv0);
            let inner_i = 110_000 * d - 10 * (t * c);
            assert(0 <= t * c <= 9_500 * 16_000_000_000_000) by (nonlinear_arith)
                requires
                    0 <= c <= 16_000_000_000_000,
                    0 <= t <= 9_500,
            ;
            assert(c * t == t * c) by (nonlinear_arith);
            // rv * denom >= 10_000 * inner - 1_100_000_000 (or better).
            if denom > 0 {
                let inner = clamp128(clamp128(TARGET_HF_NUM * BPS_DENOMINATOR * d) - clamp128(TARGET_HF_DEN * t * c));
                assert(TARGET_HF_DEN * t * c == 10 * (t * c)) by (nonlinear_arith);
                assert(inner == inner_i);
                assert(inner_i > 0);
                assert(0 < 10_000 * inner_i <= 10_000 * 110_000 * 16_000_000_000_000);
                floor_div(10_000 * inner_i, denom);
                assert(target == (10_000 * inner_i) / denom);
                if target < d {
                    assert(rv == target);
                    assert(rv * denom > 10_000 * inner_i - denom) by (nonlinear_arith)
                        requires
                            rv == (10_000 * inner_i) / denom,
                            10_000 * inner_i < rv * denom + denom,
                    ;
                    assert(10 * t * sv * 10_000 <= 10 * t * rv * g) by (nonlinear_arith)
                        requires
                            sv * 10_000 <= rv * g,
                            t >= 0,
                    ;
                    assert(c2 * t * 10 + 1_000_000 >= d2 * 10_000 * 11) by (nonlinear_arith)
                        requires
                            c2 >= c - sv,
                            d2 <= d - rv + 4,
                            t >= 0,
                            10 * t * sv * 10_000 <= 10 * t * rv * g,
                            rv * denom >= 10_000 * inner_i - 1_100_000_000,
                            denom == 1_100_000_000 - 10 * (g * t),
                            inner_i == 110_000 * d - 10 * (t * c),
                    ;
                } else {
                    assert(rv == d);
                    assert(d2 <= 4);
                    assert(c2 * t >= 0);
                }
            } else {
                assert(rv == d);
                assert(d2 <= 4);
                assert(c2 * t >= 0);
            }
        } else {
            assert(d2 == 0);
        }
    }
}

/// Common facts of a plan that repays something, over realistic inputs:
/// the repayment value `rv` behind the plan, its relation to the repaid
/// and seized units, and the drained flag.
proof fn repaying_plan_facts(
    coll_units: i128,
    debt_units: i128,
    price_coll: i128,
    price_debt: i128,
    liq_threshold_bps: u32,
    base_bonus_bps: u32,
    max_bonus_bps: u32,
    penalty_cap_bps: u32,
    mode: RepayMode,
) -> (rv: int)
    requires
        0 <= coll_units <= 1_000_000_000_000_000_000_000_000,
        0 <= debt_units <= 1_000_000_000_000_000_000_000_000,
        1 <= price_coll <= 1_000_000_000_000,
        1 <= price_debt <= 1_000_000_000_000,
        liq_threshold_bps <= 9_500,
        base_bonus_bps <= max_bonus_bps <= 2_500,
        plan_spec(
            coll_units,
            debt_units,
            price_coll,
            price_debt,
            liq_threshold_bps,
            base_bonus_bps,
            max_bonus_bps,
            penalty_cap_bps,
            mode,
        ).repay_units > 0,
    ensures
        ({
            let plan = plan_spec(
                coll_units,
                debt_units,
                price_coll,
                price_debt,
                liq_threshold_bps,
                base_bonus_bps,
                max_bonus_bps,
                penalty_cap_bps,
                mode,
            );
            let c = value_of(coll_units as int, price_coll as int);
            let g = gross_of(plan.bonus_bps as int);
            let sv = (rv * g) / 10_000;
            &&& 0 < rv
            &&& rv * 100_000_000 < (plan.repay_units + 1) * price_debt
            &&& plan.seize_units * price_coll <= sv * 100_000_000
            &&& sv * 10_000 <= rv * g
            &&& plan.bonus_bps <= penalty_cap_bps
            &&& 10_000 <= g <= 12_500
            &&& plan.seize_units == coll_units ==> (c > 0 && sv >= c)
            &&& (c > 0 && sv >= c) ==> plan.bad_debt_units == debt_units - plan.repay_units
        }),
{
    let plan = plan_spec(
        coll_units,
        debt_units,
        price_coll,
        price_debt,
        liq_threshold_bps,
        base_bonus_bps,
        max_bonus_bps,
        penalty_cap_bps,
        mode,
    );
    let cu = coll_units as int;
    let du = debt_units as int;
    let pc = price_coll as int;
    let pd = price_debt as int;
    let t = liq_threshold_bps as int;
    value_small(cu, pc);
    value_small(du, pd);
    let c = value_of(cu, pc);
    let d = value_of(du, pd);
    assert(0 <= c * t <= 10_000_000_000_000_000_000_000_000_000 * 9_500) by (nonlinear_arith)
        requires
            0 <= c <= 10_000_000_000_000_000_000_000_000_000,
            0 <= t <= 9_500,
    ;
    let num = clamp128(c * t);
    let den = clamp128(d * BPS_DENOMINATOR);
    bonus_bounds(num, den, base_bonus_bps, max_bonus_bps, penalty_cap_bps);
    let bonus = bonus_spec(num, den, base_bonus_bps, max_bonus_bps, penalty_cap_bps);
    assert(num == c * t);
    assert(den == d * 10_000);
    assert(liquidatable(num, den));
    assert(0 <= bonus <= 2_500);
    assert(plan.bonus_bps == bonus);
    let g = gross_of(bonus);
    let target = target_value(mode, c, d, t, g, pd);
    let rv0 = max_int(min_int(target, d), 0);
    let aff = affordable_value(c, g);
    assert(0 <= c * 10_000 <= 10_000_000_000_000_000_000_000_000_000 * 10_000);
    floor_div(c * 10_000 + (g - 1), g);
    let rv = max_int(min_int(rv0, aff), 0);
    assert(0 <= rv * 100_000_000 <= 10_000_000_000_000_000_000_000_000_000 * 100_000_000) by (nonlinear_arith)
        requires
            0 <= rv <= 10_000_000_000_000_000_000_000_000_000,
    ;
    floor_div(rv * 100_000_000, pd);
    assert(units_of(rv, pd) == (rv * 100_000_000) / pd);
    // The debt cap never binds below the unit conversion of rv <= D.
    assert((rv * 100_000_000) / pd <= du) by (nonlinear_arith)
        requires
            rv <= d,
            d * 100_000_000 <= du * pd,
            pd > 0,
            ((rv * 100_000_000) / pd) * pd <= rv * 100_000_000,
    ;
    let ru = (rv * 100_000_000) / pd;
    assert(plan.repay_units == ru);
    assert(0 <= rv * g <= 10_000_000_000_000_000_000_000_000_000 * 12_500) by (nonlinear_arith)
        requires
            0 <= rv <= 10_000_000_000_000_000_000_000_000_000,
            10_000 <= g <= 12_500,
    ;
    floor_div(rv * g, 10_000);
    let sv = (rv * g) / 10_000;
    assert(tdiv(clamp128(rv * g), BPS_DENOMINATOR as int) == sv);
    assert(0 <= sv <= 12_500_000_000_000_000_000_000_000_000);
    assert(0 <= sv * 100_000_000 <= 12_500_000_000_000_000_000_000_000_000 * 100_000_000) by (nonlinear_arith)
        requires
            0 <= sv <= 12_500_000_000_000_000_000_000_000_000,
    ;
    floor_div(sv * 100_000_000, pc);
    let su = plan.seize_units as int;
    assert(su * pc <= sv * 100_000_000) by (nonlinear_arith)
        requires
            0 <= su <= (sv * 100_000_000) / pc,
            pc > 0,
            ((sv * 100_000_000) / pc) * pc <= sv * 100_000_000,
    ;
    assert(rv > 0);
    if su == cu {
        assert(cu * pc <= sv * 100_000_000);
        assert(sv >= c) by (nonlinear_arith)
            requires
                c * 100_000_000 <= cu * pc,
                cu * pc <= sv * 100_000_000,
        ;
        assert(c > 0) by {
            if c == 0 {
                assert((g - 1) / g == 0) by (nonlinear_arith)
                    requires
                        g >= 1,
                ;
            }
        }
    }
    assert(0 < rv);
    assert((ru + 1) * pd == ru * pd + pd) by (nonlinear_arith);
    assert(rv * 100_000_000 < (plan.repay_units + 1) * price_debt);
    assert(plan.seize_units * price_coll <= sv * 100_000_000);
    assert(sv * 10_000 <= rv * g);
    assert(plan.bonus_bps <= penalty_cap_bps);
    assert(10_000 <= g <= 12_500);
    assert(plan.seize_units == coll_units ==> (c > 0 && sv >= c));
    assert((c > 0 && sv >= c) ==> plan.bad_debt_units == debt_units - plan.repay_units);
    rv
}

/// The liquidator's seizure never exceeds the repayment plus the bonus
/// actually applied: `seized_units * price_coll * BPS < (repaid_units + 1)
/// * price_debt * (BPS + bonus_bps)`, i.e. the seized value is at most the
/// repaid value (plus one unit of rounding) grown by the bonus, and so by
/// the penalty cap; for positions of up to `1e24` units and prices up to
/// `1e12`, where no intermediate value saturates.
pub proof fn seizure_within_penalty_cap(
    coll_units: i128,
    debt_units: i128,
    price_coll: i128,
    price_debt: i128,
    liq_threshold_bps: u32,
    base_bonus_bps: u32,
    max_bonus_bps: u32,
    penalty_cap_bps: u32,
    mode: RepayMode,
)
    requires
        0 <= coll_units <= 1_000_000_000_000_000_000_000_000,
        0 <= debt_units <= 1_000_000_000_000_000_000_000_000,
        1 <= price_coll <= 1_000_000_000_000,
        1 <= price_debt <= 1_000_000_000_000,
        liq_threshold_bps <= 9_500,
        base_bonus_bps <= max_bonus_bps <= 2_500,
    ensures
        ({
            let plan = plan_spec(
                coll_units,
                debt_units,
                price_coll,
                price_debt,
                liq_threshold_bps,
                base_bonus_bps,
                max_bonus_bps,
                penalty_cap_bps,
                mode,
            );
            &&& plan.seize_units * price_coll * BPS_DENOMINATOR < (plan.repay_units + 1) * price_debt * (
            BPS_DENOMINATOR + plan.bonus_bps)
            &&& plan.seize_units * price_coll * BPS_DENOMINATOR < (plan.repay_units + 1) * price_debt * (
            BPS_DENOMINATOR + penalty_cap_bps)
        }),
{
    let plan = plan_spec(
        coll_units,
        debt_units,
        price_coll,
        price_debt,
        liq_threshold_bps,
        base_bonus_bps,
        max_bonus_bps,
        penalty_cap_bps,
        mode,
    );
    plan_guarantees(
        coll_units,
        debt_units,
        price_coll,
        price_debt,
        liq_threshold_bps,
        base_bonus_bps,
        max_bonus_bps,
        penalty_cap_bps,
        mode,
    );
    if plan.repay_units > 0 {
        let rv = repaying_plan_facts(
            coll_units,
            debt_units,
            price_coll,
            price_debt,
            liq_threshold_bps,
            base_bonus_bps,
            max_bonus_bps,
            penalty_cap_bps,
            mode,
        );
        let g = gross_of(plan.bonus_bps as int);
        let sv = (rv * g) / 10_000;
        let su = plan.seize_units as int;
        let ru = plan.repay_units as int;
        let pc = price_coll as int;
        let pd = price_debt as int;
        let cap = penalty_cap_bps as int;
        assert(su * pc * 10_000 <= sv * 10_000 * 100_000_000) by (nonlinear_arith)
            requires
                su * pc <= sv * 100_000_000,
        ;
        assert(sv * 10_000 * 100_000_000 <= rv * g * 100_000_000) by (nonlinear_arith)
            requires
                sv * 10_000 <= rv * g,
        ;
        assert(rv * g * 100_000_000 < (ru + 1) * pd * g) by (nonlinear_arith)
            requires
                rv * 100_000_000 < (ru + 1) * pd,
                g > 0,
        ;
        assert((ru + 1) * pd * g <= (ru + 1) * pd * (10_000 + cap)) by (nonlinear_arith)
            requires
                0 < g <= 10_000 + cap,
                ru >= 0,
                pd > 0,
        ;
        assert(su * pc * 10_000 < (ru + 1) * pd * (10_000 + cap));
        assert(su * pc * 10_000 < (ru + 1) * pd * g);
        assert(g == BPS_DENOMINATOR + plan.bonus_bps);
        assert(plan.seize_units * price_coll * BPS_DENOMINATOR == su * pc * 10_000);
        assert((plan.repay_units + 1) * price_debt * (BPS_DENOMINATOR + penalty_cap_bps) == (ru + 1) * pd * (10_000 + cap));
    } else {
        assert(plan.seize_units == 0);
        assert(plan.seize_units * price_coll * BPS_DENOMINATOR == 0) by (nonlinear_arith)
            requires
                plan.seize_units == 0,
        ;
        assert((plan.repay_units + 1) * price_debt * (BPS_DENOMINATOR + plan.bonus_bps) > 0) by (nonlinear_arith)
            requires
                plan.repay_units == 0,
                price_debt >= 1,
        ;
        assert((plan.repay_units + 1) * price_debt * (BPS_DENOMINATOR + penalty_cap_bps) > 0) by (nonlinear_arith)
            requires
                plan.repay_units == 0,
                price_debt >= 1,
        ;
    }
}

/// A liquidation that proceeds and takes all the collateral settles the
/// whole debt: no borrower is left with debt and no collateral.
pub proof fn drained_position_has_no_debt(
    coll_units: i128,
    debt_units: i128,
    price_coll: i128,
    price_debt: i128,
    liq_threshold_bps: u32,
    base_bonus_bps: u32,
    max_bonus_bps: u32,
    penalty_cap_bps: u32,
    mode: RepayMode,
)
    requires
        coll_units >= 0,
        debt_units >= 0,
    ensures
        ({
            let plan = plan_spec(
                coll_units,
                debt_units,
                price_coll,
                price_debt,
                liq_threshold_bps,
                base_bonus_bps,
                max_bonus_bps,
                penalty_cap_bps,
                mode,
            );
            (plan.repay_units > 0 || plan.bad_debt_units > 0) && plan.seize_units == coll_units
                ==> debt_units - plan.repay_units - plan.bad_debt_units == 0
        }),
{
    let plan = plan_spec(
        coll_units,
        debt_units,
        price_coll,
        price_debt,
        liq_threshold_bps,
        base_bonus_bps,
        max_bonus_bps,
        penalty_cap_bps,
        mode,
    );
    let c = value_of(coll_units as int, price_coll as int);
    let d = value_of(debt_units as int, price_debt as int);
    let num = clamp128(c * liq_threshold_bps);
    let den = clamp128(d * BPS_DENOMINATOR);
    let bonus = bonus_spec(num, den, base_bonus_bps, max_bonus_bps, penalty_cap_bps);
    if liquidatable(num, den) && plan.repay_units > 0 {
        let g = gross_of(bonus);
        assert(g >= 10_000);
        let target = target_value(mode, c, d, liq_threshold_bps as int, g, price_debt as int);
        let repay0 = max_int(min_int(target, d), 0);
        let aff = affordable_value(c, g);
        let rv = max_int(min_int(repay0, aff), 0);
        let ru = max_int(min_int(units_of(rv, price_debt as int), debt_units as int), 0);
        assert(ru == plan.repay_units);
        // Something is repaid, so the repayment value and the affordable
        // value are positive, hence so is the collateral value.
        assert(units_of(rv, price_debt as int) > 0);
        assert(price_debt > 0);
        assert(rv > 0) by {
            if rv <= 0 {
                assert(clamp128(rv * PRICE_SCALE) <= 0) by (nonlinear_arith)
                    requires
                        rv <= 0,
                ;
            }
        }
        assert(aff >= 1);
        assert(c >= 1) by {
            if c <= 0 {
                assert(c * BPS_DENOMINATOR <= 0) by (nonlinear_arith)
                    requires
                        c <= 0,
                ;
                assert(clamp128(clamp128(c * BPS_DENOMINATOR) + (g - 1)) < g);
                assert(tdiv(clamp128(clamp128(c * BPS_DENOMINATOR) + (g - 1)), g) < 1) by (nonlinear_arith)
                    requires
                        clamp128(clamp128(c * BPS_DENOMINATOR) + (g - 1)) < g,
                        g > 0,
                ;
            }
        }
        assert(price_coll > 0);
        let sv = tdiv(clamp128(rv * g), BPS_DENOMINATOR as int);
        assert(rv * g > 0) by (nonlinear_arith)
            requires
                rv > 0,
                g > 0,
        ;
        assert(sv >= 0);
        if !(sv >= c) {
            // Not drained: the seized value is below the collateral value,
            // so the seized units fall short of the collateral units.
            let pc = price_coll as int;
            let cu = coll_units as int;
            let cl = clamp128(cu * pc);
            assert(cl <= cu * pc);
            assert(c == cl / 100_000_000) by {
                assert(cl >= 0) by (nonlinear_arith)
                    requires
                        cu >= 0,
                        pc > 0,
                        cl == clamp128(cu * pc),
                ;
            }
            assert(c * 100_000_000 <= cl) by (nonlinear_arith)
                requires
                    c == cl / 100_000_000,
                    cl >= 0,
            ;
            assert(sv * 100_000_000 < cu * pc) by (nonlinear_arith)
                requires
                    sv <= c - 1,
                    c * 100_000_000 <= cu * pc,
            ;
            assert(0 <= sv * 100_000_000 <= i128::MAX) by (nonlinear_arith)
                requires
                    0 <= sv <= c - 1,
                    c * 100_000_000 <= cl,
                    cl <= i128::MAX,
            ;
            let w = sv * 100_000_000;
            assert(clamp128(sv * PRICE_SCALE) == w);
            assert(w / pc < cu) by (nonlinear_arith)
                requires
                    0 <= w < cu * pc,
                    pc > 0,
            ;
            assert(w / pc >= 0) by (nonlinear_arith)
                requires
                    w >= 0,
                    pc > 0,
            ;
            assert(units_of(sv, pc) == w / pc);
            assert(plan.seize_units < coll_units);
        }
    }
}

/// Safety guarantees of every liquidation plan on non-negative positions:
/// the liquidator never seizes more collateral than exists nor repays more
/// than is owed, outputs are never negative, the bonus respects the
/// penalty cap and the configured maximum, healthy positions are left
/// untouched, and written-off debt is exactly the debt that the repayment
/// leaves behind.
pub proof fn plan_guarantees(
    coll_units: i128,
    debt_units: i128,
    price_coll: i128,
    price_debt: i128,
    liq_threshold_bps: u32,
    base_bonus_bps: u32,
    max_bonus_bps: u32,
    penalty_cap_bps: u32,
    mode: RepayMode,
)
    requires
        base_bonus_bps <= max_bonus_bps,
        coll_units >= 0,
        debt_units >= 0,
    ensures
        ({
            let plan = plan_spec(
                coll_units,
                debt_units,
                price_coll,
                price_debt,
                liq_threshold_bps,
                base_bonus_bps,
                max_bonus_bps,
                penalty_cap_bps,
                mode,
            );
            let coll_value = value_of(coll_units as int, price_coll as int);
            let debt_value = value_of(debt_units as int, price_debt as int);
            &&& 0 <= plan.repay_units <= debt_units
            &&& 0 <= plan.seize_units <= coll_units
            &&& 0 <= plan.bad_debt_units <= debt_units
            &&& plan.repay_units + plan.bad_debt_units <= debt_units
            &&& plan.bonus_bps <= penalty_cap_bps
            &&& plan.bonus_bps <= max_bonus_bps
            &&& plan.bonus_bps >= min_int(base_bonus_bps as int, penalty_cap_bps as int)
            &&& !liquidatable(
                clamp128(coll_value * liq_threshold_bps),
                clamp128(debt_value * BPS_DENOMINATOR),
            ) ==> (plan.repay_units == 0 && plan.seize_units == 0 && plan.bad_debt_units == 0)
            &&& plan.bad_debt_units > 0 ==> plan.bad_debt_units == debt_units - plan.repay_units
        }),
{
    let coll_value = value_of(coll_units as int, price_coll as int);
    let debt_value = value_of(debt_units as int, price_debt as int);
    bonus_bounds(
        clamp128(coll_value * liq_threshold_bps),
        clamp128(debt_value * BPS_DENOMINATOR),
        base_bonus_bps,
        max_bonus_bps,
        penalty_cap_bps,
    );
}

// ============================================================
// BAD-DEBT SOCIALIZATION MATH
// ============================================================

/// Proportional loss share of one balance: `balance * loss / total`,
/// rounded toward zero, or zero when there is nothing to share.
pub open spec fn share_of(balance: int, total: int, loss: int) -> int {
    if total <= 0 || loss <= 0 {
        0
    } else {
        tdiv(clamp128(balance * loss), total)
    }
}

/// Proportional loss shares for each depositor balance (rounded toward
/// zero), aligned with the input order. The sum of the shares may fall
/// slightly below `loss`; callers apply the residual afterwards.
pub fn proportional_shares(balances: &Vec<i128>, total: i128, loss: i128) -> (out: Vec<i128>)
    ensures
        out@.len() == balances@.len(),
        forall|i: int| 0 <= i < balances@.len() ==> #[trigger] out@[i] == share_of(balances@[i] as int, total as int, loss as int),
{
    let mut out: Vec<i128> = Vec::new();
    let n = balances.len();
    let mut i: usize = 0;
    while i < n
        invariant
            n == balances@.len(),
            i <= n,
            out@.len() == i,
            forall|j: int| 0 <= j < i ==> #[trigger] out@[j] == share_of(balances@[j] as int, total as int, loss as int),
        decreases n - i,
    {
        if total <= 0 || loss <= 0 {
            out.push(0);
        } else {
            out.push(sat_mul(balances[i], loss) / total);
        }
        i = i + 1;
    }
    out
}

} // verus!
