// Exact-value tests of the pure liquidation math, the oracle validation,
// the TWAP accumulator and the refusals of the loan manager.
use loan_manager::liquidation::{
    compute_plan, dynamic_bonus_bps, health_ratio, is_liquidatable, proportional_shares,
    units_to_value, value_to_units, LiquidationPlan, RepayMode,
};
use loan_manager::model::{LoanError, PriceFeed, Transfer, FULL_REPAY_SENTINEL};
use loan_manager::oracle::{validate_answer, TwapState};
use loan_manager::pool::LoanManagerContract;
use loan_manager::storage::{LiqParams, Position, PriceObservation, PriceSource};

const ONE: i128 = 100_000_000;
const NOW: u64 = 1_700_000_000;

fn fresh(p: i128) -> PriceFeed {
    PriceFeed { primary: Some((p, NOW)), secondary: None }
}

/// Pool with admin 2, market (coll 10, debt 11, 80%), primary oracle 20.
fn configured() -> LoanManagerContract {
    let mut pool = LoanManagerContract::new(1);
    pool.init(2).unwrap();
    pool.set_oracles(2, Some(20), None).unwrap();
    pool.set_market(2, 10, 11, 8_000).unwrap();
    pool
}

#[test]
fn health_ratio_is_exact_fraction() {
    assert_eq!(health_ratio(1_200, 1_000, 8_000), (9_600_000, 10_000_000));
    assert!(is_liquidatable(9_600_000, 10_000_000));
    assert!(!is_liquidatable(10_000_000, 10_000_000));
    assert!(!is_liquidatable(5, 0));
    // Saturates instead of overflowing.
    assert_eq!(health_ratio(i128::MAX, i128::MIN, 2), (i128::MAX, i128::MIN));
}

#[test]
fn dynamic_bonus_interpolates_and_caps() {
    // HF = 0.96 → 500 + 1000 * 0.08 = 580.
    assert_eq!(dynamic_bonus_bps(9_600_000, 10_000_000, 500, 1_500, 2_000), 580);
    // Healthy positions get the base bonus.
    assert_eq!(dynamic_bonus_bps(10, 5, 500, 1_500, 2_000), 500);
    // HF <= 0.5 reaches the maximum.
    assert_eq!(dynamic_bonus_bps(1, 100, 500, 1_500, 2_000), 1_500);
    // The penalty cap binds over the configured maximum.
    assert_eq!(dynamic_bonus_bps(1, 100, 500, 2_500, 2_000), 2_000);
    // A cap below the base wins too.
    assert_eq!(dynamic_bonus_bps(10, 5, 500, 1_500, 300), 300);
}

#[test]
fn unit_value_conversions_round_toward_zero() {
    assert_eq!(units_to_value(2_000, 60_000_000), 1_200);
    assert_eq!(units_to_value(3, 50_000_000), 1);
    assert_eq!(units_to_value(-3, 50_000_000), -1);
    assert_eq!(units_to_value(5, 0), 0);
    assert_eq!(value_to_units(584, 60_000_000), 973);
    assert_eq!(value_to_units(100, -1), 0);
    assert_eq!(units_to_value(i128::MAX, 2), i128::MAX / ONE);
}

#[test]
fn partial_plan_exact_values_and_target() {
    let plan = compute_plan(2_000, 1_000, 60_000_000, ONE, 8_000, 500, 1_500, 2_000, RepayMode::PartialToTarget);
    assert_eq!(plan, LiquidationPlan { repay_units: 552, seize_units: 973, bonus_bps: 580, bad_debt_units: 0 });
    // The post-liquidation health factor reaches 1.1.
    let (n, d) = health_ratio(units_to_value(2_000 - 973, 60_000_000), units_to_value(1_000 - 552, ONE), 8_000);
    assert!(n * 10 + 1_000_000 >= d * 11);
    assert_eq!((n, d), (4_928_000, 4_480_000));
}

#[test]
fn full_plan_drains_and_reports_bad_debt() {
    let plan = compute_plan(2_000, 1_500, 5_000_000, ONE, 8_000, 500, 1_500, 2_000, RepayMode::Full);
    assert_eq!(plan, LiquidationPlan { repay_units: 87, seize_units: 2_000, bonus_bps: 1_500, bad_debt_units: 1_413 });
}

#[test]
fn healthy_plan_is_empty() {
    let plan = compute_plan(2_000, 1_000, ONE, ONE, 8_000, 500, 1_500, 2_000, RepayMode::Full);
    assert_eq!(plan, LiquidationPlan { repay_units: 0, seize_units: 0, bonus_bps: 500, bad_debt_units: 0 });
}

#[test]
fn specified_plan_repays_requested_amount() {
    let plan = compute_plan(2_000, 1_000, 55_000_000, ONE, 8_000, 500, 1_500, 2_000, RepayMode::Specified(100));
    assert_eq!(plan.repay_units, 100);
    assert_eq!(plan.bad_debt_units, 0);
    // Seized value at most repay * (1 + bonus).
    assert!(plan.seize_units * 55_000_000 * 10_000 < 101 * ONE * (10_000 + 2_000));
}

#[test]
fn worthless_collateral_writes_off_all_debt() {
    let plan = compute_plan(3, 1_000, 1, ONE, 8_000, 500, 1_500, 2_000, RepayMode::PartialToTarget);
    assert_eq!(plan, LiquidationPlan { repay_units: 0, seize_units: 0, bonus_bps: 1_500, bad_debt_units: 1_000 });
}

#[test]
fn plan_guarantees_on_sampled_inputs() {
    // Deterministic sampling of the input space of realistic markets.
    let mut x: u64 = 0x9E37_79B9_7F4A_7C15;
    let mut next = |n: u64| {
        x ^= x >> 12;
        x ^= x << 25;
        x ^= x >> 27;
        x.wrapping_mul(0x2545F4914F6CDD1D) % n
    };
    for _ in 0..2_000 {
        let cu = next(4_000_000_000_000) as i128;
        let du = next(4_000_000_000_000) as i128;
        let pc = 1 + next(400_000_000) as i128;
        let pd = 1 + next(400_000_000) as i128;
        let thr = 1_000 + next(8_501) as u32;
        let base = 100 + next(901) as u32;
        let max = (base + next(1_501) as u32).min(2_500);
        let cap = (1_000 + next(1_501) as u32).max(max);
        let mode = match next(3) {
            0 => RepayMode::PartialToTarget,
            1 => RepayMode::Full,
            _ => RepayMode::Specified(next(2_000_000_000_000) as i128),
        };
        let plan = compute_plan(cu, du, pc, pd, thr, base, max, cap, mode);
        assert!(plan.repay_units >= 0 && plan.seize_units >= 0 && plan.bad_debt_units >= 0);
        assert!(plan.seize_units <= cu && plan.repay_units <= du);
        assert!(plan.bonus_bps <= cap && plan.bonus_bps <= max);
        if plan.bad_debt_units > 0 {
            assert_eq!(plan.bad_debt_units, du - plan.repay_units);
        }
        if mode == RepayMode::PartialToTarget && plan.repay_units > 0 && plan.bad_debt_units == 0 {
            let (n, d) = health_ratio(
                units_to_value(cu - plan.seize_units, pc),
                units_to_value(du - plan.repay_units, pd),
                thr,
            );
            assert!(n * 10 + 1_000_000 >= d * 11);
        }
        if (plan.repay_units > 0 || plan.bad_debt_units > 0) && plan.seize_units == cu {
            assert_eq!(du - plan.repay_units - plan.bad_debt_units, 0);
        }
    }
}

#[test]
fn proportional_shares_floor_each_balance() {
    assert_eq!(proportional_shares(&vec![6_000, 4_000], 10_000, 1_413), vec![847, 565]);
    assert_eq!(proportional_shares(&vec![6_000, 4_000], 0, 1_413), vec![0, 0]);
    assert_eq!(proportional_shares(&vec![6_000], 10_000, -1), vec![0]);
}

#[test]
fn oracle_answer_validation_bounds() {
    assert!(validate_answer(1, NOW, NOW));
    assert!(!validate_answer(0, NOW, NOW));
    assert!(!validate_answer(-5, NOW, NOW));
    assert!(validate_answer(1, NOW + 60, NOW));
    assert!(!validate_answer(1, NOW + 61, NOW));
    assert!(validate_answer(1, NOW - 300, NOW));
    assert!(!validate_answer(1, NOW - 301, NOW));
    assert!(validate_answer(1, u64::MAX, u64::MAX - 1));
}

#[test]
fn twap_accumulator_records_and_averages() {
    let mut st = TwapState::empty();
    st.observe(ONE, 1_000);
    assert_eq!((st.last_ts, st.last_price, st.cumulative, st.snapshots.len()), (1_000, ONE, 0, 0));
    st.observe(2 * ONE, 1_060);
    assert_eq!(st.cumulative, 60 * ONE);
    assert_eq!(st.snapshots, vec![PriceObservation { ts: 1_060, cum: 60 * ONE }]);
    // Within the snapshot cadence: accumulate, no snapshot.
    st.observe(2 * ONE, 1_090);
    assert_eq!(st.cumulative, 120 * ONE);
    assert_eq!(st.snapshots.len(), 1);
    st.observe(2 * ONE, 1_120);
    assert_eq!(st.snapshots.len(), 2);
    // Span below the minimum → refused; later it averages 2.0.
    assert_eq!(st.twap_at(1_200), None);
    assert_eq!(st.twap_at(1_460), Some(2 * ONE));
}

#[test]
fn twap_ring_buffer_stays_bounded() {
    let mut st = TwapState::empty();
    st.observe(ONE, 0);
    for i in 1..100u64 {
        st.observe(ONE, i * 60);
    }
    assert_eq!(st.snapshots.len(), 34);
    assert_eq!(st.snapshots[0].ts, 66 * 60);
    assert_eq!(st.snapshots[33].ts, 99 * 60);
}

#[test]
fn socialization_splits_loss_pro_rata_then_residual() {
    let mut pool = configured();
    pool.deposit(5, 6_000).unwrap();
    pool.deposit(6, 4_000).unwrap();
    pool.deposit_collateral(3, 2_000).unwrap();
    pool.borrow(3, 1_500, NOW, fresh(ONE), fresh(ONE)).unwrap();
    let l = pool.liquidate(4, 3, FULL_REPAY_SENTINEL, NOW, fresh(5_000_000), fresh(ONE)).unwrap();
    assert_eq!(l.result.bad_debt_socialized, 1_413);
    // Shares 847 and 565, the rounding unit taken from the first depositor.
    assert_eq!(pool.get_depositor_balance(5), 6_000 - 848);
    assert_eq!(pool.get_depositor_balance(6), 4_000 - 565);
    assert_eq!(pool.get_pool_info().0, 10_000 - 1_413);
    assert_eq!(l.repay_transfer, Some(Transfer { token: 11, from: 4, to: 1, amount: 87 }));
    assert_eq!(l.seize_transfer, Some(Transfer { token: 10, from: 1, to: 4, amount: 2_000 }));
    assert_eq!(pool.get_position(3), Position { collateral: 0, debt: 0 });
}

#[test]
fn worthless_collateral_charges_whole_debt_to_depositors() {
    let mut pool = configured();
    pool.deposit(5, 1_000).unwrap();
    pool.deposit_collateral(3, 2_000).unwrap();
    pool.borrow(3, 1_000, NOW, fresh(ONE), fresh(ONE)).unwrap();
    // Collateral worth nothing: nothing is repaid and the whole debt is
    // written off against the single depositor.
    let l = pool.liquidate(4, 3, FULL_REPAY_SENTINEL, NOW, fresh(1), fresh(ONE)).unwrap();
    assert_eq!(l.result.repay_units, 0);
    assert_eq!(l.result.bad_debt_socialized, 1_000);
    assert_eq!(pool.get_depositor_balance(5), 0);
    assert_eq!(pool.get_pool_info(), (0, 0, 0));
}

#[test]
fn deposit_then_withdraw_restores_balance() {
    let mut pool = configured();
    pool.deposit(5, 700).unwrap();
    let before = (pool.get_depositor_balance(5), pool.get_pool_info());
    pool.deposit(5, 300).unwrap();
    pool.withdraw(5, 300).unwrap();
    assert_eq!((pool.get_depositor_balance(5), pool.get_pool_info()), before);
    assert_eq!(pool.get_depositors(), vec![5]);
}

#[test]
fn refusals_name_their_reason() {
    let mut pool = LoanManagerContract::new(1);
    assert_eq!(pool.set_oracles(2, None, None), Err(LoanError::AdminNotSet));
    assert_eq!(pool.deposit(5, 10), Err(LoanError::MarketNotInitialized));
    assert_eq!(pool.get_market_config(), Err(LoanError::MarketNotInitialized));
    pool.init(2).unwrap();
    assert_eq!(pool.init(2), Err(LoanError::AlreadyInitialized));
    assert_eq!(pool.pause(9), Err(LoanError::Unauthorized));
    assert_eq!(pool.set_market(2, 10, 11, 0), Err(LoanError::InvalidLiquidationThreshold));
    assert_eq!(pool.set_market(2, 10, 11, 9_501), Err(LoanError::InvalidLiquidationThreshold));
    assert_eq!(pool.set_market(2, 10, 10, 8_000), Err(LoanError::SameTokens));
    assert_eq!(pool.set_liq_params(2, 500, 2_501, 2_000), Err(LoanError::BonusParamsTooHigh));
    assert_eq!(pool.set_liq_params(2, 900, 800, 2_000), Err(LoanError::BaseBonusExceedsMax));
    pool.set_liq_params(2, 400, 900, 1_000).unwrap();
    assert_eq!(pool.get_liquidation_params(), LiqParams { base_bonus_bps: 400, max_bonus_bps: 900, penalty_cap_bps: 1_000 });
    pool.set_market(2, 10, 11, 8_000).unwrap();
    pool.set_oracles(2, Some(20), None).unwrap();
    assert_eq!(pool.repay(3, 10), Err(LoanError::NothingToRepay));
    assert_eq!(pool.withdraw_collateral(3, 1, NOW, fresh(ONE), fresh(ONE)), Err(LoanError::InsufficientCollateral));
    pool.deposit(5, i128::MAX - 5).unwrap();
    assert_eq!(pool.deposit(6, 10), Err(LoanError::ArithmeticOverflow));
    pool.deposit_collateral(3, 100).unwrap();
    // An absurd oracle price fails the sanity check.
    assert_eq!(
        pool.borrow(3, 1, NOW, fresh(200_000_000_000_000_000), fresh(ONE)),
        Err(LoanError::InvalidPrice)
    );
    assert_eq!(pool.liquidate(4, 3, -1, NOW, fresh(ONE), fresh(ONE)), Err(LoanError::NotLiquidatable));
    pool.borrow(3, 10, NOW, fresh(ONE), fresh(ONE)).unwrap();
    assert_eq!(pool.liquidate(4, 3, -1, NOW, fresh(1_000_000), fresh(ONE)), Err(LoanError::InvalidAmount));
    assert_eq!(
        pool.withdraw_collateral(3, 95, NOW, fresh(ONE), fresh(ONE)),
        Err(LoanError::WithdrawalUndercollateralizes)
    );
    assert_eq!(LoanError::Paused.message(), "contract is paused");
    assert_eq!(LoanError::NoValidPriceSource.message(), "no valid price source");
}

#[test]
fn refused_request_leaves_state_unchanged() {
    let mut pool = configured();
    pool.deposit(5, 1_000).unwrap();
    let info = pool.get_pool_info();
    assert_eq!(pool.withdraw(5, 2_000), Err(LoanError::InsufficientDepositorBalance));
    assert_eq!(pool.get_pool_info(), info);
    assert_eq!(pool.get_depositor_balance(5), 1_000);
    // A failed borrow records no price observation.
    pool.deposit_collateral(3, 10).unwrap();
    assert_eq!(pool.borrow(3, 500, NOW, fresh(ONE), fresh(ONE)), Err(LoanError::InsufficientCollateral));
    assert!(pool.get_twap(10).is_empty());
    assert_eq!(pool.twap_now(10, NOW), Err(LoanError::NoValidPriceSource));
}

#[test]
fn resolution_falls_through_the_chain() {
    let mut pool = configured();
    pool.set_oracles(2, Some(20), Some(21)).unwrap();
    let both = PriceFeed { primary: Some((ONE, NOW)), secondary: Some((2 * ONE, NOW)) };
    let r = pool.preview_price(10, NOW, both).unwrap();
    assert_eq!((r.price, r.source), (ONE, PriceSource::Primary));
    let stale = PriceFeed { primary: Some((ONE, NOW - 301)), secondary: Some((2 * ONE, NOW)) };
    let r = pool.preview_price(10, NOW, stale).unwrap();
    assert_eq!((r.price, r.source), (2 * ONE, PriceSource::Secondary));
    // An answer from an unconfigured oracle is ignored.
    pool.set_oracles(2, None, None).unwrap();
    assert_eq!(pool.preview_price(10, NOW, both), Err(LoanError::NoValidPriceSource));
    assert_eq!(pool.get_oracles(), None);
    assert_eq!(pool.get_pool_info().2, 0);
}

#[test]
fn paused_pool_refuses_every_change() {
    let mut pool = configured();
    pool.deposit(5, 1_000).unwrap();
    pool.pause(2).unwrap();
    assert_eq!(pool.deposit(5, 1), Err(LoanError::Paused));
    assert_eq!(pool.withdraw(5, 1), Err(LoanError::Paused));
    assert_eq!(pool.deposit_collateral(3, 1), Err(LoanError::Paused));
    assert_eq!(pool.borrow(3, 1, NOW, fresh(ONE), fresh(ONE)), Err(LoanError::Paused));
    assert_eq!(pool.repay(3, 1), Err(LoanError::Paused));
    assert_eq!(pool.withdraw_collateral(3, 1, NOW, fresh(ONE), fresh(ONE)), Err(LoanError::Paused));
    assert_eq!(pool.liquidate(4, 3, 0, NOW, fresh(ONE), fresh(ONE)), Err(LoanError::Paused));
    assert_eq!(pool.record_price(10, NOW, fresh(ONE)), Err(LoanError::Paused));
    assert_eq!(pool.get_depositor_balance(5), 1_000);
    assert!(pool.is_paused_view());
    assert_eq!(pool.get_admin(), Some(2));
}

#[test]
fn health_factor_of_debt_free_position_is_maximal() {
    let mut pool = configured();
    assert_eq!(pool.health_factor(3, NOW, fresh(ONE), fresh(ONE)), Ok((i128::MAX, 1)));
    assert_eq!(LoanManagerContract::new(1).health_factor(3, NOW, fresh(ONE), fresh(ONE)), Err(LoanError::MarketNotInitialized));
}

#[test]
fn stored_parts_round_trip_and_are_checked() {
    let mut pool = configured();
    pool.deposit(5, 1_000).unwrap();
    pool.deposit_collateral(3, 500).unwrap();
    pool.borrow(3, 200, NOW, fresh(ONE), fresh(ONE)).unwrap();
    let parts = pool.into_parts();
    assert_eq!(parts.total_deposits, 1_000);
    assert_eq!(parts.total_borrowed, 200);
    assert_eq!(parts.twaps.len(), 2);
    let pool = LoanManagerContract::from_parts(parts).unwrap();
    assert_eq!(pool.get_pool_info(), (1_000, 200, 0));
    assert_eq!(pool.get_position(3), Position { collateral: 500, debt: 200 });

    // Totals that disagree with the entries are refused.
    let mut bad = pool.into_parts();
    bad.total_borrowed = 150;
    assert!(LoanManagerContract::from_parts(bad).is_none());
    // So is a key stored twice.
    let mut dup = LoanManagerContract::new(1).into_parts();
    dup.depositors = vec![(5, 0), (5, 0)];
    assert!(LoanManagerContract::from_parts(dup).is_none());
    // And a negative balance.
    let mut neg = LoanManagerContract::new(1).into_parts();
    neg.depositors = vec![(5, -1)];
    neg.total_deposits = -1;
    assert!(LoanManagerContract::from_parts(neg).is_none());
}

#[test]
fn twap_stays_within_the_recorded_band() {
    // Prices oscillating inside [0.9, 1.3] give a TWAP inside the band.
    let mut st = TwapState::empty();
    let prices = [ONE, 13 * ONE / 10, 9 * ONE / 10, 12 * ONE / 10, ONE];
    for i in 0..40u64 {
        st.observe(prices[(i % 5) as usize], 1_000 + i * 60);
    }
    for now in [1_000 + 39 * 60, 1_000 + 39 * 60 + 500, 1_000 + 39 * 60 + 3_000] {
        let t = st.twap_at(now).unwrap();
        assert!(9 * ONE / 10 <= t && t <= 13 * ONE / 10, "twap {} outside band", t);
    }
    // A constant price is reproduced exactly.
    let mut flat = TwapState::empty();
    for i in 0..10u64 {
        flat.observe(7 * ONE / 4, 5_000 + i * 60);
    }
    assert_eq!(flat.twap_at(5_000 + 9 * 60 + 100), Some(7 * ONE / 4));
}

#[test]
fn liquidation_moves_borrowed_total_by_the_debt_that_left() {
    let mut pool = configured();
    pool.deposit(5, 10_000).unwrap();
    pool.deposit_collateral(3, 2_000).unwrap();
    pool.borrow(3, 1_000, NOW, fresh(ONE), fresh(ONE)).unwrap();
    pool.deposit_collateral(8, 3_000).unwrap();
    pool.borrow(8, 500, NOW, fresh(ONE), fresh(ONE)).unwrap();
    let before = pool.get_position(3).debt;
    let (td, tb, _) = pool.get_pool_info();
    let l = pool.liquidate(4, 3, 0, NOW, fresh(55_000_000), fresh(ONE)).unwrap();
    let after = pool.get_position(3).debt;
    assert_eq!(before - after, l.result.repay_units + l.bad_debt_units);
    assert_eq!(pool.get_pool_info().1, tb - (before - after));
    assert_eq!(l.bad_debt_units, 0);
    assert_eq!(pool.get_pool_info().0, td);
    assert_eq!(pool.get_position(8), Position { collateral: 3_000, debt: 500 });
}

#[test]
fn oversized_specified_repayment_equals_full_mode() {
    let full = compute_plan(2_000, 1_000, 55_000_000, ONE, 8_000, 500, 1_500, 2_000, RepayMode::Full);
    for amount in [1_000i128, 1_001, 5_000_000] {
        let spec = compute_plan(2_000, 1_000, 55_000_000, ONE, 8_000, 500, 1_500, 2_000, RepayMode::Specified(amount));
        assert_eq!(spec, full);
    }
}

#[test]
fn conversions_round_toward_zero_both_ways() {
    for (u, p) in [(3i128, 50_000_000i128), (973, 60_000_000), (7, 33_333_333)] {
        let v = units_to_value(u, p);
        assert!(0 <= value_to_units(v, p) && value_to_units(v, p) <= u);
        let back = units_to_value(value_to_units(u, p), p);
        assert!(0 <= back && back <= u);
    }
}

#[test]
fn seizure_stays_within_the_applied_bonus() {
    let (c, pc, pd) = (2_000i128, 50_000_000i128, ONE);
    let plan = compute_plan(c, 1_000, pc, pd, 8_000, 500, 1_500, 2_000, RepayMode::PartialToTarget);
    assert!(plan.repay_units > 0);
    assert!(plan.seize_units * pc * 10_000 < (plan.repay_units + 1) * pd * (10_000 + plan.bonus_bps as i128));
}
