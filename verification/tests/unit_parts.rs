use savings_account::math::{
    compute_borrow_amount, compute_borrow_rate, compute_capital_utilisation, compute_debt,
    compute_reward_amount, compute_staking_position_value,
};
use savings_account::model::{EsdtTokenPayment, SaError};
use savings_account::staking_positions_mapper::StakingPositionsMapper;
use savings_account::SavingsAccount;

const DECIMALS: u128 = 1_000_000_000_000_000_000;

fn plain_pool() -> SavingsAccount {
    SavingsAccount::init(
        1,
        2,
        3,
        77,
        100,
        101,
        102,
        750_000_000,
        5_000_000,
        500_000_000,
        100_000_000,
        100_000_000,
        750_000_000,
        4,
        5,
        10,
    )
}

#[test]
fn borrow_rate_under_optimal_test() {
    // 50% base + (50% / 75%) * 10% = 56.66%
    let rate = compute_borrow_rate(
        500_000_000,
        100_000_000,
        100_000_000,
        750_000_000,
        500_000_000,
    );
    assert_eq!(rate, 566_666_666);
}

#[test]
fn borrow_rate_over_optimal_test() {
    // 50% + 10% + ((90% - 75%) / (100% - 75%)) * 10% = 66%
    let rate = compute_borrow_rate(
        500_000_000,
        100_000_000,
        100_000_000,
        750_000_000,
        900_000_000,
    );
    assert_eq!(rate, 660_000_000);
}

#[test]
fn capital_utilisation_test() {
    assert_eq!(compute_capital_utilisation(75_000, 150_000).unwrap(), 500_000_000);
    assert_eq!(
        compute_capital_utilisation(75_000, 0).unwrap_err(),
        SaError::DivisionByZero
    );
}

#[test]
fn debt_formula_test() {
    // a full year at 56.66% on a 25,000 position
    assert_eq!(compute_debt(25_000, 25, 390, 566_666_666), 14_166);
    // no time elapsed, no debt
    assert_eq!(compute_debt(25_000, 25, 25, 566_666_666), 0);
}

#[test]
fn reward_formula_test() {
    // 30 epochs at 0.5% per epoch on 100,000
    assert_eq!(compute_reward_amount(100_000, 20, 50, 5_000_000), 15_000);
    // a receipt newer than the accrual epoch has earned nothing yet
    assert_eq!(compute_reward_amount(100_000, 50, 50, 5_000_000), 0);
    assert_eq!(compute_reward_amount(100_000, 60, 50, 5_000_000), 0);
}

#[test]
fn position_value_and_loan_test() {
    assert_eq!(compute_staking_position_value(100, 250 * DECIMALS), 25_000);
    assert_eq!(compute_borrow_amount(750_000_000, 25_000), 18_750);
}

#[test]
fn registry_add_is_idempotent_test() {
    let mut reg = StakingPositionsMapper::new();
    let first = reg.add_staking_position(7);
    let second = reg.add_staking_position(7);
    assert_eq!(first, 1);
    assert_eq!(second, first);
    assert_eq!(reg.live_position_ids(), vec![1]);
    // a different reference gets a fresh node
    assert_eq!(reg.add_staking_position(8), 2);
    assert_eq!(reg.live_position_ids(), vec![1, 2]);
}

#[test]
fn registry_walk_and_remove_test() {
    let mut reg = StakingPositionsMapper::new();
    for nonce in 11..=14u64 {
        reg.add_staking_position(nonce);
    }
    assert_eq!(reg.live_position_ids(), vec![1, 2, 3, 4]);
    assert_eq!(reg.get_first_staking_position_id(), 1);
    assert_eq!(reg.get_last_valid_staking_pos_id(), 4);

    // splice a middle node: neighbours link up directly
    reg.remove_staking_position(2).unwrap();
    assert_eq!(reg.live_position_ids(), vec![1, 3, 4]);
    assert_eq!(reg.get_staking_position(1).unwrap().next_pos_id, 3);
    assert_eq!(reg.get_staking_position(3).unwrap().prev_pos_id, 1);
    assert_eq!(reg.get_last_valid_staking_pos_id(), 4);

    // removing the tail decrements the last valid id to the new tail
    reg.remove_staking_position(4).unwrap();
    assert_eq!(reg.get_last_valid_staking_pos_id(), 3);
    assert_eq!(reg.live_position_ids(), vec![1, 3]);

    // the sentinel and missing ids are rejected
    assert_eq!(
        reg.remove_staking_position(0).unwrap_err(),
        SaError::InvalidStakingPositionId
    );
    assert_eq!(
        reg.get_staking_position(4).unwrap_err(),
        SaError::InvalidStakingPositionId
    );

    // ids only ever grow: a removed id is never issued again
    assert_eq!(reg.add_staking_position(15), 5);
    assert_eq!(reg.live_position_ids(), vec![1, 3, 5]);
    assert_eq!(
        reg.get_staking_position(4).unwrap_err(),
        SaError::InvalidStakingPositionId
    );
}

#[test]
fn registry_update_nonce_test() {
    let mut reg = StakingPositionsMapper::new();
    reg.add_staking_position(11);
    reg.add_staking_position(12);

    reg.update_staking_position(1, 21).unwrap();
    assert_eq!(reg.get_staking_position(1).unwrap().liquid_staking_nonce, 21);

    // a reference already held by another live position is refused
    assert_eq!(
        reg.update_staking_position(2, 21).unwrap_err(),
        SaError::DuplicateCollateralReference
    );
    // re-asserting a position's own reference is fine
    reg.update_staking_position(2, 12).unwrap();
    assert_eq!(
        reg.update_staking_position(9, 30).unwrap_err(),
        SaError::InvalidStakingPositionId
    );
}

#[test]
fn lender_rewards_scenario_test() {
    // lend 100,000 at epoch 20 and 50,000 at epoch 21 at 0.5% per epoch;
    // by epoch 50 the gross rewards are 15,000 and 7,250
    let mut sa = plain_pool();
    sa.lend(1, 100_000, 20).unwrap();
    sa.lend(1, 50_000, 21).unwrap();
    sa.update_global_lender_rewards(50);

    assert_eq!(sa.get_lender_claimable_rewards(20, &100_000), 15_000);
    assert_eq!(sa.get_lender_claimable_rewards(21, &50_000), 7_250);
    // with no reserves at all, the whole 22,250 is missing
    assert_eq!(sa.missing_rewards, 22_250);
}

#[test]
fn reserves_shortfall_scenario_test() {
    // with only 12,250 available for accrual against the 22,250 owed, the
    // missing counter lands at 10,000 and the penalty rounds up
    let mut sa = plain_pool();
    sa.lend(1, 100_000, 20).unwrap();
    sa.stablecoin_reserves = 12_250;
    sa.lend(1, 50_000, 21).unwrap();
    // the epoch-21 accrual already took 500 of the reserves
    assert_eq!(sa.stablecoin_reserves, 11_750);

    sa.update_global_lender_rewards(50);
    assert_eq!(sa.missing_rewards, 10_000);
    assert_eq!(sa.stablecoin_reserves, 0);
    assert_eq!(sa.penalty_per_lend_token, 66_666_666_666_666_667);

    // the rounded-up penalty never under-charges the pool
    assert!(sa.penalty_per_lend_token * 150_000 >= 10_000 * DECIMALS);

    // net claims: 15,000 - 6,666 and 7,250 - 3,333
    assert_eq!(sa.get_penalty_amount(&100_000), 6_666);
    assert_eq!(sa.get_penalty_amount(&50_000), 3_333);
    assert_eq!(sa.get_lender_claimable_rewards_view(20, 100_000, 50), 8_334);
    assert_eq!(sa.get_lender_claimable_rewards_view(21, 50_000, 50), 3_917);
}

#[test]
fn claim_callback_timeout_test() {
    // a claim is dispatched and its callback never arrives: a second attempt
    // before the waiting window fails, after it the claim resumes from the
    // committed cursor
    let mut sa = plain_pool();
    sa.lend(1, 150_000, 20).unwrap();
    for nonce in 1..=4u64 {
        sa.borrow(
            EsdtTokenPayment::new(2, nonce, 250 * DECIMALS),
            100,
            25,
        )
        .unwrap();
    }

    // a budget for exactly two positions
    let (transfers, pos_ids) = sa
        .claim_staking_rewards(25, 1_000, 130_000_000, 1_000_000)
        .unwrap();
    assert_eq!(pos_ids, vec![1, 2]);
    assert_eq!(transfers.len(), 2);

    // other operations are blocked while the claim is in flight
    assert_eq!(
        sa.lend(1, 10, 26).unwrap_err(),
        SaError::OngoingOperationInProgress
    );

    // too early: the callback is still awaited
    assert_eq!(
        sa.claim_staking_rewards(25, 1_001, 130_000_000, 1_000_000)
            .unwrap_err(),
        SaError::CallbackNotExecutedYet
    );

    // after the waiting window the prior dispatch is abandoned and the next
    // pass starts right after the saved cursor
    let (_, pos_ids) = sa
        .claim_staking_rewards(25, 1_100, 10_000_000_000, 1_000_000)
        .unwrap();
    assert_eq!(pos_ids, vec![3, 4]);
}

#[test]
fn claim_callback_failure_keeps_state_test() {
    // the remote service reporting failure leaves the operation state as-is:
    // the bookkeeping may be inconsistent and recovery goes through the
    // waiting window, not through silent clearing
    let mut sa = plain_pool();
    sa.lend(1, 150_000, 20).unwrap();
    sa.borrow(EsdtTokenPayment::new(2, 1, 250 * DECIMALS), 100, 25)
        .unwrap();
    let (transfers, pos_ids) = sa
        .claim_staking_rewards(25, 1_000, 10_000_000_000, 1_000_000)
        .unwrap();
    let op_before = sa.current_ongoing_operation;

    let failed = sa.claim_staking_rewards_callback(&pos_ids, &transfers, false, 25);
    assert_eq!(failed.unwrap_err(), SaError::AsyncCallFailed);
    assert_eq!(sa.current_ongoing_operation, op_before);

    // mismatched batch lengths are also refused whole
    let short: Vec<EsdtTokenPayment> = Vec::new();
    assert_eq!(
        sa.claim_staking_rewards_callback(&pos_ids, &short, true, 25)
            .unwrap_err(),
        SaError::InvalidLiquidStakingPositionLengths
    );
}

#[test]
fn validation_errors_test() {
    let mut sa = plain_pool();

    // wrong asset paid in
    assert_eq!(
        sa.lend(9, 1_000, 20).unwrap_err(),
        SaError::MayOnlyLendStablecoins
    );
    assert_eq!(
        sa.borrow(EsdtTokenPayment::new(9, 1, 250 * DECIMALS), 100, 25)
            .unwrap_err(),
        SaError::MayOnlyUseLiquidStakingAsCollateral
    );

    // a deposit whose loan value rounds down to nothing
    sa.lend(1, 100_000, 20).unwrap();
    assert_eq!(
        sa.borrow(EsdtTokenPayment::new(2, 1, 1), 100, 25).unwrap_err(),
        SaError::DepositAmountTooLow
    );

    // the pool never lends beyond its deposits
    let mut poor = plain_pool();
    poor.lend(1, 10_000, 20).unwrap();
    assert_eq!(
        poor.borrow(EsdtTokenPayment::new(2, 1, 250 * DECIMALS), 100, 25)
            .unwrap_err(),
        SaError::NotEnoughFundsToLend
    );

    // receipts that do not exist, or of the wrong token
    assert_eq!(
        sa.withdraw(EsdtTokenPayment::new(9, 1, 10), None, 30).unwrap_err(),
        SaError::InvalidPayment
    );
    assert_eq!(
        sa.withdraw(EsdtTokenPayment::new(4, 9, 10), None, 30).unwrap_err(),
        SaError::InvalidTokenNonce
    );

    // burning more of a receipt nonce than circulates
    sa.lend(1, 100, 21).unwrap();
    assert_eq!(
        sa.withdraw(EsdtTokenPayment::new(4, 2, 200), None, 30).unwrap_err(),
        SaError::NotEnoughReserves
    );

    // a missing oracle quote is a recoverable rejection
    assert_eq!(
        sa.get_staked_token_value_in_dollars(None).unwrap_err(),
        SaError::FailedToGetStakedTokenPrice
    );
    assert_eq!(sa.get_staked_token_value_in_dollars(Some(100)).unwrap(), 100);

    // only the delegation contract may deliver rewards
    assert_eq!(
        sa.receive_staking_rewards(999, 5).unwrap_err(),
        SaError::OnlyDelegationMayCall
    );

    // a callback with nothing in flight
    let ids: Vec<u64> = Vec::new();
    let toks: Vec<EsdtTokenPayment> = Vec::new();
    assert_eq!(
        sa.claim_staking_rewards_callback(&ids, &toks, true, 30)
            .unwrap_err(),
        SaError::InvalidOperationInCallback
    );
}

#[test]
fn convert_guards_test() {
    let mut sa = plain_pool();
    sa.receive_staking_rewards(100, 100 * DECIMALS).unwrap();

    // rewards for this epoch must be claimed before converting
    assert_eq!(
        sa.prepare_staking_token_convert(11).unwrap_err(),
        SaError::MustClaimRewardsFirst
    );

    // the deployment epoch counts as claimed, so conversion works there
    let swap_input = sa.prepare_staking_token_convert(10).unwrap();
    assert_eq!(swap_input.amount, 100 * DECIMALS);

    // the swap must pay back the pool's stable asset
    assert_eq!(
        sa.convert_staking_token_to_stablecoin(10, EsdtTokenPayment::new(9, 0, 10_000))
            .unwrap_err(),
        SaError::InvalidTokenReceivedFromSwap
    );

    sa.convert_staking_token_to_stablecoin(10, EsdtTokenPayment::new(1, 0, 10_000))
        .unwrap();
    assert_eq!(sa.stablecoin_reserves, 10_000);
    assert_eq!(sa.staked_token_balance, 0);

    // only once per epoch
    assert_eq!(
        sa.convert_staking_token_to_stablecoin(10, EsdtTokenPayment::new(1, 0, 1))
            .unwrap_err(),
        SaError::AlreadyConvertedThisEpoch
    );
}

#[test]
fn borrowed_never_exceeds_lent_test() {
    // the pool invariant holds through a full borrow and repay round trip
    let mut sa = plain_pool();
    sa.lend(1, 150_000, 20).unwrap();
    assert!(sa.borrowed_amount <= sa.lent_amount);
    for nonce in 1..=4u64 {
        sa.borrow(EsdtTokenPayment::new(2, nonce, 250 * DECIMALS), 100, 25)
            .unwrap();
        assert!(sa.borrowed_amount <= sa.lent_amount);
    }
    sa.repay(
        EsdtTokenPayment::new(1, 0, 75_000),
        EsdtTokenPayment::new(5, 1, 250 * DECIMALS),
        100,
        30,
    )
    .unwrap();
    assert!(sa.borrowed_amount <= sa.lent_amount);
}

#[test]
fn aggregator_result_from_test() {
    let result = savings_account::price_aggregator::AggregatorResult::from((7u32, 3u64, 1u64, 100u128, 0u8));
    assert_eq!(result.round_id, 7);
    assert_eq!(result.from_token_name, 3);
    assert_eq!(result.to_token_name, 1);
    assert_eq!(result.price, 100);
    assert_eq!(result.decimals, 0);
}

#[test]
fn overflow_guard_test() {
    // the multiplication guard decides the machine-width bound exactly
    assert!(savings_account::math::mul_fits(u128::MAX, 1));
    assert!(savings_account::math::mul_fits(0, u128::MAX));
    assert!(!savings_account::math::mul_fits(u128::MAX, 2));
    assert!(!savings_account::math::mul_fits(1 << 64, 1 << 64));
    assert!(savings_account::math::mul_fits((1 << 64) - 1, 1 << 64));
}

#[test]
fn precondition_guards_test() {
    // on ordinary states every entry point's bounds check passes...
    let mut sa = plain_pool();
    sa.lend(1, 150_000, 20).unwrap();
    assert!(sa.check_global_update_fits(50));
    assert!(sa.check_lend_supplies_fit(100_000));
    assert!(sa.check_claim_fits(100_000, 50));
    assert!(sa.check_borrow_fits(250 * DECIMALS, 100));
    sa.borrow(EsdtTokenPayment::new(2, 1, 250 * DECIMALS), 100, 25)
        .unwrap();
    assert!(sa.check_repay_fits(250 * DECIMALS, 100, 30));
    assert!(sa.check_convert_fits(10_000, 25));

    // ...and a state driven to the machine width is refused before the call
    let mut extreme = plain_pool();
    extreme.lent_amount = u128::MAX;
    extreme.lender_rewards_percentage_per_epoch = u128::MAX;
    assert!(!extreme.check_global_update_fits(50));
    assert!(!extreme.check_claim_fits(100_000, 50));
    assert!(!sa.check_borrow_fits(u128::MAX, u128::MAX));
    assert!(!sa.check_lend_supplies_fit(u128::MAX));
}
