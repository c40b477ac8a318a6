use savings_account::delegation_mock::DelegationMock;
use savings_account::dex_mock::DexMock;
use savings_account::model::{EsdtTokenPayment, SaError};
use savings_account::ongoing_operation::OngoingOperationType;
use savings_account::staking_positions_mapper::StakingPosition;
use savings_account::SavingsAccount;

pub const STABLECOIN_TOKEN_ID: u64 = 1;
pub const LIQUID_STAKING_TOKEN_ID: u64 = 2;
pub const STAKED_TOKEN_ID: u64 = 3;
pub const STAKED_TOKEN_TICKER: u64 = 77;
pub const LEND_TOKEN_ID: u64 = 4;
pub const BORROW_TOKEN_ID: u64 = 5;
pub const DELEGATION_SC_ADDRESS: u64 = 100;
pub const DEX_SWAP_SC_ADDRESS: u64 = 101;
pub const PRICE_AGGREGATOR_ADDRESS: u64 = 102;

pub const LOAN_TO_VALUE_PERCENTAGE: u128 = 750_000_000; // 75%
pub const LENDER_REWARDS_PERCENTAGE_PER_EPOCH: u128 = 5_000_000; // 0.5%
pub const BASE_BORROW_RATE: u128 = 500_000_000; // 50%
pub const BORROW_RATE_UNDER_OPTIMAL_FACTOR: u128 = 100_000_000; // 10%
pub const BORROW_RATE_OVER_OPTIMAL_FACTOR: u128 = 100_000_000; // 10%
pub const OPTIMAL_UTILISATION: u128 = 750_000_000; // 75%

pub const STAKE_PER_POSITION: u128 = 250;
pub const DECIMALS: u128 = 1_000_000_000_000_000_000;
pub const NR_STAKING_POSITIONS: u64 = 4;
pub const EGLD_PRICE_IN_DOLLARS: u128 = 100;

pub const GAS_PLENTY: u64 = 10_000_000_000;
pub const GAS_PER_ITERATION: u64 = 1_000_000;

pub struct Setup {
    pub sa: SavingsAccount,
    pub delegation: DelegationMock,
    pub dex: DexMock,
}

pub fn new_setup() -> Setup {
    let mut delegation = DelegationMock::init(LIQUID_STAKING_TOKEN_ID);
    let mut dex = DexMock::init();
    dex.deposit(1_000 * DECIMALS);

    // the borrower stakes four equal positions, receiving SFT nonces 1 to 4
    for i in 1..=NR_STAKING_POSITIONS {
        let minted = delegation.stake(STAKE_PER_POSITION * DECIMALS).unwrap();
        assert_eq!(minted.token_nonce, i);
        assert_eq!(minted.amount, STAKE_PER_POSITION * DECIMALS);
    }

    let sa = SavingsAccount::init(
        STABLECOIN_TOKEN_ID,
        LIQUID_STAKING_TOKEN_ID,
        STAKED_TOKEN_ID,
        STAKED_TOKEN_TICKER,
        DELEGATION_SC_ADDRESS,
        DEX_SWAP_SC_ADDRESS,
        PRICE_AGGREGATOR_ADDRESS,
        LOAN_TO_VALUE_PERCENTAGE,
        LENDER_REWARDS_PERCENTAGE_PER_EPOCH,
        BASE_BORROW_RATE,
        BORROW_RATE_UNDER_OPTIMAL_FACTOR,
        BORROW_RATE_OVER_OPTIMAL_FACTOR,
        OPTIMAL_UTILISATION,
        LEND_TOKEN_ID,
        BORROW_TOKEN_ID,
        10,
    );
    Setup { sa, delegation, dex }
}

pub fn default_lenders(s: &mut Setup) {
    // first lender, epoch 20
    let lend_tokens = s.sa.lend(STABLECOIN_TOKEN_ID, 100_000, 20).unwrap();
    assert_eq!(lend_tokens.token_identifier, LEND_TOKEN_ID);
    assert_eq!(lend_tokens.token_nonce, 1);
    assert_eq!(lend_tokens.amount, 100_000);
    assert_eq!(s.sa.lend_token_attributes(1).unwrap().lend_epoch, 20);
    assert_eq!(s.sa.lent_amount, 100_000);

    // no rewards to claim in the lend epoch itself
    let claim_attempt = s.sa.lender_claim_rewards(
        EsdtTokenPayment::new(LEND_TOKEN_ID, 1, 100_000),
        Some(true),
        20,
    );
    assert_eq!(claim_attempt.unwrap_err(), SaError::NoRewardsToClaim);

    // no staking positions pledged yet
    let staking_claim = s.sa.claim_staking_rewards(20, 1_000, GAS_PLENTY, GAS_PER_ITERATION);
    assert_eq!(staking_claim.unwrap_err(), SaError::NoStakingPositionsAvailable);

    // second lender, epoch 21
    let lend_tokens = s.sa.lend(STABLECOIN_TOKEN_ID, 50_000, 21).unwrap();
    assert_eq!(lend_tokens.token_nonce, 2);
    assert_eq!(s.sa.lend_token_attributes(2).unwrap().lend_epoch, 21);
    assert_eq!(s.sa.lent_amount, 150_000);
}

pub fn default_borrows(s: &mut Setup) {
    let liq_staking_amount = STAKE_PER_POSITION * DECIMALS;
    let stablecoin_amount_per_borrow: u128 = 18_750;

    for i in 1..=NR_STAKING_POSITIONS {
        let (borrow_tokens, stablecoins) = s
            .sa
            .borrow(
                EsdtTokenPayment::new(LIQUID_STAKING_TOKEN_ID, i, liq_staking_amount),
                EGLD_PRICE_IN_DOLLARS,
                25,
            )
            .unwrap();
        assert_eq!(borrow_tokens.token_identifier, BORROW_TOKEN_ID);
        assert_eq!(borrow_tokens.token_nonce, i);
        assert_eq!(borrow_tokens.amount, liq_staking_amount);
        assert_eq!(stablecoins.token_identifier, STABLECOIN_TOKEN_ID);
        assert_eq!(stablecoins.amount, stablecoin_amount_per_borrow);

        let attrs = s.sa.borrow_token_attributes(i).unwrap();
        assert_eq!(attrs.borrow_epoch, 25);
        assert_eq!(attrs.staking_position_id, i);
        assert_eq!(attrs.staked_token_value_in_dollars_at_borrow, EGLD_PRICE_IN_DOLLARS);

        assert_eq!(s.sa.borrowed_amount, stablecoin_amount_per_borrow * i as u128);
    }

    assert_eq!(
        s.sa.staking_positions.get_staking_position(1).unwrap(),
        StakingPosition { prev_pos_id: 0, next_pos_id: 2, liquid_staking_nonce: 1 }
    );
    assert_eq!(
        s.sa.staking_positions.get_staking_position(2).unwrap(),
        StakingPosition { prev_pos_id: 1, next_pos_id: 3, liquid_staking_nonce: 2 }
    );
    assert_eq!(
        s.sa.staking_positions.get_staking_position(3).unwrap(),
        StakingPosition { prev_pos_id: 2, next_pos_id: 4, liquid_staking_nonce: 3 }
    );
    assert_eq!(
        s.sa.staking_positions.get_staking_position(4).unwrap(),
        StakingPosition { prev_pos_id: 3, next_pos_id: 0, liquid_staking_nonce: 4 }
    );

    assert_eq!(s.sa.stablecoin_balance, 150_000 - 4 * 18_750);
}

/// Runs the full remote claim cycle at epoch 25: dispatch, remote harvest,
/// rewards delivery and the reconciling callback.
pub fn claim_staking_rewards_cycle(s: &mut Setup) {
    let (transfers, pos_ids) = s
        .sa
        .claim_staking_rewards(25, 1_000, GAS_PLENTY, GAS_PER_ITERATION)
        .unwrap();
    assert_eq!(pos_ids, vec![1, 2, 3, 4]);
    assert_eq!(transfers.len(), 4);
    for (i, t) in transfers.iter().enumerate() {
        assert_eq!(t.token_identifier, LIQUID_STAKING_TOKEN_ID);
        assert_eq!(t.token_nonce, (i + 1) as u64);
        assert_eq!(t.amount, STAKE_PER_POSITION * DECIMALS);
    }

    let (rewards_amount, new_tokens) = s.delegation.claim_rewards(&transfers).unwrap();
    assert_eq!(rewards_amount, 100 * DECIMALS);

    s.sa
        .receive_staking_rewards(DELEGATION_SC_ADDRESS, rewards_amount)
        .unwrap();

    let status = s
        .sa
        .claim_staking_rewards_callback(&pos_ids, &new_tokens, true, 25)
        .unwrap();
    assert_eq!(
        status,
        savings_account::model::OperationCompletionStatus::Completed
    );
}

/// Sells the harvested staking tokens for stablecoins at epoch 25.
pub fn convert_staking_token(s: &mut Setup) {
    let swap_input = s.sa.prepare_staking_token_convert(25).unwrap();
    assert_eq!(swap_input.token_identifier, STAKED_TOKEN_ID);
    assert_eq!(swap_input.amount, 100 * DECIMALS);
    let received = s.dex.swap_tokens_fixed_input(
        STAKED_TOKEN_ID,
        swap_input.amount,
        STABLECOIN_TOKEN_ID,
        1,
    );
    assert_eq!(received.amount, 10_000);
    s.sa.convert_staking_token_to_stablecoin(25, received).unwrap();
}

pub fn default_claim_rewards(s: &mut Setup) {
    // 100,000 out of 150,000 lent carries about two thirds of the 12,250 gap
    assert_eq!(s.sa.get_penalty_amount_view(100_000, 50), 8_166);
    assert_eq!(s.sa.get_penalty_amount_view(50_000, 50), 4_083);

    // (50 - 20) * 0.5% * 100,000 - 8,166 = 15,000 - 8,166 = 6,834
    let first_lender_rewards: u128 = 6_834;
    assert_eq!(
        s.sa.get_lender_claimable_rewards_view(20, 100_000, 50),
        first_lender_rewards
    );

    // (50 - 21) * 0.5% * 50,000 - 4,083 = 7,250 - 4,083 = 3,167
    let second_lender_rewards: u128 = 3_167;
    assert_eq!(
        s.sa.get_lender_claimable_rewards_view(21, 50_000, 50),
        second_lender_rewards
    );

    // refusing the penalty refuses the claim
    let rejected = s.sa.lender_claim_rewards(
        EsdtTokenPayment::new(LEND_TOKEN_ID, 1, 100_000),
        Some(true),
        50,
    );
    assert_eq!(rejected.unwrap_err(), SaError::RewardsHavePenalty);

    let (new_lend_tokens, rewards) = s
        .sa
        .lender_claim_rewards(EsdtTokenPayment::new(LEND_TOKEN_ID, 1, 100_000), Some(false), 50)
        .unwrap();
    assert_eq!(new_lend_tokens.token_nonce, 3);
    assert_eq!(new_lend_tokens.amount, 100_000);
    assert_eq!(s.sa.lend_token_attributes(3).unwrap().lend_epoch, 50);
    assert_eq!(rewards.amount, first_lender_rewards);

    let (new_lend_tokens, rewards) = s
        .sa
        .lender_claim_rewards(EsdtTokenPayment::new(LEND_TOKEN_ID, 2, 50_000), Some(false), 50)
        .unwrap();
    // both lenders share the epoch-50 nonce
    assert_eq!(new_lend_tokens.token_nonce, 3);
    assert_eq!(rewards.amount, second_lender_rewards);

    assert_eq!(s.sa.last_rewards_update_epoch, 50);
    assert_eq!(s.sa.stablecoin_reserves, 0);
    assert_eq!(s.sa.total_missed_rewards_by_claim, 8_166 + 4_083);
}

#[test]
fn init_test() {
    let _ = new_setup();
}

#[test]
fn lend_test() {
    let mut s = new_setup();
    default_lenders(&mut s);
}

#[test]
fn borrow_test() {
    let mut s = new_setup();
    default_lenders(&mut s);
    default_borrows(&mut s);
}

#[test]
fn calculate_rewards_test() {
    let mut s = new_setup();
    default_lenders(&mut s);
    default_borrows(&mut s);

    // pool balance before harvesting: deposits minus the paid-out loans
    assert_eq!(s.sa.stablecoin_balance, 75_000);

    claim_staking_rewards_cycle(&mut s);
    convert_staking_token(&mut s);

    // 10,000 stablecoins came in from the swap
    assert_eq!(s.sa.stablecoin_balance, 85_000);

    // the positions now carry the re-minted collateral references 5 to 8
    assert_eq!(
        s.sa.staking_positions.get_staking_position(1).unwrap(),
        StakingPosition { prev_pos_id: 0, next_pos_id: 2, liquid_staking_nonce: 5 }
    );
    assert_eq!(
        s.sa.staking_positions.get_staking_position(2).unwrap(),
        StakingPosition { prev_pos_id: 1, next_pos_id: 3, liquid_staking_nonce: 6 }
    );
    assert_eq!(
        s.sa.staking_positions.get_staking_position(3).unwrap(),
        StakingPosition { prev_pos_id: 2, next_pos_id: 4, liquid_staking_nonce: 7 }
    );
    assert_eq!(
        s.sa.staking_positions.get_staking_position(4).unwrap(),
        StakingPosition { prev_pos_id: 3, next_pos_id: 0, liquid_staking_nonce: 8 }
    );
}

#[test]
fn claim_rewards_test() {
    let mut s = new_setup();
    default_lenders(&mut s);
    default_borrows(&mut s);
    claim_staking_rewards_cycle(&mut s);
    convert_staking_token(&mut s);
    default_claim_rewards(&mut s);
}

#[test]
fn withdraw_before_claim_rewards_test() {
    let mut s = new_setup();
    default_lenders(&mut s);
    default_borrows(&mut s);
    claim_staking_rewards_cycle(&mut s);
    convert_staking_token(&mut s);

    // withdraw the initial 50,000 lent plus 3,167 net rewards at epoch 50
    let paid = s
        .sa
        .withdraw(EsdtTokenPayment::new(LEND_TOKEN_ID, 2, 50_000), None, 50)
        .unwrap();
    assert_eq!(paid.token_identifier, STABLECOIN_TOKEN_ID);
    assert_eq!(paid.amount, 50_000 + 3_167);

    assert_eq!(s.sa.lent_amount, 100_000);
    assert_eq!(s.sa.borrowed_amount, 75_000);

    // the rest of the deposits is out on loan
    let refused = s.sa.withdraw(EsdtTokenPayment::new(LEND_TOKEN_ID, 1, 100_000), None, 50);
    assert_eq!(refused.unwrap_err(), SaError::CannotWithdrawNotEnoughFunds);
}

#[test]
fn withdraw_after_claim_rewards_test() {
    let mut s = new_setup();
    default_lenders(&mut s);
    default_borrows(&mut s);
    claim_staking_rewards_cycle(&mut s);
    convert_staking_token(&mut s);

    let (new_lend_tokens, rewards) = s
        .sa
        .lender_claim_rewards(EsdtTokenPayment::new(LEND_TOKEN_ID, 2, 50_000), Some(false), 50)
        .unwrap();
    assert_eq!(new_lend_tokens.token_nonce, 3);
    assert_eq!(rewards.amount, 3_167);

    // the re-issued receipt starts at epoch 50, so only principal comes back
    let paid = s
        .sa
        .withdraw(EsdtTokenPayment::new(LEND_TOKEN_ID, 3, 50_000), None, 50)
        .unwrap();
    assert_eq!(paid.amount, 50_000);
}

#[test]
fn withdraw_partial_test() {
    let mut s = new_setup();
    default_lenders(&mut s);
    default_borrows(&mut s);
    claim_staking_rewards_cycle(&mut s);
    convert_staking_token(&mut s);

    // initial 25,000 plus about half of the 3,167 net rewards
    let paid = s
        .sa
        .withdraw(EsdtTokenPayment::new(LEND_TOKEN_ID, 2, 25_000), None, 50)
        .unwrap();
    assert_eq!(paid.amount, 26_584);

    // with less principal left the per-unit penalty grows, so less comes out
    let paid = s
        .sa
        .withdraw(EsdtTokenPayment::new(LEND_TOKEN_ID, 2, 25_000), None, 50)
        .unwrap();
    assert_eq!(paid.amount, 26_175);
}

#[test]
fn repay_full_first_pos_test() {
    let mut s = new_setup();
    default_lenders(&mut s);
    default_borrows(&mut s);
    claim_staking_rewards_cycle(&mut s);
    convert_staking_token(&mut s);
    default_claim_rewards(&mut s);

    let borrow_token_amount = STAKE_PER_POSITION * DECIMALS;

    // one year after the borrow; 10,000 stablecoins cannot cover the debt
    let refused = s.sa.repay(
        EsdtTokenPayment::new(STABLECOIN_TOKEN_ID, 0, 10_000),
        EsdtTokenPayment::new(BORROW_TOKEN_ID, 1, borrow_token_amount),
        EGLD_PRICE_IN_DOLLARS,
        390,
    );
    assert_eq!(refused.unwrap_err(), SaError::NotEnoughStablecoinsPaid);

    // borrow rate 50% + 2/3 * 10% = 56.66%; debt 25,000 * 56.66% = 14,166,
    // so 39,166 is needed and 35,834 of the 75,000 comes back
    let (liq_staking, leftover) = s
        .sa
        .repay(
            EsdtTokenPayment::new(STABLECOIN_TOKEN_ID, 0, 75_000),
            EsdtTokenPayment::new(BORROW_TOKEN_ID, 1, borrow_token_amount),
            EGLD_PRICE_IN_DOLLARS,
            390,
        )
        .unwrap();
    assert_eq!(liq_staking.token_identifier, LIQUID_STAKING_TOKEN_ID);
    assert_eq!(liq_staking.token_nonce, 5);
    assert_eq!(liq_staking.amount, borrow_token_amount);
    assert_eq!(leftover.amount, 35_834);

    // the head was removed: its successor now fronts the list
    assert_eq!(
        s.sa.staking_positions.get_staking_position(2).unwrap(),
        StakingPosition { prev_pos_id: 0, next_pos_id: 3, liquid_staking_nonce: 6 }
    );
    assert_eq!(
        s.sa.staking_positions.get_staking_position(3).unwrap(),
        StakingPosition { prev_pos_id: 2, next_pos_id: 4, liquid_staking_nonce: 7 }
    );
    assert_eq!(
        s.sa.staking_positions.get_staking_position(4).unwrap(),
        StakingPosition { prev_pos_id: 3, next_pos_id: 0, liquid_staking_nonce: 8 }
    );

    let gone = s.sa.staking_positions.get_staking_position(1);
    assert_eq!(gone.unwrap_err(), SaError::InvalidStakingPositionId);
}

#[test]
fn repay_other_pos_test() {
    let mut s = new_setup();
    default_lenders(&mut s);
    default_borrows(&mut s);
    claim_staking_rewards_cycle(&mut s);
    convert_staking_token(&mut s);
    default_claim_rewards(&mut s);

    let borrow_token_amount = STAKE_PER_POSITION * DECIMALS;
    let (liq_staking, leftover) = s
        .sa
        .repay(
            EsdtTokenPayment::new(STABLECOIN_TOKEN_ID, 0, 75_000),
            EsdtTokenPayment::new(BORROW_TOKEN_ID, 3, borrow_token_amount),
            EGLD_PRICE_IN_DOLLARS,
            390,
        )
        .unwrap();
    assert_eq!(liq_staking.token_nonce, 7);
    assert_eq!(leftover.amount, 35_834);

    // the middle node is spliced out; head and tail are untouched
    assert_eq!(
        s.sa.staking_positions.get_staking_position(1).unwrap(),
        StakingPosition { prev_pos_id: 0, next_pos_id: 2, liquid_staking_nonce: 5 }
    );
    assert_eq!(
        s.sa.staking_positions.get_staking_position(2).unwrap(),
        StakingPosition { prev_pos_id: 1, next_pos_id: 4, liquid_staking_nonce: 6 }
    );
    assert_eq!(
        s.sa.staking_positions.get_staking_position(4).unwrap(),
        StakingPosition { prev_pos_id: 2, next_pos_id: 0, liquid_staking_nonce: 8 }
    );
    assert_eq!(s.sa.staking_positions.get_last_valid_staking_pos_id(), 4);

    let gone = s.sa.staking_positions.get_staking_position(3);
    assert_eq!(gone.unwrap_err(), SaError::InvalidStakingPositionId);
}

#[test]
fn repay_last_pos_test() {
    let mut s = new_setup();
    default_lenders(&mut s);
    default_borrows(&mut s);
    claim_staking_rewards_cycle(&mut s);
    convert_staking_token(&mut s);
    default_claim_rewards(&mut s);

    let borrow_token_amount = STAKE_PER_POSITION * DECIMALS;
    let (liq_staking, leftover) = s
        .sa
        .repay(
            EsdtTokenPayment::new(STABLECOIN_TOKEN_ID, 0, 75_000),
            EsdtTokenPayment::new(BORROW_TOKEN_ID, 4, borrow_token_amount),
            EGLD_PRICE_IN_DOLLARS,
            390,
        )
        .unwrap();
    assert_eq!(liq_staking.token_nonce, 8);
    assert_eq!(leftover.amount, 35_834);

    assert_eq!(
        s.sa.staking_positions.get_staking_position(1).unwrap(),
        StakingPosition { prev_pos_id: 0, next_pos_id: 2, liquid_staking_nonce: 5 }
    );
    assert_eq!(
        s.sa.staking_positions.get_staking_position(2).unwrap(),
        StakingPosition { prev_pos_id: 1, next_pos_id: 3, liquid_staking_nonce: 6 }
    );
    assert_eq!(
        s.sa.staking_positions.get_staking_position(3).unwrap(),
        StakingPosition { prev_pos_id: 2, next_pos_id: 0, liquid_staking_nonce: 7 }
    );

    // removing the tail hands the last valid id to its predecessor
    assert_eq!(s.sa.staking_positions.get_last_valid_staking_pos_id(), 3);

    let gone = s.sa.staking_positions.get_staking_position(4);
    assert_eq!(gone.unwrap_err(), SaError::InvalidStakingPositionId);
}

#[test]
fn repay_partial_test() {
    let mut s = new_setup();
    default_lenders(&mut s);
    default_borrows(&mut s);
    claim_staking_rewards_cycle(&mut s);
    convert_staking_token(&mut s);
    default_claim_rewards(&mut s);

    // repay 150 of the 250 units behind the first borrow receipt
    let borrow_token_amount = 150 * DECIMALS;
    let (liq_staking, leftover) = s
        .sa
        .repay(
            EsdtTokenPayment::new(STABLECOIN_TOKEN_ID, 0, 75_000),
            EsdtTokenPayment::new(BORROW_TOKEN_ID, 1, borrow_token_amount),
            EGLD_PRICE_IN_DOLLARS,
            390,
        )
        .unwrap();
    assert_eq!(liq_staking.token_nonce, 5);
    assert_eq!(liq_staking.amount, 150 * DECIMALS);
    assert_eq!(leftover.amount, 51_501);

    // 100 units of the borrow receipt stay in circulation, metadata intact
    assert_eq!(s.sa.borrow_token_supply(1), 100 * DECIMALS);
    let attrs = s.sa.borrow_token_attributes(1).unwrap();
    assert_eq!(attrs.borrow_epoch, 25);
    assert_eq!(attrs.staking_position_id, 1);
    assert_eq!(attrs.staked_token_value_in_dollars_at_borrow, 100);

    // the position stays, with the remaining collateral behind it
    assert_eq!(s.sa.get_staking_amount_for_position(5), 100 * DECIMALS);

    assert_eq!(s.sa.lent_amount, 150_000);
    assert_eq!(s.sa.borrowed_amount, 60_000);

    // the ongoing-operation slot stayed empty throughout
    assert!(matches!(
        s.sa.current_ongoing_operation,
        OngoingOperationType::NoOperation
    ));
}
