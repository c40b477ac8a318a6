pub mod delegation_mock;
pub mod dex_mock;
pub mod math;
pub mod model;
pub mod ongoing_operation;
pub mod price_aggregator;
pub mod staking_positions_mapper;
pub mod staking_rewards;

use vstd::prelude::*;

use crate::math::{
    compute_borrow_amount, compute_borrow_rate, compute_capital_utilisation, compute_debt,
    compute_reward_amount, compute_staking_position_value, borrow_rate_fits, debt_fits,
    reward_fits, spec_borrow_amount, spec_borrow_rate, spec_capital_utilisation, spec_debt,
    spec_reward_amount, spec_staking_position_value, BASE_PRECISION, DEFAULT_DECIMALS,
    EPOCHS_IN_YEAR,
};
use crate::model::{BorrowMetadata, BorrowSlot, EsdtTokenPayment, LendMetadata, LendSlot, PoolParams, SaError};
use crate::ongoing_operation::OngoingOperationType;
use crate::staking_positions_mapper::StakingPositionsMapper;
use crate::staking_rewards::{global_update_fits, spec_after_global_update};

verus! {

/// The accounting core of the pool, held as one value: token identities and
/// rate parameters, the pool globals, both receipt ledgers, the collateral
/// position registry, and the single in-flight operation slot. Lend and
/// borrow receipt nonces are the slot index plus one; collateral balances are
/// kept per position id, parallel to the registry's arena.
pub struct SavingsAccount {
    pub stablecoin_token_id: u64,
    pub liquid_staking_token_id: u64,
    pub staked_token_id: u64,
    pub staked_token_ticker: u64,
    pub lend_token_id: u64,
    pub borrow_token_id: u64,
    pub delegation_sc_address: u64,
    pub dex_swap_sc_address: u64,
    pub price_aggregator_address: u64,
    pub pool_params: PoolParams,
    pub loan_to_value_percentage: u128,
    pub lender_rewards_percentage_per_epoch: u128,
    pub lent_amount: u128,
    pub borrowed_amount: u128,
    pub stablecoin_reserves: u128,
    pub missing_rewards: u128,
    pub penalty_per_lend_token: u128,
    pub total_missed_rewards_by_claim: u128,
    pub last_rewards_update_epoch: u64,
    pub last_staking_rewards_claim_epoch: u64,
    pub last_staking_token_convert_epoch: u64,
    pub stablecoin_balance: u128,
    pub staked_token_balance: u128,
    pub lend_token: Vec<LendSlot>,
    pub borrow_token: Vec<BorrowSlot>,
    pub staking_positions: StakingPositionsMapper,
    pub collateral_amounts: Vec<u128>,
    pub current_ongoing_operation: OngoingOperationType,
}

impl SavingsAccount {
    /// The data-model invariant every public operation preserves: the pool
    /// never lends out more than was deposited, the registry chain is
    /// well-formed with one collateral balance per arena slot, lend receipt
    /// epochs are unique per nonce, and a paused claim always points at a
    /// live cursor position.
    pub open spec fn wf(&self) -> bool {
        &&& self.borrowed_amount <= self.lent_amount
        &&& self.staking_positions.wf()
        &&& self.collateral_amounts@.len() == self.staking_positions.num_slots()
        &&& forall|j1: int, j2: int|
            0 <= j1 < j2 < self.lend_token@.len() ==> (#[trigger] self.lend_token@[j1]).lend_epoch
                != (#[trigger] self.lend_token@[j2]).lend_epoch
        &&& match self.current_ongoing_operation {
            OngoingOperationType::ClaimStakingRewards { pos_id, .. } => self.staking_positions.is_live(
                pos_id,
            ),
            OngoingOperationType::NoOperation => true,
        }
    }

    /// Sets the pool up: token identities, collaborator addresses, the rate
    /// curve, and an empty registry. The rewards-claim clock starts at the
    /// deployment epoch; everything else starts from zero.
    pub fn init(
        stablecoin_token_id: u64,
        liquid_staking_token_id: u64,
        staked_token_id: u64,
        staked_token_ticker: u64,
        delegation_sc_address: u64,
        dex_swap_sc_address: u64,
        price_aggregator_address: u64,
        loan_to_value_percentage: u128,
        lender_rewards_percentage_per_epoch: u128,
        base_borrow_rate: u128,
        borrow_rate_under_opt_factor: u128,
        borrow_rate_over_opt_factor: u128,
        optimal_utilisation: u128,
        lend_token_id: u64,
        borrow_token_id: u64,
        current_epoch: u64,
    ) -> (r: Self)
        ensures
            r.wf(),
            r.stablecoin_token_id == stablecoin_token_id,
            r.liquid_staking_token_id == liquid_staking_token_id,
            r.staked_token_id == staked_token_id,
            r.staked_token_ticker == staked_token_ticker,
            r.lend_token_id == lend_token_id,
            r.borrow_token_id == borrow_token_id,
            r.delegation_sc_address == delegation_sc_address,
            r.dex_swap_sc_address == dex_swap_sc_address,
            r.price_aggregator_address == price_aggregator_address,
            r.pool_params == (PoolParams {
                base_borrow_rate,
                borrow_rate_under_opt_factor,
                borrow_rate_over_opt_factor,
                optimal_utilisation,
            }),
            r.loan_to_value_percentage == loan_to_value_percentage,
            r.lender_rewards_percentage_per_epoch == lender_rewards_percentage_per_epoch,
            r.lent_amount == 0 && r.borrowed_amount == 0,
            r.stablecoin_reserves == 0 && r.missing_rewards == 0,
            r.penalty_per_lend_token == 0 && r.total_missed_rewards_by_claim == 0,
            r.last_rewards_update_epoch == 0,
            r.last_staking_rewards_claim_epoch == current_epoch,
            r.last_staking_token_convert_epoch == 0,
            r.stablecoin_balance == 0 && r.staked_token_balance == 0,
            r.lend_token@.len() == 0,
            r.borrow_token@.len() == 0,
            r.staking_positions.order() == Seq::<u64>::empty(),
            r.staking_positions.num_slots() == 1,
            r.collateral_amounts@ == seq![0u128],
            r.current_ongoing_operation is NoOperation,
    {
        let staking_positions = StakingPositionsMapper::new();
        let mut collateral_amounts: Vec<u128> = Vec::new();
        collateral_amounts.push(0);
        SavingsAccount {
            stablecoin_token_id,
            liquid_staking_token_id,
            staked_token_id,
            staked_token_ticker,
            lend_token_id,
            borrow_token_id,
            delegation_sc_address,
            dex_swap_sc_address,
            price_aggregator_address,
            pool_params: PoolParams {
                base_borrow_rate,
                borrow_rate_under_opt_factor,
                borrow_rate_over_opt_factor,
                optimal_utilisation,
            },
            loan_to_value_percentage,
            lender_rewards_percentage_per_epoch,
            lent_amount: 0,
            borrowed_amount: 0,
            stablecoin_reserves: 0,
            missing_rewards: 0,
            penalty_per_lend_token: 0,
            total_missed_rewards_by_claim: 0,
            last_rewards_update_epoch: 0,
            last_staking_rewards_claim_epoch: current_epoch,
            last_staking_token_convert_epoch: 0,
            stablecoin_balance: 0,
            staked_token_balance: 0,
            lend_token: Vec::new(),
            borrow_token: Vec::new(),
            staking_positions,
            collateral_amounts,
            current_ongoing_operation: OngoingOperationType::NoOperation,
        }
    }

    /// Whether some lend receipt nonce was already created for this epoch.
    pub open spec fn spec_has_lend_epoch(&self, lend_epoch: u64) -> bool {
        exists|j: int|
            0 <= j < self.lend_token@.len() && (#[trigger] self.lend_token@[j]).lend_epoch
                == lend_epoch
    }

    /// All depositors of one epoch share one lend receipt nonce: the nonce
    /// already created for this epoch is returned, or a fresh one (with no
    /// supply yet) is appended. Nothing else changes.
    #[verifier::rlimit(100)]
    pub fn get_or_create_lend_token_nonce(&mut self, lend_epoch: u64) -> (nonce: u64)
        requires
            old(self).wf(),
        ensures
            final(self).wf(),
            *final(self) == (SavingsAccount { lend_token: final(self).lend_token, ..*old(self) }),
            1 <= nonce <= final(self).lend_token@.len(),
            final(self).lend_token@[nonce as int - 1].lend_epoch == lend_epoch,
            old(self).spec_has_lend_epoch(lend_epoch) ==> final(self).lend_token == old(
                self,
            ).lend_token,
            !old(self).spec_has_lend_epoch(lend_epoch) ==> final(self).lend_token@ == old(
                self,
            ).lend_token@.push(LendSlot { lend_epoch, supply: 0 }) && nonce as int == old(
                self,
            ).lend_token@.len() + 1,
    {
        let n: usize = self.lend_token.len();
        let mut j: usize = 0;
        while j < n
            invariant
                0 <= j <= n,
                n == self.lend_token@.len(),
                *self == *old(self),
                old(self).wf(),
                forall|i: int| 0 <= i < j ==> (#[trigger] self.lend_token@[i]).lend_epoch
                    != lend_epoch,
            decreases n - j,
        {
            if self.lend_token[j].lend_epoch == lend_epoch {
                return (j + 1) as u64;
            }
            j += 1;
        }
        proof {
            if self.spec_has_lend_epoch(lend_epoch) {
                let w = choose|i: int|
                    0 <= i < self.lend_token@.len() && (#[trigger] self.lend_token@[i]).lend_epoch
                        == lend_epoch;
                assert(false);
            }
        }
        self.lend_token.push(LendSlot { lend_epoch, supply: 0 });
        proof {
            assert forall|j1: int, j2: int|
                0 <= j1 < j2 < self.lend_token@.len() implies (#[trigger] self.lend_token@[j1]).lend_epoch
                != (#[trigger] self.lend_token@[j2]).lend_epoch by {
                if j2 == self.lend_token@.len() - 1 {
                    assert(self.lend_token@[j1] == old(self).lend_token@[j1]);
                }
            }
        }
        self.lend_token.len() as u64
    }

    /// The attributes stored for a lend receipt nonce.
    pub fn lend_token_attributes(&self, nonce: u64) -> (r: Result<LendMetadata, SaError>)
        ensures
            r is Ok <==> 1 <= nonce <= self.lend_token@.len(),
            r matches Ok(m) ==> m == (LendMetadata {
                lend_epoch: self.lend_token@[nonce as int - 1].lend_epoch,
            }),
            r matches Err(e) ==> e == SaError::InvalidTokenNonce,
    {
        if nonce == 0 || nonce > self.lend_token.len() as u64 {
            return Err(SaError::InvalidTokenNonce);
        }
        Ok(LendMetadata { lend_epoch: self.lend_token[(nonce - 1) as usize].lend_epoch })
    }

    /// The circulating supply of a lend receipt nonce.
    pub fn lend_token_supply(&self, nonce: u64) -> (r: u128)
        ensures
            1 <= nonce <= self.lend_token@.len() ==> r == self.lend_token@[nonce as int - 1].supply,
            !(1 <= nonce <= self.lend_token@.len()) ==> r == 0,
    {
        if nonce == 0 || nonce > self.lend_token.len() as u64 {
            return 0;
        }
        self.lend_token[(nonce - 1) as usize].supply
    }

    /// The attributes stored for a borrow receipt nonce.
    pub fn borrow_token_attributes(&self, nonce: u64) -> (r: Result<BorrowMetadata, SaError>)
        ensures
            r is Ok <==> 1 <= nonce <= self.borrow_token@.len(),
            r matches Ok(m) ==> m == self.borrow_token@[nonce as int - 1].attributes,
            r matches Err(e) ==> e == SaError::InvalidTokenNonce,
    {
        if nonce == 0 || nonce > self.borrow_token.len() as u64 {
            return Err(SaError::InvalidTokenNonce);
        }
        Ok(self.borrow_token[(nonce - 1) as usize].attributes)
    }

    /// The circulating supply of a borrow receipt nonce.
    pub fn borrow_token_supply(&self, nonce: u64) -> (r: u128)
        ensures
            1 <= nonce <= self.borrow_token@.len() ==> r == self.borrow_token@[nonce as int
                - 1].supply,
            !(1 <= nonce <= self.borrow_token@.len()) ==> r == 0,
    {
        if nonce == 0 || nonce > self.borrow_token.len() as u64 {
            return 0;
        }
        self.borrow_token[(nonce - 1) as usize].supply
    }

    /// Deposits stablecoins: after an accrual pass, the payment joins the
    /// lent principal and the caller receives lend receipts under this
    /// epoch's nonce. Any other token is refused with nothing changed.
    #[verifier::rlimit(100)]
    pub fn lend(&mut self, payment_token: u64, payment_amount: u128, current_epoch: u64) -> (r:
        Result<EsdtTokenPayment, SaError>)
        requires
            old(self).wf(),
            global_update_fits(*old(self), current_epoch),
            old(self).lent_amount + payment_amount <= u128::MAX,
            old(self).stablecoin_balance + payment_amount <= u128::MAX,
            forall|j: int| 0 <= j < old(self).lend_token@.len() ==> (#[trigger] old(
                self,
            ).lend_token@[j]).supply + payment_amount <= u128::MAX,
        ensures
            final(self).wf(),
            r is Ok <==> (old(self).current_ongoing_operation is NoOperation && payment_token
                == old(self).stablecoin_token_id),
            r is Err ==> *final(self) == *old(self),
            !(old(self).current_ongoing_operation is NoOperation) ==> r == Err::<
                EsdtTokenPayment,
                SaError,
            >(SaError::OngoingOperationInProgress),
            old(self).current_ongoing_operation is NoOperation && payment_token != old(
                self,
            ).stablecoin_token_id ==> r == Err::<EsdtTokenPayment, SaError>(
                SaError::MayOnlyLendStablecoins,
            ),
            r matches Ok(p) ==> {
                let mid = spec_after_global_update(*old(self), current_epoch);
                &&& p.token_identifier == old(self).lend_token_id
                &&& p.amount == payment_amount
                &&& 1 <= p.token_nonce <= final(self).lend_token@.len()
                &&& final(self).lend_token@.len() == if old(self).spec_has_lend_epoch(
                    current_epoch,
                ) {
                    old(self).lend_token@.len() as int
                } else {
                    old(self).lend_token@.len() as int + 1
                }
                &&& forall|i: int|
                    0 <= i < old(self).lend_token@.len() && i != p.token_nonce as int - 1
                        ==> final(self).lend_token@[i] == old(self).lend_token@[i]
                &&& final(self).lend_token@[p.token_nonce as int - 1].lend_epoch == current_epoch
                &&& final(self).lend_token@[p.token_nonce as int - 1].supply as int == (if p.token_nonce
                    as int - 1 < old(self).lend_token@.len() {
                    old(self).lend_token@[p.token_nonce as int - 1].supply as int
                } else {
                    0int
                }) + payment_amount
                &&& *final(self) == (SavingsAccount {
                    lent_amount: (old(self).lent_amount + payment_amount) as u128,
                    stablecoin_balance: (old(self).stablecoin_balance + payment_amount) as u128,
                    lend_token: final(self).lend_token,
                    ..mid
                })
            },
    {
        match self.require_no_ongoing_operation() {
            Ok(()) => {},
            Err(e) => {
                return Err(e);
            },
        }
        if payment_token != self.stablecoin_token_id {
            return Err(SaError::MayOnlyLendStablecoins);
        }
        self.update_global_lender_rewards(current_epoch);
        let ghost mid: SavingsAccount = *self;
        let lend_nonce: u64 = self.get_or_create_lend_token_nonce(current_epoch);
        proof {
            assert(lend_nonce as int - 1 < self.lend_token@.len());
            assert(self.lend_token.len() == self.lend_token@.len());
            assert(0 <= lend_nonce as int - 1 <= usize::MAX);
            if lend_nonce as int - 1 < old(self).lend_token@.len() {
                assert(self.lend_token@[lend_nonce as int - 1] == old(self).lend_token@[
                    lend_nonce as int - 1]);
            } else {
                assert(self.lend_token@[lend_nonce as int - 1].supply == 0);
            }
        }
        let ghost mid2: SavingsAccount = *self;
        let slot = self.lend_token[(lend_nonce - 1) as usize];
        self.lend_token.set(
            (lend_nonce - 1) as usize,
            LendSlot { lend_epoch: slot.lend_epoch, supply: slot.supply + payment_amount },
        );
        self.lent_amount = self.lent_amount + payment_amount;
        self.stablecoin_balance = self.stablecoin_balance + payment_amount;
        proof {
            assert forall|i: int|
                0 <= i < old(self).lend_token@.len() && i != lend_nonce as int - 1 implies self.lend_token@[i]
                == old(self).lend_token@[i] by {
                assert(self.lend_token@[i] == mid2.lend_token@[i]);
                assert(mid2.lend_token@[i] == mid.lend_token@[i]);
                assert(mid.lend_token@ == old(self).lend_token@);
            }
            assert forall|j1: int, j2: int|
                0 <= j1 < j2 < self.lend_token@.len() implies (#[trigger] self.lend_token@[j1]).lend_epoch
                != (#[trigger] self.lend_token@[j2]).lend_epoch by {}
            assert(*self == (SavingsAccount {
                lent_amount: (old(self).lent_amount + payment_amount) as u128,
                stablecoin_balance: (old(self).stablecoin_balance + payment_amount) as u128,
                lend_token: self.lend_token,
                ..spec_after_global_update(*old(self), current_epoch)
            }));
        }
        Ok(EsdtTokenPayment { token_identifier: self.lend_token_id, token_nonce: lend_nonce, amount: payment_amount })
    }

    /// The per-unit penalty applied to a claim of this size, floored in the
    /// claimer's favour.
    pub open spec fn spec_penalty_amount(&self, lend_amount: u128) -> int {
        if self.penalty_per_lend_token == 0 {
            0
        } else {
            (lend_amount * self.penalty_per_lend_token) / (DEFAULT_DECIMALS as int)
        }
    }

    pub fn get_penalty_amount(&self, lend_amount: &u128) -> (r: u128)
        requires
            *lend_amount * self.penalty_per_lend_token <= u128::MAX,
        ensures
            r as int == self.spec_penalty_amount(*lend_amount),
    {
        let penalty_per_lend_token: u128 = self.penalty_per_lend_token;
        if penalty_per_lend_token == 0 {
            return 0;
        }
        (*lend_amount * penalty_per_lend_token) / DEFAULT_DECIMALS
    }

    /// The penalty a claim of this size would pay right now, after an accrual
    /// pass brings the bookkeeping up to the current epoch.
    pub fn get_penalty_amount_view(&mut self, lend_amount: u128, current_epoch: u64) -> (r: u128)
        requires
            old(self).wf(),
            global_update_fits(*old(self), current_epoch),
            lend_amount * spec_after_global_update(*old(self), current_epoch).penalty_per_lend_token
                <= u128::MAX,
        ensures
            final(self).wf(),
            *final(self) == spec_after_global_update(*old(self), current_epoch),
            r as int == final(self).spec_penalty_amount(lend_amount),
    {
        self.update_global_lender_rewards(current_epoch);
        self.get_penalty_amount(&lend_amount)
    }

    /// The gross rewards a receipt from `lend_epoch` has earned up to the
    /// last accrual epoch.
    pub open spec fn spec_lender_rewards(&self, lend_epoch: u64, lend_token_amount: u128) -> int {
        spec_reward_amount(
            lend_token_amount,
            lend_epoch,
            self.last_rewards_update_epoch,
            self.lender_rewards_percentage_per_epoch,
        )
    }

    pub fn get_lender_claimable_rewards(&self, lend_epoch: u64, lend_token_amount: &u128) -> (r:
        u128)
        requires
            reward_fits(
                *lend_token_amount,
                lend_epoch,
                self.last_rewards_update_epoch,
                self.lender_rewards_percentage_per_epoch,
            ),
        ensures
            r as int == self.spec_lender_rewards(lend_epoch, *lend_token_amount),
    {
        compute_reward_amount(
            *lend_token_amount,
            lend_epoch,
            self.last_rewards_update_epoch,
            self.lender_rewards_percentage_per_epoch,
        )
    }

    /// The net claim (gross rewards minus penalty, floored at zero) a receipt
    /// would fetch right now, after an accrual pass.
    pub fn get_lender_claimable_rewards_view(
        &mut self,
        lend_epoch: u64,
        lend_token_amount: u128,
        current_epoch: u64,
    ) -> (r: u128)
        requires
            old(self).wf(),
            global_update_fits(*old(self), current_epoch),
            reward_fits(
                lend_token_amount,
                lend_epoch,
                current_epoch,
                old(self).lender_rewards_percentage_per_epoch,
            ),
            lend_token_amount * spec_after_global_update(
                *old(self),
                current_epoch,
            ).penalty_per_lend_token <= u128::MAX,
        ensures
            final(self).wf(),
            *final(self) == spec_after_global_update(*old(self), current_epoch),
            r as int == {
                let rewards = final(self).spec_lender_rewards(lend_epoch, lend_token_amount);
                let penalty = final(self).spec_penalty_amount(lend_token_amount);
                if rewards > penalty {
                    rewards - penalty
                } else {
                    0
                }
            },
    {
        self.update_global_lender_rewards(current_epoch);
        let rewards: u128 = self.get_lender_claimable_rewards(lend_epoch, &lend_token_amount);
        let penalty: u128 = self.get_penalty_amount(&lend_token_amount);
        if rewards > penalty {
            rewards - penalty
        } else {
            0
        }
    }

    /// Settles one claim against the current penalty: a claimer who opted out
    /// of penalties is refused while one is due; otherwise the penalty is
    /// deducted from the gross rewards (floored at zero), the outstanding
    /// shortfall shrinks by the amount charged, and the charge is remembered
    /// for the next penalty recomputation.
    #[verifier::rlimit(100)]
    pub fn try_claim_with_penalty(
        &mut self,
        lend_epoch: u64,
        lend_token_amount: &u128,
        opt_reject_if_penalty: Option<bool>,
    ) -> (r: Result<u128, SaError>)
        requires
            old(self).wf(),
            reward_fits(
                *lend_token_amount,
                lend_epoch,
                old(self).last_rewards_update_epoch,
                old(self).lender_rewards_percentage_per_epoch,
            ),
            *lend_token_amount * old(self).penalty_per_lend_token <= u128::MAX,
            old(self).total_missed_rewards_by_claim + old(self).spec_penalty_amount(
                *lend_token_amount,
            ) <= u128::MAX,
        ensures
            final(self).wf(),
            ({
                let rewards = old(self).spec_lender_rewards(lend_epoch, *lend_token_amount);
                let penalty = old(self).spec_penalty_amount(*lend_token_amount);
                let reject = match opt_reject_if_penalty {
                    Some(b) => b,
                    None => false,
                };
                if penalty > 0 && reject {
                    r == Err::<u128, SaError>(SaError::RewardsHavePenalty) && *final(self) == *old(
                        self,
                    )
                } else if penalty > 0 {
                    r == Ok::<u128, SaError>(
                        (if rewards > penalty {
                            rewards - penalty
                        } else {
                            0
                        }) as u128,
                    ) && *final(self) == (SavingsAccount {
                        missing_rewards: (if old(self).missing_rewards < penalty {
                            0
                        } else {
                            old(self).missing_rewards - penalty
                        }) as u128,
                        total_missed_rewards_by_claim: (old(self).total_missed_rewards_by_claim
                            + penalty) as u128,
                        ..*old(self)
                    })
                } else {
                    r == Ok::<u128, SaError>(rewards as u128) && *final(self) == *old(self)
                }
            }),
    {
        let mut rewards_amount: u128 = self.get_lender_claimable_rewards(
            lend_epoch,
            lend_token_amount,
        );
        let penalty_amount: u128 = self.get_penalty_amount(lend_token_amount);
        if penalty_amount > 0 {
            let reject: bool = match opt_reject_if_penalty {
                Some(b) => b,
                None => false,
            };
            if reject {
                return Err(SaError::RewardsHavePenalty);
            }
            if rewards_amount > penalty_amount {
                rewards_amount = rewards_amount - penalty_amount;
            } else {
                rewards_amount = 0;
            }
            // rounding the penalty up can overshoot the remaining shortfall
            // once everyone claims, so the counter floors at zero
            if self.missing_rewards < penalty_amount {
                self.missing_rewards = 0;
            } else {
                self.missing_rewards = self.missing_rewards - penalty_amount;
            }
            self.total_missed_rewards_by_claim = self.total_missed_rewards_by_claim
                + penalty_amount;
        }
        Ok(rewards_amount)
    }

    /// The machine-width bounds under which a penalty-bearing claim of
    /// `amount` cannot overflow, after the accrual pass for `current_epoch`.
    pub open spec fn claim_fits(s: SavingsAccount, amount: u128, current_epoch: u64) -> bool {
        let mid = spec_after_global_update(s, current_epoch);
        &&& global_update_fits(s, current_epoch)
        &&& forall|j: int|
            0 <= j < s.lend_token@.len() ==> reward_fits(
                amount,
                (#[trigger] s.lend_token@[j]).lend_epoch,
                current_epoch,
                s.lender_rewards_percentage_per_epoch,
            )
        &&& amount * mid.penalty_per_lend_token <= u128::MAX
        &&& mid.total_missed_rewards_by_claim + mid.spec_penalty_amount(amount) <= u128::MAX
        &&& forall|j: int|
            0 <= j < s.lend_token@.len() ==> amount + spec_reward_amount(
                amount,
                (#[trigger] s.lend_token@[j]).lend_epoch,
                current_epoch,
                s.lender_rewards_percentage_per_epoch,
            ) <= u128::MAX
    }

    /// Returns deposited principal plus any net rewards. The amount burnt
    /// must fit in the share of the pool that is not out on loan; the payout
    /// settles through the current penalty, and a claimer who opted out of
    /// penalties is refused without any state change.
    #[verifier::rlimit(100)]
    pub fn withdraw(
        &mut self,
        payment: EsdtTokenPayment,
        opt_reject_if_penalty: Option<bool>,
        current_epoch: u64,
    ) -> (r: Result<EsdtTokenPayment, SaError>)
        requires
            old(self).wf(),
            Self::claim_fits(*old(self), payment.amount, current_epoch),
        ensures
            final(self).wf(),
            r is Err ==> *final(self) == *old(self),
            ({
                let mid = spec_after_global_update(*old(self), current_epoch);
                let nonce_ok = 1 <= payment.token_nonce <= old(self).lend_token@.len();
                let slot_idx = payment.token_nonce as int - 1;
                let lend_epoch = old(self).lend_token@[slot_idx].lend_epoch;
                let rewards = mid.spec_lender_rewards(lend_epoch, payment.amount);
                let penalty = mid.spec_penalty_amount(payment.amount);
                let reject = match opt_reject_if_penalty {
                    Some(b) => b,
                    None => false,
                };
                let net = if penalty > 0 {
                    if rewards > penalty {
                        rewards - penalty
                    } else {
                        0int
                    }
                } else {
                    rewards
                };
                let total = payment.amount + net;
                if !(old(self).current_ongoing_operation is NoOperation) {
                    r == Err::<EsdtTokenPayment, SaError>(SaError::OngoingOperationInProgress)
                } else if payment.token_identifier != old(self).lend_token_id {
                    r == Err::<EsdtTokenPayment, SaError>(SaError::InvalidPayment)
                } else if !nonce_ok {
                    r == Err::<EsdtTokenPayment, SaError>(SaError::InvalidTokenNonce)
                } else if payment.amount > old(self).lent_amount - old(self).borrowed_amount {
                    r == Err::<EsdtTokenPayment, SaError>(SaError::CannotWithdrawNotEnoughFunds)
                } else if old(self).lend_token@[slot_idx].supply < payment.amount {
                    r == Err::<EsdtTokenPayment, SaError>(SaError::NotEnoughReserves)
                } else if penalty > 0 && reject {
                    r == Err::<EsdtTokenPayment, SaError>(SaError::RewardsHavePenalty)
                } else if old(self).stablecoin_balance < total {
                    r == Err::<EsdtTokenPayment, SaError>(SaError::NotEnoughReserves)
                } else {
                    &&& r == Ok::<EsdtTokenPayment, SaError>(
                        EsdtTokenPayment {
                            token_identifier: old(self).stablecoin_token_id,
                            token_nonce: 0,
                            amount: total as u128,
                        },
                    )
                    &&& *final(self) == (SavingsAccount {
                        lent_amount: (old(self).lent_amount - payment.amount) as u128,
                        stablecoin_balance: (old(self).stablecoin_balance - total) as u128,
                        missing_rewards: (if penalty > 0 {
                            if mid.missing_rewards < penalty {
                                0int
                            } else {
                                mid.missing_rewards - penalty
                            }
                        } else {
                            mid.missing_rewards as int
                        }) as u128,
                        total_missed_rewards_by_claim: (mid.total_missed_rewards_by_claim as int
                            + (if penalty > 0 {
                            penalty
                        } else {
                            0int
                        })) as u128,
                        lend_token: final(self).lend_token,
                        ..mid
                    })
                    &&& final(self).lend_token@ == mid.lend_token@.update(
                        slot_idx,
                        LendSlot {
                            lend_epoch,
                            supply: (old(self).lend_token@[slot_idx].supply
                                - payment.amount) as u128,
                        },
                    )
                }
            }),
    {
        match self.require_no_ongoing_operation() {
            Ok(()) => {},
            Err(e) => {
                return Err(e);
            },
        }
        if payment.token_identifier != self.lend_token_id {
            return Err(SaError::InvalidPayment);
        }
        if payment.token_nonce == 0 || payment.token_nonce > self.lend_token.len() as u64 {
            return Err(SaError::InvalidTokenNonce);
        }
        let slot_idx: usize = (payment.token_nonce - 1) as usize;
        let leftover_lend_amount: u128 = self.lent_amount - self.borrowed_amount;
        if payment.amount > leftover_lend_amount {
            return Err(SaError::CannotWithdrawNotEnoughFunds);
        }
        let slot = self.lend_token[slot_idx];
        if slot.supply < payment.amount {
            return Err(SaError::NotEnoughReserves);
        }

        let saved_reserves: u128 = self.stablecoin_reserves;
        let saved_missing: u128 = self.missing_rewards;
        let saved_penalty: u128 = self.penalty_per_lend_token;
        let saved_missed: u128 = self.total_missed_rewards_by_claim;
        let saved_update_epoch: u64 = self.last_rewards_update_epoch;

        self.update_global_lender_rewards(current_epoch);

        let rewards_amount: u128 = match self.try_claim_with_penalty(
            slot.lend_epoch,
            &payment.amount,
            opt_reject_if_penalty,
        ) {
            Ok(a) => a,
            Err(e) => {
                self.stablecoin_reserves = saved_reserves;
                self.missing_rewards = saved_missing;
                self.penalty_per_lend_token = saved_penalty;
                self.total_missed_rewards_by_claim = saved_missed;
                self.last_rewards_update_epoch = saved_update_epoch;
                proof {
                    assert(*self == *old(self));
                }
                return Err(e);
            },
        };
        let total_withdraw_amount: u128 = payment.amount + rewards_amount;
        if self.stablecoin_balance < total_withdraw_amount {
            self.stablecoin_reserves = saved_reserves;
            self.missing_rewards = saved_missing;
            self.penalty_per_lend_token = saved_penalty;
            self.total_missed_rewards_by_claim = saved_missed;
            self.last_rewards_update_epoch = saved_update_epoch;
            proof {
                assert(*self == *old(self));
            }
            return Err(SaError::NotEnoughReserves);
        }

        self.lend_token.set(
            slot_idx,
            LendSlot { lend_epoch: slot.lend_epoch, supply: slot.supply - payment.amount },
        );
        self.lent_amount = self.lent_amount - payment.amount;
        self.stablecoin_balance = self.stablecoin_balance - total_withdraw_amount;
        Ok(
            EsdtTokenPayment {
                token_identifier: self.stablecoin_token_id,
                token_nonce: 0,
                amount: total_withdraw_amount,
            },
        )
    }

    /// Pays a lender's accumulated rewards out and re-issues the receipt
    /// under the current epoch's nonce, so rewards restart from now. Claims
    /// that would pay nothing are refused.
    #[verifier::rlimit(100)]
    pub fn lender_claim_rewards(
        &mut self,
        payment: EsdtTokenPayment,
        opt_reject_if_penalty: Option<bool>,
        current_epoch: u64,
    ) -> (r: Result<(EsdtTokenPayment, EsdtTokenPayment), SaError>)
        requires
            old(self).wf(),
            Self::claim_fits(*old(self), payment.amount, current_epoch),
            forall|j: int| 0 <= j < old(self).lend_token@.len() ==> (#[trigger] old(
                self,
            ).lend_token@[j]).supply + payment.amount <= u128::MAX,
        ensures
            final(self).wf(),
            r is Err ==> *final(self) == *old(self),
            ({
                let mid = spec_after_global_update(*old(self), current_epoch);
                let nonce_ok = 1 <= payment.token_nonce <= old(self).lend_token@.len();
                let slot_idx = payment.token_nonce as int - 1;
                let lend_epoch = old(self).lend_token@[slot_idx].lend_epoch;
                let rewards = mid.spec_lender_rewards(lend_epoch, payment.amount);
                let penalty = mid.spec_penalty_amount(payment.amount);
                let reject = match opt_reject_if_penalty {
                    Some(b) => b,
                    None => false,
                };
                let net = if penalty > 0 {
                    if rewards > penalty {
                        rewards - penalty
                    } else {
                        0int
                    }
                } else {
                    rewards
                };
                if !(old(self).current_ongoing_operation is NoOperation) {
                    r == Err::<(EsdtTokenPayment, EsdtTokenPayment), SaError>(
                        SaError::OngoingOperationInProgress,
                    )
                } else if payment.token_identifier != old(self).lend_token_id {
                    r == Err::<(EsdtTokenPayment, EsdtTokenPayment), SaError>(
                        SaError::InvalidPayment,
                    )
                } else if !nonce_ok {
                    r == Err::<(EsdtTokenPayment, EsdtTokenPayment), SaError>(
                        SaError::InvalidTokenNonce,
                    )
                } else if lend_epoch >= current_epoch {
                    r == Err::<(EsdtTokenPayment, EsdtTokenPayment), SaError>(
                        SaError::NoRewardsToClaim,
                    )
                } else if old(self).lend_token@[slot_idx].supply < payment.amount {
                    r == Err::<(EsdtTokenPayment, EsdtTokenPayment), SaError>(
                        SaError::NotEnoughReserves,
                    )
                } else if penalty > 0 && reject {
                    r == Err::<(EsdtTokenPayment, EsdtTokenPayment), SaError>(
                        SaError::RewardsHavePenalty,
                    )
                } else if net <= 0 {
                    r == Err::<(EsdtTokenPayment, EsdtTokenPayment), SaError>(
                        SaError::NoRewardsToClaim,
                    )
                } else if old(self).stablecoin_balance < net {
                    r == Err::<(EsdtTokenPayment, EsdtTokenPayment), SaError>(
                        SaError::NotEnoughReserves,
                    )
                } else {
                    &&& r matches Ok(pair)
                    &&& ({
                        let pair = r->Ok_0;
                        &&& pair.0.token_identifier == old(self).lend_token_id
                        &&& pair.0.amount == payment.amount
                        &&& 1 <= pair.0.token_nonce <= final(self).lend_token@.len()
                        &&& final(self).lend_token@[pair.0.token_nonce as int - 1].lend_epoch
                            == current_epoch
                        &&& pair.1 == (EsdtTokenPayment {
                            token_identifier: old(self).stablecoin_token_id,
                            token_nonce: 0,
                            amount: net as u128,
                        })
                        // the ledger: the burnt nonce shrinks, this epoch's
                        // nonce (re-used or freshly appended) grows, nothing
                        // else moves
                        &&& final(self).lend_token@.len() == if old(self).spec_has_lend_epoch(
                            current_epoch,
                        ) {
                            old(self).lend_token@.len() as int
                        } else {
                            old(self).lend_token@.len() as int + 1
                        }
                        &&& (!old(self).spec_has_lend_epoch(current_epoch)
                            ==> pair.0.token_nonce as int == old(self).lend_token@.len() + 1)
                        &&& pair.0.token_nonce as int - 1 != slot_idx
                        &&& final(self).lend_token@[slot_idx] == (LendSlot {
                            lend_epoch,
                            supply: (old(self).lend_token@[slot_idx].supply
                                - payment.amount) as u128,
                        })
                        &&& final(self).lend_token@[pair.0.token_nonce as int - 1].supply as int
                            == (if pair.0.token_nonce as int - 1 < old(self).lend_token@.len() {
                            old(self).lend_token@[pair.0.token_nonce as int - 1].supply as int
                        } else {
                            0int
                        }) + payment.amount
                        &&& forall|i: int|
                            0 <= i < old(self).lend_token@.len() && i != slot_idx && i
                                != pair.0.token_nonce as int - 1 ==> final(self).lend_token@[i]
                                == old(self).lend_token@[i]
                        // every other field of the pool moves exactly as the
                        // accrual pass and the penalty settlement dictate
                        &&& *final(self) == (SavingsAccount {
                            stablecoin_balance: (old(self).stablecoin_balance - net) as u128,
                            missing_rewards: (if penalty > 0 {
                                if mid.missing_rewards < penalty {
                                    0int
                                } else {
                                    mid.missing_rewards - penalty
                                }
                            } else {
                                mid.missing_rewards as int
                            }) as u128,
                            total_missed_rewards_by_claim: (mid.total_missed_rewards_by_claim
                                as int + (if penalty > 0 {
                                penalty
                            } else {
                                0int
                            })) as u128,
                            lend_token: final(self).lend_token,
                            ..mid
                        })
                    })
                }
            }),
    {
        match self.require_no_ongoing_operation() {
            Ok(()) => {},
            Err(e) => {
                return Err(e);
            },
        }
        if payment.token_identifier != self.lend_token_id {
            return Err(SaError::InvalidPayment);
        }
        if payment.token_nonce == 0 || payment.token_nonce > self.lend_token.len() as u64 {
            return Err(SaError::InvalidTokenNonce);
        }
        let slot_idx: usize = (payment.token_nonce - 1) as usize;
        let slot = self.lend_token[slot_idx];
        if slot.lend_epoch >= current_epoch {
            return Err(SaError::NoRewardsToClaim);
        }
        if slot.supply < payment.amount {
            return Err(SaError::NotEnoughReserves);
        }

        let saved_reserves: u128 = self.stablecoin_reserves;
        let saved_missing: u128 = self.missing_rewards;
        let saved_penalty: u128 = self.penalty_per_lend_token;
        let saved_missed: u128 = self.total_missed_rewards_by_claim;
        let saved_update_epoch: u64 = self.last_rewards_update_epoch;

        self.update_global_lender_rewards(current_epoch);

        let rewards_amount: u128 = match self.try_claim_with_penalty(
            slot.lend_epoch,
            &payment.amount,
            opt_reject_if_penalty,
        ) {
            Ok(a) => a,
            Err(e) => {
                self.stablecoin_reserves = saved_reserves;
                self.missing_rewards = saved_missing;
                self.penalty_per_lend_token = saved_penalty;
                self.total_missed_rewards_by_claim = saved_missed;
                self.last_rewards_update_epoch = saved_update_epoch;
                proof {
                    assert(*self == *old(self));
                }
                return Err(e);
            },
        };
        if rewards_amount == 0 || self.stablecoin_balance < rewards_amount {
            let failure: SaError = if rewards_amount == 0 {
                SaError::NoRewardsToClaim
            } else {
                SaError::NotEnoughReserves
            };
            self.stablecoin_reserves = saved_reserves;
            self.missing_rewards = saved_missing;
            self.penalty_per_lend_token = saved_penalty;
            self.total_missed_rewards_by_claim = saved_missed;
            self.last_rewards_update_epoch = saved_update_epoch;
            proof {
                assert(*self == *old(self));
            }
            return Err(failure);
        }

        // burn the old receipt and re-issue the same amount under the nonce
        // of the current epoch
        self.lend_token.set(
            slot_idx,
            LendSlot { lend_epoch: slot.lend_epoch, supply: slot.supply - payment.amount },
        );
        let ghost after_burn: SavingsAccount = *self;
        proof {
            // burning changes a supply, never an epoch, so the set of epochs
            // with a nonce is exactly what it was before the call
            assert(after_burn.spec_has_lend_epoch(current_epoch) == old(self).spec_has_lend_epoch(
                current_epoch,
            )) by {
                if old(self).spec_has_lend_epoch(current_epoch) {
                    let w = choose|j: int|
                        0 <= j < old(self).lend_token@.len() && (#[trigger] old(
                            self,
                        ).lend_token@[j]).lend_epoch == current_epoch;
                    assert(after_burn.lend_token@[w].lend_epoch == current_epoch);
                }
                if after_burn.spec_has_lend_epoch(current_epoch) {
                    let w = choose|j: int|
                        0 <= j < after_burn.lend_token@.len() && (#[trigger] after_burn.lend_token@[j]).lend_epoch
                            == current_epoch;
                    assert(old(self).lend_token@[w].lend_epoch == current_epoch);
                }
            }
        }
        let new_nonce: u64 = self.get_or_create_lend_token_nonce(current_epoch);
        proof {
            assert(new_nonce as int - 1 < self.lend_token@.len());
            assert(self.lend_token.len() == self.lend_token@.len());
            assert(new_nonce as int - 1 != slot_idx as int);
            if new_nonce as int - 1 < after_burn.lend_token@.len() {
                assert(self.lend_token@[new_nonce as int - 1] == after_burn.lend_token@[
                    new_nonce as int - 1]);
            } else {
                assert(self.lend_token@[new_nonce as int - 1].supply == 0);
            }
        }
        let ghost after_create: SavingsAccount = *self;
        let new_slot = self.lend_token[(new_nonce - 1) as usize];
        self.lend_token.set(
            (new_nonce - 1) as usize,
            LendSlot { lend_epoch: new_slot.lend_epoch, supply: new_slot.supply + payment.amount },
        );
        self.stablecoin_balance = self.stablecoin_balance - rewards_amount;
        proof {
            assert forall|i: int|
                0 <= i < old(self).lend_token@.len() && i != slot_idx as int && i != new_nonce
                    as int - 1 implies self.lend_token@[i] == old(self).lend_token@[i] by {
                assert(self.lend_token@[i] == after_create.lend_token@[i]);
                assert(after_create.lend_token@[i] == after_burn.lend_token@[i]);
                assert(after_burn.lend_token@[i] == old(self).lend_token@[i]);
            }
        }
        Ok(
            (
                EsdtTokenPayment {
                    token_identifier: self.lend_token_id,
                    token_nonce: new_nonce,
                    amount: payment.amount,
                },
                EsdtTokenPayment {
                    token_identifier: self.stablecoin_token_id,
                    token_nonce: 0,
                    amount: rewards_amount,
                },
            ),
        )
    }

    /// The dollar value of a pledged amount at the quoted price.
    pub open spec fn spec_position_value(price: u128, amount: u128) -> int {
        spec_staking_position_value(price, amount)
    }

    /// The loan granted against a deposit value at the pool's loan-to-value.
    pub open spec fn spec_loan_for(&self, price: u128, amount: u128) -> int {
        spec_borrow_amount(
            self.loan_to_value_percentage,
            Self::spec_position_value(price, amount) as u128,
        )
    }

    /// Pledges liquid staking collateral and pays out a stablecoin loan worth
    /// the loan-to-value share of the collateral's current dollar value. The
    /// position registry gains (or re-uses, for a duplicate pledge of the
    /// same collateral reference) a position, the caller receives a borrow
    /// receipt snapshotting the price, and the pool never lends beyond its
    /// deposits.
    #[verifier::rlimit(100)]
    pub fn borrow(
        &mut self,
        payment: EsdtTokenPayment,
        staked_token_value_in_dollars: u128,
        current_epoch: u64,
    ) -> (r: Result<(EsdtTokenPayment, EsdtTokenPayment), SaError>)
        requires
            old(self).wf(),
            staked_token_value_in_dollars * payment.amount <= u128::MAX,
            old(self).loan_to_value_percentage * Self::spec_position_value(
                staked_token_value_in_dollars,
                payment.amount,
            ) <= u128::MAX,
            old(self).staking_positions.num_slots() < u32::MAX,
            forall|j: int| 0 <= j < old(self).collateral_amounts@.len() ==> #[trigger] old(
                self,
            ).collateral_amounts@[j] + payment.amount <= u128::MAX,
        ensures
            final(self).wf(),
            r is Err ==> *final(self) == *old(self),
            ({
                let value = Self::spec_position_value(staked_token_value_in_dollars, payment.amount);
                let loan = old(self).spec_loan_for(staked_token_value_in_dollars, payment.amount);
                if !(old(self).current_ongoing_operation is NoOperation) {
                    r == Err::<(EsdtTokenPayment, EsdtTokenPayment), SaError>(
                        SaError::OngoingOperationInProgress,
                    )
                } else if payment.token_identifier != old(self).liquid_staking_token_id {
                    r == Err::<(EsdtTokenPayment, EsdtTokenPayment), SaError>(
                        SaError::MayOnlyUseLiquidStakingAsCollateral,
                    )
                } else if loan <= 0 {
                    r == Err::<(EsdtTokenPayment, EsdtTokenPayment), SaError>(
                        SaError::DepositAmountTooLow,
                    )
                } else if old(self).borrowed_amount + loan > old(self).lent_amount {
                    r == Err::<(EsdtTokenPayment, EsdtTokenPayment), SaError>(
                        SaError::NotEnoughFundsToLend,
                    )
                } else if old(self).stablecoin_balance < loan {
                    r == Err::<(EsdtTokenPayment, EsdtTokenPayment), SaError>(
                        SaError::NotEnoughReserves,
                    )
                } else {
                    &&& r matches Ok(pair)
                    &&& ({
                        let pair = r->Ok_0;
                        let pos_id = final(self).borrow_token@.last().attributes.staking_position_id;
                        &&& pair.0 == (EsdtTokenPayment {
                            token_identifier: old(self).borrow_token_id,
                            token_nonce: final(self).borrow_token@.len() as u64,
                            amount: payment.amount,
                        })
                        &&& pair.1 == (EsdtTokenPayment {
                            token_identifier: old(self).stablecoin_token_id,
                            token_nonce: 0,
                            amount: loan as u128,
                        })
                        &&& final(self).borrow_token@ == old(self).borrow_token@.push(
                            BorrowSlot {
                                attributes: BorrowMetadata {
                                    staking_position_id: pos_id,
                                    borrow_epoch: current_epoch,
                                    staked_token_value_in_dollars_at_borrow:
                                        staked_token_value_in_dollars,
                                },
                                supply: payment.amount,
                            },
                        )
                        &&& StakingPositionsMapper::add_effect(
                            old(self).staking_positions,
                            final(self).staking_positions,
                            payment.token_nonce,
                            pos_id,
                        )
                        &&& final(self).borrowed_amount as int == old(self).borrowed_amount + loan
                        &&& final(self).borrowed_amount <= final(self).lent_amount
                        &&& final(self).stablecoin_balance as int == old(self).stablecoin_balance
                            - loan
                        &&& final(self).collateral_amounts@[pos_id as int] as int == (if old(
                            self,
                        ).staking_positions.has_live_nonce(payment.token_nonce) {
                            old(self).collateral_amounts@[pos_id as int] as int
                        } else {
                            0int
                        }) + payment.amount
                        &&& forall|j: int|
                            0 <= j < old(self).collateral_amounts@.len() && j != pos_id as int
                                ==> final(self).collateral_amounts@[j] == old(
                                self,
                            ).collateral_amounts@[j]
                        // every other field of the pool is untouched
                        &&& *final(self) == (SavingsAccount {
                            borrowed_amount: (old(self).borrowed_amount + loan) as u128,
                            stablecoin_balance: (old(self).stablecoin_balance - loan) as u128,
                            borrow_token: final(self).borrow_token,
                            staking_positions: final(self).staking_positions,
                            collateral_amounts: final(self).collateral_amounts,
                            ..*old(self)
                        })
                    })
                }
            }),
    {
        match self.require_no_ongoing_operation() {
            Ok(()) => {},
            Err(e) => {
                return Err(e);
            },
        }
        if payment.token_identifier != self.liquid_staking_token_id {
            return Err(SaError::MayOnlyUseLiquidStakingAsCollateral);
        }
        let staking_position_value: u128 = compute_staking_position_value(
            staked_token_value_in_dollars,
            payment.amount,
        );
        let borrow_value: u128 = compute_borrow_amount(
            self.loan_to_value_percentage,
            staking_position_value,
        );
        if borrow_value == 0 {
            return Err(SaError::DepositAmountTooLow);
        }
        if self.lent_amount - self.borrowed_amount < borrow_value {
            return Err(SaError::NotEnoughFundsToLend);
        }
        if self.stablecoin_balance < borrow_value {
            return Err(SaError::NotEnoughReserves);
        }

        let already_pledged: bool = match self.staking_positions.find_pos_id_by_nonce(
            payment.token_nonce,
        ) {
            Some(_) => true,
            None => false,
        };
        let staking_pos_id: u64 = self.staking_positions.add_staking_position(payment.token_nonce);
        proof {
            self.staking_positions.lemma_live_bounds(staking_pos_id);
        }
        if already_pledged {
            let held: u128 = self.collateral_amounts[staking_pos_id as usize];
            self.collateral_amounts.set(staking_pos_id as usize, held + payment.amount);
        } else {
            // a fresh id is one past every slot ever issued
            proof {
                assert(staking_pos_id as int == old(self).staking_positions.num_slots());
            }
            self.collateral_amounts.push(payment.amount);
        }

        self.borrow_token.push(
            BorrowSlot {
                attributes: BorrowMetadata {
                    staking_position_id: staking_pos_id,
                    borrow_epoch: current_epoch,
                    staked_token_value_in_dollars_at_borrow: staked_token_value_in_dollars,
                },
                supply: payment.amount,
            },
        );
        self.borrowed_amount = self.borrowed_amount + borrow_value;
        self.stablecoin_balance = self.stablecoin_balance - borrow_value;
        Ok(
            (
                EsdtTokenPayment {
                    token_identifier: self.borrow_token_id,
                    token_nonce: self.borrow_token.len() as u64,
                    amount: payment.amount,
                },
                EsdtTokenPayment {
                    token_identifier: self.stablecoin_token_id,
                    token_nonce: 0,
                    amount: borrow_value,
                },
            ),
        )
    }

    /// The pool's current capital utilisation.
    pub open spec fn spec_utilisation(&self) -> int {
        spec_capital_utilisation(self.borrowed_amount, self.lent_amount)
    }

    /// The borrow rate at the pool's current utilisation.
    pub open spec fn spec_current_borrow_rate(&self) -> int {
        spec_borrow_rate(
            self.pool_params.base_borrow_rate,
            self.pool_params.borrow_rate_under_opt_factor,
            self.pool_params.borrow_rate_over_opt_factor,
            self.pool_params.optimal_utilisation,
            self.spec_utilisation() as u128,
        )
    }

    /// The debt a repayment of `amount` owes right now: simple interest on
    /// the collateral's current value since the receipt's borrow epoch.
    pub open spec fn spec_repay_debt(&self, slot_idx: int, amount: u128, price: u128, current_epoch: u64) -> int {
        spec_debt(
            Self::spec_position_value(price, amount) as u128,
            self.borrow_token@[slot_idx].attributes.borrow_epoch,
            current_epoch,
            self.spec_current_borrow_rate() as u128,
        )
    }

    /// The machine-width bounds under which a repayment cannot overflow.
    pub open spec fn repay_fits(s: SavingsAccount, amount: u128, price: u128, current_epoch: u64) -> bool {
        let value = Self::spec_position_value(price, amount);
        &&& s.borrowed_amount * BASE_PRECISION <= u128::MAX
        &&& price * amount <= u128::MAX
        &&& (s.lent_amount > 0 ==> {
            let rate = s.spec_current_borrow_rate();
            &&& (s.spec_utilisation() < s.pool_params.optimal_utilisation
                || s.pool_params.optimal_utilisation < BASE_PRECISION)
            &&& borrow_rate_fits(
                s.pool_params.base_borrow_rate,
                s.pool_params.borrow_rate_under_opt_factor,
                s.pool_params.borrow_rate_over_opt_factor,
                s.pool_params.optimal_utilisation,
                s.spec_utilisation() as u128,
            )
            &&& forall|j: int|
                0 <= j < s.borrow_token@.len() ==> {
                    let epoch = (#[trigger] s.borrow_token@[j]).attributes.borrow_epoch;
                    &&& epoch <= current_epoch
                    &&& debt_fits(value as u128, epoch, current_epoch, rate as u128)
                    &&& value + spec_debt(value as u128, epoch, current_epoch, rate as u128)
                        <= u128::MAX
                    &&& s.stablecoin_reserves + value + spec_debt(
                        value as u128,
                        epoch,
                        current_epoch,
                        rate as u128,
                    ) <= u128::MAX
                    &&& s.stablecoin_balance + value + spec_debt(
                        value as u128,
                        epoch,
                        current_epoch,
                        rate as u128,
                    ) <= u128::MAX
                }
        })
        &&& forall|j: int|
            0 <= j < s.borrow_token@.len() ==> (#[trigger] s.borrow_token@[j]).attributes.staked_token_value_in_dollars_at_borrow
                * amount <= u128::MAX
    }

    /// Settles a borrow receipt: the payment must cover the collateral's
    /// current value plus the accrued debt; the loan principal is restored by
    /// the value the receipt was opened at, everything above the restored
    /// principal feeds the reserves, the overpayment goes straight back, and
    /// the pledged collateral is released — unlinking its registry position
    /// entirely once its balance reaches zero.
    #[verifier::rlimit(100)]
    pub fn repay(
        &mut self,
        first_payment: EsdtTokenPayment,
        second_payment: EsdtTokenPayment,
        staked_token_value_in_dollars: u128,
        current_epoch: u64,
    ) -> (r: Result<(EsdtTokenPayment, EsdtTokenPayment), SaError>)
        requires
            old(self).wf(),
            Self::repay_fits(
                *old(self),
                second_payment.amount,
                staked_token_value_in_dollars,
                current_epoch,
            ),
        ensures
            final(self).wf(),
            r is Err ==> *final(self) == *old(self),
            ({
                let amount = second_payment.amount;
                let nonce_ok = 1 <= second_payment.token_nonce <= old(self).borrow_token@.len();
                let slot_idx = second_payment.token_nonce as int - 1;
                let slot = old(self).borrow_token@[slot_idx];
                let value = Self::spec_position_value(staked_token_value_in_dollars, amount);
                let debt = old(self).spec_repay_debt(
                    slot_idx,
                    amount,
                    staked_token_value_in_dollars,
                    current_epoch,
                );
                let total_needed = value + debt;
                let repaid = Self::spec_position_value(
                    slot.attributes.staked_token_value_in_dollars_at_borrow,
                    amount,
                );
                let pos_id = slot.attributes.staking_position_id;
                if !(old(self).current_ongoing_operation is NoOperation) {
                    r == Err::<(EsdtTokenPayment, EsdtTokenPayment), SaError>(
                        SaError::OngoingOperationInProgress,
                    )
                } else if first_payment.token_identifier != old(self).stablecoin_token_id {
                    r == Err::<(EsdtTokenPayment, EsdtTokenPayment), SaError>(
                        SaError::InvalidPayment,
                    )
                } else if second_payment.token_identifier != old(self).borrow_token_id {
                    r == Err::<(EsdtTokenPayment, EsdtTokenPayment), SaError>(
                        SaError::InvalidPayment,
                    )
                } else if !nonce_ok {
                    r == Err::<(EsdtTokenPayment, EsdtTokenPayment), SaError>(
                        SaError::InvalidTokenNonce,
                    )
                } else if slot.supply < amount {
                    r == Err::<(EsdtTokenPayment, EsdtTokenPayment), SaError>(
                        SaError::NotEnoughReserves,
                    )
                } else if old(self).lent_amount == 0 {
                    r == Err::<(EsdtTokenPayment, EsdtTokenPayment), SaError>(
                        SaError::DivisionByZero,
                    )
                } else if first_payment.amount < total_needed {
                    r == Err::<(EsdtTokenPayment, EsdtTokenPayment), SaError>(
                        SaError::NotEnoughStablecoinsPaid,
                    )
                } else if repaid > old(self).borrowed_amount {
                    r == Err::<(EsdtTokenPayment, EsdtTokenPayment), SaError>(
                        SaError::NotEnoughReserves,
                    )
                } else if !old(self).staking_positions.is_live(pos_id) {
                    r == Err::<(EsdtTokenPayment, EsdtTokenPayment), SaError>(
                        SaError::InvalidStakingPositionId,
                    )
                } else if old(self).collateral_amounts@[pos_id as int] < amount {
                    r == Err::<(EsdtTokenPayment, EsdtTokenPayment), SaError>(
                        SaError::NotEnoughReserves,
                    )
                } else {
                    let liquid_staking_nonce = old(self).staking_positions.spec_nonce(pos_id);
                    let full = old(self).collateral_amounts@[pos_id as int] == amount;
                    &&& r matches Ok(pair)
                    &&& ({
                        let pair = r->Ok_0;
                        &&& pair.0 == (EsdtTokenPayment {
                            token_identifier: old(self).liquid_staking_token_id,
                            token_nonce: liquid_staking_nonce,
                            amount,
                        })
                        &&& pair.1 == (EsdtTokenPayment {
                            token_identifier: old(self).stablecoin_token_id,
                            token_nonce: 0,
                            amount: (first_payment.amount - total_needed) as u128,
                        })
                        &&& final(self).borrowed_amount as int == old(self).borrowed_amount - repaid
                        &&& final(self).stablecoin_reserves as int == old(self).stablecoin_reserves
                            + (if total_needed > repaid {
                            total_needed - repaid
                        } else {
                            0int
                        })
                        &&& final(self).stablecoin_balance as int == old(self).stablecoin_balance
                            + total_needed
                        &&& final(self).borrow_token@ == old(self).borrow_token@.update(
                            slot_idx,
                            BorrowSlot {
                                attributes: slot.attributes,
                                supply: (slot.supply - amount) as u128,
                            },
                        )
                        &&& (full ==> StakingPositionsMapper::remove_effect(
                            old(self).staking_positions,
                            final(self).staking_positions,
                            pos_id,
                        ) && final(self).collateral_amounts@ == old(
                            self,
                        ).collateral_amounts@.update(pos_id as int, 0u128))
                        &&& (!full ==> final(self).staking_positions == old(self).staking_positions
                            && final(self).collateral_amounts@ == old(
                            self,
                        ).collateral_amounts@.update(
                            pos_id as int,
                            (old(self).collateral_amounts@[pos_id as int] - amount) as u128,
                        ))
                        &&& final(self).lent_amount == old(self).lent_amount
                        &&& final(self).lend_token == old(self).lend_token
                        &&& final(self).missing_rewards == old(self).missing_rewards
                        &&& final(self).penalty_per_lend_token == old(self).penalty_per_lend_token
                        &&& final(self).total_missed_rewards_by_claim == old(
                            self,
                        ).total_missed_rewards_by_claim
                        &&& final(self).last_rewards_update_epoch == old(
                            self,
                        ).last_rewards_update_epoch
                        &&& final(self).current_ongoing_operation == old(
                            self,
                        ).current_ongoing_operation
                    })
                }
            }),
    {
        match self.require_no_ongoing_operation() {
            Ok(()) => {},
            Err(e) => {
                return Err(e);
            },
        }
        if first_payment.token_identifier != self.stablecoin_token_id {
            return Err(SaError::InvalidPayment);
        }
        if second_payment.token_identifier != self.borrow_token_id {
            return Err(SaError::InvalidPayment);
        }
        if second_payment.token_nonce == 0 || second_payment.token_nonce
            > self.borrow_token.len() as u64 {
            return Err(SaError::InvalidTokenNonce);
        }
        let slot_idx: usize = (second_payment.token_nonce - 1) as usize;
        let slot = self.borrow_token[slot_idx];
        let borrow_token_amount: u128 = second_payment.amount;
        if slot.supply < borrow_token_amount {
            return Err(SaError::NotEnoughReserves);
        }

        let current_utilisation: u128 = match compute_capital_utilisation(
            self.borrowed_amount,
            self.lent_amount,
        ) {
            Ok(u) => u,
            Err(e) => {
                return Err(e);
            },
        };
        let borrow_rate: u128 = compute_borrow_rate(
            self.pool_params.base_borrow_rate,
            self.pool_params.borrow_rate_under_opt_factor,
            self.pool_params.borrow_rate_over_opt_factor,
            self.pool_params.optimal_utilisation,
            current_utilisation,
        );
        let staking_position_current_value: u128 = compute_staking_position_value(
            staked_token_value_in_dollars,
            borrow_token_amount,
        );
        let debt: u128 = compute_debt(
            staking_position_current_value,
            slot.attributes.borrow_epoch,
            current_epoch,
            borrow_rate,
        );
        let total_stablecoins_needed: u128 = staking_position_current_value + debt;
        if first_payment.amount < total_stablecoins_needed {
            return Err(SaError::NotEnoughStablecoinsPaid);
        }

        // the repaid value is measured at the price snapshotted when the loan
        // was opened, so `borrowed_amount` shrinks by what it grew by
        let borrow_amount_repaid: u128 = compute_staking_position_value(
            slot.attributes.staked_token_value_in_dollars_at_borrow,
            borrow_token_amount,
        );
        if borrow_amount_repaid > self.borrowed_amount {
            return Err(SaError::NotEnoughReserves);
        }

        let pos_id: u64 = slot.attributes.staking_position_id;
        let position = match self.staking_positions.get_staking_position(pos_id) {
            Ok(p) => p,
            Err(e) => {
                return Err(e);
            },
        };
        proof {
            self.staking_positions.lemma_live_bounds(pos_id);
        }
        let held: u128 = self.collateral_amounts[pos_id as usize];
        if held < borrow_token_amount {
            return Err(SaError::NotEnoughReserves);
        }

        self.borrowed_amount = self.borrowed_amount - borrow_amount_repaid;
        if total_stablecoins_needed > borrow_amount_repaid {
            let extra_reserves: u128 = total_stablecoins_needed - borrow_amount_repaid;
            self.stablecoin_reserves = self.stablecoin_reserves + extra_reserves;
        }
        self.stablecoin_balance = self.stablecoin_balance + total_stablecoins_needed;
        self.borrow_token.set(
            slot_idx,
            BorrowSlot { attributes: slot.attributes, supply: slot.supply - borrow_token_amount },
        );

        if held == borrow_token_amount {
            // the position's collateral is exhausted: unlink and clear it
            match self.staking_positions.remove_staking_position(pos_id) {
                Ok(()) => {},
                Err(_) => {
                    proof {
                        assert(false);
                    }
                },
            }
            self.collateral_amounts.set(pos_id as usize, 0);
        } else {
            self.collateral_amounts.set(pos_id as usize, held - borrow_token_amount);
        }

        let extra_stablecoins_paid: u128 = first_payment.amount - total_stablecoins_needed;
        Ok(
            (
                EsdtTokenPayment {
                    token_identifier: self.liquid_staking_token_id,
                    token_nonce: position.liquid_staking_nonce,
                    amount: borrow_token_amount,
                },
                EsdtTokenPayment {
                    token_identifier: self.stablecoin_token_id,
                    token_nonce: 0,
                    amount: extra_stablecoins_paid,
                },
            ),
        )
    }

    /// Decides whether every lend receipt nonce can absorb this payment
    /// without leaving the machine width.
    #[verifier::rlimit(100)]
    pub fn check_lend_supplies_fit(&self, payment_amount: u128) -> (r: bool)
        ensures
            r == (forall|j: int|
                0 <= j < self.lend_token@.len() ==> (#[trigger] self.lend_token@[j]).supply
                    + payment_amount <= u128::MAX),
    {
        let n: usize = self.lend_token.len();
        let mut j: usize = 0;
        while j < n
            invariant
                0 <= j <= n,
                n == self.lend_token@.len(),
                forall|i: int|
                    0 <= i < j ==> (#[trigger] self.lend_token@[i]).supply + payment_amount
                        <= u128::MAX,
            decreases n - j,
        {
            if payment_amount > u128::MAX - self.lend_token[j].supply {
                return false;
            }
            j += 1;
        }
        true
    }

    /// Decides, without changing anything, whether a penalty-bearing claim of
    /// `amount` at `current_epoch` stays within the machine width.
    #[verifier::rlimit(100)]
    pub fn check_claim_fits(&self, amount: u128, current_epoch: u64) -> (r: bool)
        ensures
            r == Self::claim_fits(*self, amount, current_epoch),
    {
        if !self.check_global_update_fits(current_epoch) {
            return false;
        }
        let penalty_mid: u128 = self.penalty_after_update(current_epoch);
        let missed_mid: u128 = if self.last_rewards_update_epoch < current_epoch {
            0
        } else {
            self.total_missed_rewards_by_claim
        };
        proof {
            let mid = spec_after_global_update(*self, current_epoch);
            assert(mid.penalty_per_lend_token == penalty_mid);
            assert(mid.total_missed_rewards_by_claim == missed_mid);
        }

        let rate: u128 = self.lender_rewards_percentage_per_epoch;
        let n: usize = self.lend_token.len();
        let mut j: usize = 0;
        while j < n
            invariant
                0 <= j <= n,
                n == self.lend_token@.len(),
                rate == self.lender_rewards_percentage_per_epoch,
                forall|i: int|
                    0 <= i < j ==> reward_fits(
                        amount,
                        (#[trigger] self.lend_token@[i]).lend_epoch,
                        current_epoch,
                        self.lender_rewards_percentage_per_epoch,
                    ),
                forall|i: int|
                    0 <= i < j ==> amount + spec_reward_amount(
                        amount,
                        (#[trigger] self.lend_token@[i]).lend_epoch,
                        current_epoch,
                        self.lender_rewards_percentage_per_epoch,
                    ) <= u128::MAX,
            decreases n - j,
        {
            let lend_epoch: u64 = self.lend_token[j].lend_epoch;
            if lend_epoch < current_epoch {
                let diff: u64 = current_epoch - lend_epoch;
                if !crate::math::mul_fits(diff as u128, rate) {
                    return false;
                }
                if !crate::math::mul_fits((diff as u128) * rate, amount) {
                    return false;
                }
            }
            let reward: u128 = compute_reward_amount(amount, lend_epoch, current_epoch, rate);
            if amount > u128::MAX - reward {
                return false;
            }
            j += 1;
        }

        if !crate::math::mul_fits(amount, penalty_mid) {
            return false;
        }
        let penalty_amount: u128 = if penalty_mid == 0 {
            0
        } else {
            (amount * penalty_mid) / DEFAULT_DECIMALS
        };
        if missed_mid > u128::MAX - penalty_amount {
            return false;
        }
        true
    }

    /// Decides, without changing anything, whether a pledge of this size at
    /// the quoted price stays within the machine width.
    #[verifier::rlimit(100)]
    pub fn check_borrow_fits(&self, payment_amount: u128, price: u128) -> (r: bool)
        requires
            self.wf(),
        ensures
            r == (price * payment_amount <= u128::MAX && self.loan_to_value_percentage
                * Self::spec_position_value(price, payment_amount) <= u128::MAX
                && self.staking_positions.num_slots() < u32::MAX && (forall|j: int|
                0 <= j < self.collateral_amounts@.len() ==> #[trigger] self.collateral_amounts@[j]
                    + payment_amount <= u128::MAX)),
    {
        if !crate::math::mul_fits(price, payment_amount) {
            return false;
        }
        let value: u128 = compute_staking_position_value(price, payment_amount);
        if !crate::math::mul_fits(self.loan_to_value_percentage, value) {
            return false;
        }
        if self.collateral_amounts.len() >= u32::MAX as usize {
            return false;
        }
        let n: usize = self.collateral_amounts.len();
        let mut j: usize = 0;
        while j < n
            invariant
                0 <= j <= n,
                n == self.collateral_amounts@.len(),
                forall|i: int|
                    0 <= i < j ==> #[trigger] self.collateral_amounts@[i] + payment_amount
                        <= u128::MAX,
            decreases n - j,
        {
            if payment_amount > u128::MAX - self.collateral_amounts[j] {
                return false;
            }
            j += 1;
        }
        true
    }

    /// Decides, without changing anything, whether settling a borrow receipt
    /// of this size at the quoted price stays within the machine width.
    #[verifier::rlimit(100)]
    pub fn check_repay_fits(&self, amount: u128, price: u128, current_epoch: u64) -> (r: bool)
        ensures
            r == Self::repay_fits(*self, amount, price, current_epoch),
    {
        if !crate::math::mul_fits(self.borrowed_amount, BASE_PRECISION) {
            return false;
        }
        if !crate::math::mul_fits(price, amount) {
            return false;
        }

        // the price snapshot of every receipt must multiply safely as well
        let n: usize = self.borrow_token.len();
        let mut j: usize = 0;
        while j < n
            invariant
                0 <= j <= n,
                n == self.borrow_token@.len(),
                forall|i: int|
                    0 <= i < j ==> (#[trigger] self.borrow_token@[i]).attributes.staked_token_value_in_dollars_at_borrow
                        * amount <= u128::MAX,
            decreases n - j,
        {
            if !crate::math::mul_fits(
                self.borrow_token[j].attributes.staked_token_value_in_dollars_at_borrow,
                amount,
            ) {
                return false;
            }
            j += 1;
        }

        if self.lent_amount == 0 {
            return true;
        }

        let utilisation: u128 = match compute_capital_utilisation(
            self.borrowed_amount,
            self.lent_amount,
        ) {
            Ok(u) => u,
            Err(_) => {
                proof {
                    assert(false);
                }
                return false;
            },
        };
        let params = self.pool_params;
        if !(utilisation < params.optimal_utilisation || params.optimal_utilisation
            < BASE_PRECISION) {
            return false;
        }
        if !crate::math::mul_fits(utilisation, params.borrow_rate_under_opt_factor) {
            return false;
        }
        if utilisation >= params.optimal_utilisation && !crate::math::mul_fits(
            utilisation - params.optimal_utilisation,
            params.borrow_rate_over_opt_factor,
        ) {
            return false;
        }
        // the rate value itself must fit
        let rate_tail: u128 = if utilisation < params.optimal_utilisation {
            (utilisation * params.borrow_rate_under_opt_factor) / params.optimal_utilisation
        } else {
            if params.base_borrow_rate > u128::MAX - params.borrow_rate_under_opt_factor {
                return false;
            }
            (utilisation - params.optimal_utilisation) * params.borrow_rate_over_opt_factor
                / (BASE_PRECISION - params.optimal_utilisation)
        };
        let rate_head: u128 = if utilisation < params.optimal_utilisation {
            params.base_borrow_rate
        } else {
            params.base_borrow_rate + params.borrow_rate_under_opt_factor
        };
        if rate_head > u128::MAX - rate_tail {
            return false;
        }
        let rate: u128 = compute_borrow_rate(
            params.base_borrow_rate,
            params.borrow_rate_under_opt_factor,
            params.borrow_rate_over_opt_factor,
            params.optimal_utilisation,
            utilisation,
        );
        let value: u128 = compute_staking_position_value(price, amount);

        let mut k: usize = 0;
        while k < n
            invariant
                0 <= k <= n,
                n == self.borrow_token@.len(),
                self.lent_amount > 0,
                rate as int == self.spec_current_borrow_rate(),
                value as int == Self::spec_position_value(price, amount),
                price * amount <= u128::MAX,
                forall|i: int|
                    0 <= i < k ==> {
                        let epoch = (#[trigger] self.borrow_token@[i]).attributes.borrow_epoch;
                        &&& epoch <= current_epoch
                        &&& debt_fits(value as u128, epoch, current_epoch, rate as u128)
                        &&& Self::spec_position_value(price, amount) + spec_debt(
                            value as u128,
                            epoch,
                            current_epoch,
                            rate as u128,
                        ) <= u128::MAX
                        &&& self.stablecoin_reserves + Self::spec_position_value(price, amount)
                            + spec_debt(value as u128, epoch, current_epoch, rate as u128)
                            <= u128::MAX
                        &&& self.stablecoin_balance + Self::spec_position_value(price, amount)
                            + spec_debt(value as u128, epoch, current_epoch, rate as u128)
                            <= u128::MAX
                    },
            decreases n - k,
        {
            let borrow_epoch: u64 = self.borrow_token[k].attributes.borrow_epoch;
            if borrow_epoch > current_epoch {
                return false;
            }
            let diff: u64 = current_epoch - borrow_epoch;
            proof {
                assert((diff as u128) * BASE_PRECISION <= u128::MAX) by (nonlinear_arith)
                    requires
                        diff as int <= u64::MAX,
                        BASE_PRECISION == 1_000_000_000u128,
                ;
            }
            let time_unit_percentage: u128 = ((diff as u128) * BASE_PRECISION) / EPOCHS_IN_YEAR;
            if !crate::math::mul_fits(time_unit_percentage, rate) {
                return false;
            }
            let debt_percentage: u128 = (time_unit_percentage * rate) / BASE_PRECISION;
            if !crate::math::mul_fits(debt_percentage, value) {
                return false;
            }
            let debt: u128 = compute_debt(value, borrow_epoch, current_epoch, rate);
            if value > u128::MAX - debt {
                return false;
            }
            if self.stablecoin_reserves > u128::MAX - (value + debt) {
                return false;
            }
            if self.stablecoin_balance > u128::MAX - (value + debt) {
                return false;
            }
            k += 1;
        }
        true
    }

    /// Resolves the oracle's optional quote; a missing price is a recoverable
    /// condition the caller must treat as a rejection.
    pub fn get_staked_token_value_in_dollars(&self, opt_price: Option<u128>) -> (r: Result<
        u128,
        SaError,
    >)
        ensures
            match opt_price {
                Some(p) => r == Ok::<u128, SaError>(p),
                None => r == Err::<u128, SaError>(SaError::FailedToGetStakedTokenPrice),
            },
    {
        match opt_price {
            Some(p) => Ok(p),
            None => Err(SaError::FailedToGetStakedTokenPrice),
        }
    }

    /// The collateral amount the pool holds for the position carrying this
    /// liquid staking nonce, 0 when no live position carries it.
    pub fn get_staking_amount_for_position(&self, liquid_staking_token_nonce: u64) -> (r: u128)
        requires
            self.wf(),
        ensures
            self.staking_positions.has_live_nonce(liquid_staking_token_nonce) ==> exists|id: u64|
                #[trigger] self.staking_positions.is_live(id) && self.staking_positions.spec_nonce(
                    id,
                ) == liquid_staking_token_nonce && r == self.collateral_amounts@[id as int],
            !self.staking_positions.has_live_nonce(liquid_staking_token_nonce) ==> r == 0,
    {
        match self.staking_positions.find_pos_id_by_nonce(liquid_staking_token_nonce) {
            Some(id) => {
                proof {
                    self.staking_positions.lemma_live_bounds(id);
                }
                let r = self.collateral_amounts[id as usize];
                proof {
                    assert(self.staking_positions.is_live(id) && self.staking_positions.spec_nonce(
                        id,
                    ) == liquid_staking_token_nonce && r == self.collateral_amounts@[id as int]);
                }
                r
            },
            None => 0,
        }
    }
}

} // verus!
