use vstd::prelude::*;

use crate::math::{
    compute_reward_amount, reward_fits, spec_reward_amount, DEFAULT_DECIMALS,
};
use crate::model::{EsdtTokenPayment, OperationCompletionStatus, SaError};
use crate::ongoing_operation::{LoopOp, OngoingOperationType, NR_ROUNDS_WAIT_FOR_CALLBACK};
use crate::staking_positions_mapper::{last_of, next_in};
use crate::SavingsAccount;

verus! {

/// Gas set aside per batched token so the remote call itself can be paid for.
pub const STAKING_REWARDS_CLAIM_GAS_PER_TOKEN: u64 = 10_000_000;

/// Where the next claim pass begins in the registry order: at the front for a
/// fresh operation, or right behind the saved cursor of a paused one.
pub open spec fn claim_start_index(s: SavingsAccount) -> int {
    match s.current_ongoing_operation {
        OngoingOperationType::NoOperation => 0,
        OngoingOperationType::ClaimStakingRewards { pos_id, .. } => s.staking_positions.order().index_of(
            pos_id,
        ) + 1,
    }
}

/// The gas left in the model after `steps` loop steps, each costing the
/// measured per-step amount; the meter floors at zero.
pub open spec fn gas_model_after(gas_left: u64, gas_per_iteration: u64, steps: int) -> int
    decreases steps,
{
    if steps <= 0 {
        gas_left as int
    } else {
        let prev = gas_model_after(gas_left, gas_per_iteration, steps - 1);
        if prev > gas_per_iteration {
            prev - gas_per_iteration
        } else {
            0
        }
    }
}

/// Whether the budget lets a claim pass continue past the item at place `k`
/// of its batch: the meter after `k` steps must still cover one more step,
/// the per-token reserve for `k + 2` batched tokens, and saving the
/// checkpoint.
pub open spec fn claim_step_allowed(gas_left: u64, gas_per_iteration: u64, k: int) -> bool {
    gas_model_after(gas_left, gas_per_iteration, k)
        > crate::ongoing_operation::MIN_GAS_TO_SAVE_PROGRESS + gas_per_iteration + (k + 2)
        * STAKING_REWARDS_CLAIM_GAS_PER_TOKEN
}

/// What one claim pass does: it reads one contiguous run of the registry
/// order, starting right where the previous pass stopped, touches nothing
/// else, and parks the cursor on the last position it read. Work is never
/// skipped and never repeated.
pub open spec fn claim_batch_effect(
    pre: SavingsAccount,
    post: SavingsAccount,
    batch: Seq<u64>,
    current_round: u64,
) -> bool {
    let ord = pre.staking_positions.order();
    let start = claim_start_index(pre);
    &&& batch.len() >= 1
    &&& 0 <= start
    &&& start + batch.len() <= ord.len()
    &&& batch == ord.subrange(start, start + batch.len())
    &&& post == (SavingsAccount {
        current_ongoing_operation: OngoingOperationType::ClaimStakingRewards {
            pos_id: batch.last(),
            async_call_fire_round: current_round,
            callback_executed: false,
        },
        ..pre
    })
}

/// What a successful reconciliation pass keeps fixed: the list order and the
/// claim cursor. Only the cursor's progress marker and the epoch clock move
/// (together with the rotated references themselves).
pub open spec fn callback_kept_cursor(pre: SavingsAccount, post: SavingsAccount) -> bool {
    &&& post.staking_positions.order() == pre.staking_positions.order()
    &&& match (pre.current_ongoing_operation, post.current_ongoing_operation) {
        (
            OngoingOperationType::ClaimStakingRewards { pos_id: p0, .. },
            OngoingOperationType::ClaimStakingRewards { pos_id: p1, .. },
        ) => p0 == p1,
        _ => false,
    }
}

/// Budget-boundedness: however the budget interrupts the work, two claim
/// passes separated by a reconciliation that kept the cursor cover exactly
/// one contiguous run of the registry order — the same positions, in the
/// same order, that one unbounded pass would have covered.
pub proof fn lemma_claim_batches_compose(
    s0: SavingsAccount,
    s1: SavingsAccount,
    s2: SavingsAccount,
    s3: SavingsAccount,
    b1: Seq<u64>,
    b2: Seq<u64>,
    r1: u64,
    r2: u64,
)
    requires
        s0.staking_positions.wf(),
        claim_batch_effect(s0, s1, b1, r1),
        callback_kept_cursor(s1, s2),
        claim_batch_effect(s2, s3, b2, r2),
    ensures
        b1 + b2 == s0.staking_positions.order().subrange(
            claim_start_index(s0),
            claim_start_index(s0) + b1.len() + b2.len(),
        ),
{
    let ord = s0.staking_positions.order();
    let start = claim_start_index(s0);
    assert(s1.staking_positions == s0.staking_positions);
    assert(s2.staking_positions.order() == ord);
    // the reconciliation kept the cursor on the last batched position, so the
    // second pass starts exactly one past it
    let cursor = b1.last();
    assert(cursor == ord[start + b1.len() - 1]);
    assert(claim_start_index(s2) == ord.index_of(cursor) + 1);
    s0.staking_positions.lemma_registry_consistency();
    assert(ord.contains(cursor));
    let j = ord.index_of(cursor);
    assert(0 <= j < ord.len() && ord[j] == cursor);
    assert(j == start + b1.len() - 1) by {
        if j != start + b1.len() - 1 {
            assert(ord[j] != ord[start + b1.len() - 1]);
        }
    }
    assert(b2 == ord.subrange(start + b1.len(), start + b1.len() + b2.len()));
    assert((b1 + b2) =~= ord.subrange(start, start + b1.len() + b2.len()));
}

/// The collateral reference a position holds after the first `upto` batch
/// entries have been applied: the last entry naming it wins, otherwise the
/// reference it held before.
pub open spec fn nonce_after(
    pre_nonce: u64,
    pos_ids: Seq<u64>,
    toks: Seq<EsdtTokenPayment>,
    upto: int,
    id: u64,
) -> u64
    decreases upto,
{
    if upto <= 0 {
        pre_nonce
    } else if pos_ids[upto - 1] == id {
        toks[upto - 1].token_nonce
    } else {
        nonce_after(pre_nonce, pos_ids, toks, upto - 1, id)
    }
}

/// After any prefix of the batch, a position's reference is either still its
/// old one or the new reference of some batch entry naming it.
pub proof fn lemma_nonce_after_cases(
    pre_nonce: u64,
    pos_ids: Seq<u64>,
    toks: Seq<EsdtTokenPayment>,
    upto: int,
    id: u64,
)
    requires
        0 <= upto <= pos_ids.len(),
        toks.len() == pos_ids.len(),
    ensures
        nonce_after(pre_nonce, pos_ids, toks, upto, id) == pre_nonce || exists|j: int|
            0 <= j < upto && #[trigger] pos_ids[j] == id && nonce_after(
                pre_nonce,
                pos_ids,
                toks,
                upto,
                id,
            ) == toks[j].token_nonce,
    decreases upto,
{
    if upto > 0 {
        if pos_ids[upto - 1] == id {
            assert(pos_ids[upto - 1] == id && nonce_after(pre_nonce, pos_ids, toks, upto, id)
                == toks[upto - 1].token_nonce);
        } else {
            lemma_nonce_after_cases(pre_nonce, pos_ids, toks, upto - 1, id);
        }
    }
}

/// The collateral amount a position holds after the first `upto` batch
/// entries have been applied.
pub open spec fn amount_after(
    pre_amount: u128,
    pos_ids: Seq<u64>,
    toks: Seq<EsdtTokenPayment>,
    upto: int,
    id: u64,
) -> u128
    decreases upto,
{
    if upto <= 0 {
        pre_amount
    } else if pos_ids[upto - 1] == id {
        toks[upto - 1].amount
    } else {
        amount_after(pre_amount, pos_ids, toks, upto - 1, id)
    }
}

/// A returned batch the reconciliation can apply atomically: every recorded
/// id is live, ids and new references are duplicate-free, and no new
/// reference collides with a position outside the batch entry it belongs to.
pub open spec fn reconcile_batch_valid(
    s: SavingsAccount,
    pos_ids: Seq<u64>,
    toks: Seq<EsdtTokenPayment>,
) -> bool {
    &&& forall|i: int| 0 <= i < pos_ids.len() ==> s.staking_positions.is_live(#[trigger] pos_ids[i])
    &&& forall|i: int, j: int|
        0 <= i < j < pos_ids.len() ==> #[trigger] pos_ids[i] != #[trigger] pos_ids[j]
    &&& forall|i: int, j: int|
        0 <= i < j < toks.len() ==> (#[trigger] toks[i]).token_nonce != (
        #[trigger] toks[j]).token_nonce
    &&& forall|i: int, id2: u64|
        0 <= i < toks.len() && #[trigger] s.staking_positions.is_live(id2) && id2 != pos_ids[i]
            ==> s.staking_positions.spec_nonce(id2) != (#[trigger] toks[i]).token_nonce
}

/// What a successful reconciliation does: every batched position carries its
/// new collateral reference and amount, everything else is untouched, and the
/// operation completes exactly when the cursor had reached the tail.
pub open spec fn reconcile_effect(
    pre: SavingsAccount,
    post: SavingsAccount,
    pos_ids: Seq<u64>,
    toks: Seq<EsdtTokenPayment>,
    current_epoch: u64,
) -> bool {
    let n = pos_ids.len() as int;
    let cursor = pre.current_ongoing_operation->pos_id;
    let fire_round = pre.current_ongoing_operation->async_call_fire_round;
    let completed = cursor == last_of(pre.staking_positions.order());
    &&& post.staking_positions.order() == pre.staking_positions.order()
    &&& post.staking_positions.num_slots() == pre.staking_positions.num_slots()
    &&& forall|id: u64|
        post.staking_positions.is_live(id) <==> pre.staking_positions.is_live(id)
    &&& forall|id: u64|
        #[trigger] post.staking_positions.is_live(id) ==> post.staking_positions.spec_nonce(id)
            == nonce_after(pre.staking_positions.spec_nonce(id), pos_ids, toks, n, id)
    &&& forall|m: int|
        0 <= m < pre.collateral_amounts@.len() ==> #[trigger] post.collateral_amounts@[m]
            == amount_after(pre.collateral_amounts@[m], pos_ids, toks, n, m as u64)
    &&& post.current_ongoing_operation == if completed {
        OngoingOperationType::NoOperation
    } else {
        OngoingOperationType::ClaimStakingRewards {
            pos_id: cursor,
            async_call_fire_round: fire_round,
            callback_executed: true,
        }
    }
    &&& post.last_staking_rewards_claim_epoch == if completed {
        current_epoch
    } else {
        pre.last_staking_rewards_claim_epoch
    }
    &&& post == (SavingsAccount {
        staking_positions: post.staking_positions,
        collateral_amounts: post.collateral_amounts,
        current_ongoing_operation: post.current_ongoing_operation,
        last_staking_rewards_claim_epoch: post.last_staking_rewards_claim_epoch,
        ..pre
    })
}

/// An interrupted reconciliation hands the next claim pass exactly the cursor
/// the previous pass parked.
pub proof fn lemma_reconcile_keeps_cursor(
    pre: SavingsAccount,
    post: SavingsAccount,
    pos_ids: Seq<u64>,
    toks: Seq<EsdtTokenPayment>,
    current_epoch: u64,
)
    requires
        pre.current_ongoing_operation is ClaimStakingRewards,
        reconcile_effect(pre, post, pos_ids, toks, current_epoch),
        post.current_ongoing_operation is ClaimStakingRewards,
    ensures
        callback_kept_cursor(pre, post),
{
}

/// Ceiling division written as the executable code computes it.
pub open spec fn ceil_div(a: int, b: int) -> int {
    (a + b - 1) / b
}

/// Rounding a quotient up never loses value: the ceiling times the divisor
/// covers the dividend.
pub proof fn lemma_ceil_div_lower_bound(a: int, b: int)
    requires
        a >= 0,
        b > 0,
    ensures
        ceil_div(a, b) * b >= a,
{
    let q = (a + b - 1) / b;
    let r = (a + b - 1) % b;
    vstd::arithmetic::div_mod::lemma_fundamental_div_mod(a + b - 1, b);
    vstd::arithmetic::div_mod::lemma_mod_bound(a + b - 1, b);
    assert(a + b - 1 == b * q + r);
    assert(q * b == a + b - 1 - r);
}

/// The rewards newly owed to all lenders since the last accrual pass.
pub open spec fn spec_extra_rewards(s: SavingsAccount, current_epoch: u64) -> int {
    if s.last_rewards_update_epoch < current_epoch {
        spec_reward_amount(
            s.lent_amount,
            s.last_rewards_update_epoch,
            current_epoch,
            s.lender_rewards_percentage_per_epoch,
        )
    } else {
        0
    }
}

/// The penalties charged since the last accrual pass that still count towards
/// the next penalty computation; an epoch transition resets the counter.
pub open spec fn spec_missed_after_update(s: SavingsAccount, current_epoch: u64) -> int {
    if s.last_rewards_update_epoch < current_epoch {
        0
    } else {
        s.total_missed_rewards_by_claim as int
    }
}

/// Reserves after the accrual pass: the newly owed rewards are taken out
/// first, then any older shortfall is paid down from what remains.
pub open spec fn spec_reserves_after_update(s: SavingsAccount, current_epoch: u64) -> int {
    let extra = spec_extra_rewards(s, current_epoch);
    if extra > s.stablecoin_reserves {
        0
    } else {
        let left = s.stablecoin_reserves - extra;
        if left >= s.missing_rewards {
            left - s.missing_rewards
        } else {
            0
        }
    }
}

/// Unpaid shortfall after the accrual pass.
pub open spec fn spec_missing_after_update(s: SavingsAccount, current_epoch: u64) -> int {
    let extra = spec_extra_rewards(s, current_epoch);
    if extra > s.stablecoin_reserves {
        s.missing_rewards + (extra - s.stablecoin_reserves)
    } else {
        let left = s.stablecoin_reserves - extra;
        if left >= s.missing_rewards {
            0
        } else {
            s.missing_rewards - left
        }
    }
}

/// The pro-rata penalty per unit of lend principal, rounded up so that the
/// pool never promises more than its reserves support.
pub open spec fn spec_penalty_after_update(s: SavingsAccount, current_epoch: u64) -> int {
    let missing = spec_missing_after_update(s, current_epoch);
    let missed = spec_missed_after_update(s, current_epoch);
    if missing == 0 || s.lent_amount == 0 {
        0
    } else {
        ceil_div((missing + missed) * DEFAULT_DECIMALS, s.lent_amount as int)
    }
}

/// The machine-width bounds under which the accrual pass cannot overflow.
pub open spec fn global_update_fits(s: SavingsAccount, current_epoch: u64) -> bool {
    &&& reward_fits(
        s.lent_amount,
        s.last_rewards_update_epoch,
        current_epoch,
        s.lender_rewards_percentage_per_epoch,
    )
    &&& spec_missing_after_update(s, current_epoch) <= u128::MAX
    &&& (spec_missing_after_update(s, current_epoch) > 0 && s.lent_amount > 0
        ==> (spec_missing_after_update(s, current_epoch) + spec_missed_after_update(
            s,
            current_epoch,
        )) * DEFAULT_DECIMALS + s.lent_amount - 1 <= u128::MAX)
}

/// The whole state after an accrual pass: only the reserve, shortfall and
/// penalty bookkeeping moves.
pub open spec fn spec_after_global_update(pre: SavingsAccount, current_epoch: u64) -> SavingsAccount {
    SavingsAccount {
        stablecoin_reserves: spec_reserves_after_update(pre, current_epoch) as u128,
        missing_rewards: spec_missing_after_update(pre, current_epoch) as u128,
        penalty_per_lend_token: spec_penalty_after_update(pre, current_epoch) as u128,
        total_missed_rewards_by_claim: spec_missed_after_update(pre, current_epoch) as u128,
        last_rewards_update_epoch: current_epoch,
        ..pre
    }
}

/// How the accrual pass transforms the pool globals, field by field.
pub open spec fn global_update_effect(pre: SavingsAccount, post: SavingsAccount, current_epoch: u64) -> bool {
    post == spec_after_global_update(pre, current_epoch)
}

/// Decides the accrual pass's overflow bounds for any pool state holding
/// these values, so the shell around the library can test before calling.
#[verifier::rlimit(100)]
fn check_update_fits_values(
    lent: u128,
    last_update: u64,
    rate: u128,
    reserves: u128,
    missing: u128,
    missed: u128,
    current_epoch: u64,
) -> (r: bool)
    ensures
        forall|s: SavingsAccount|
            s.lent_amount == lent && s.last_rewards_update_epoch == last_update
                && s.lender_rewards_percentage_per_epoch == rate && s.stablecoin_reserves
                == reserves && s.missing_rewards == missing && s.total_missed_rewards_by_claim
                == missed ==> r == #[trigger] global_update_fits(s, current_epoch),
{
    if last_update < current_epoch {
        let diff: u64 = current_epoch - last_update;
        if !crate::math::mul_fits(diff as u128, rate) {
            return false;
        }
        if !crate::math::mul_fits((diff as u128) * rate, lent) {
            return false;
        }
    }
    let extra: u128 = compute_reward_amount(lent, last_update, current_epoch, rate);
    let missing_after: u128;
    if extra > reserves {
        let gap: u128 = extra - reserves;
        if missing > u128::MAX - gap {
            return false;
        }
        missing_after = missing + gap;
    } else {
        let left: u128 = reserves - extra;
        missing_after = if left >= missing {
            0
        } else {
            missing - left
        };
    }
    let missed_after: u128 = if last_update < current_epoch {
        0
    } else {
        missed
    };
    if missing_after > 0 && lent > 0 {
        if missed_after > u128::MAX - missing_after {
            proof {
                assert forall|s: SavingsAccount|
                    s.lent_amount == lent && s.last_rewards_update_epoch == last_update
                        && s.lender_rewards_percentage_per_epoch == rate && s.stablecoin_reserves
                        == reserves && s.missing_rewards == missing
                        && s.total_missed_rewards_by_claim == missed implies !global_update_fits(
                    s,
                    current_epoch,
                ) by {
                    let m = spec_missing_after_update(s, current_epoch);
                    let ms = spec_missed_after_update(s, current_epoch);
                    assert(m == missing_after as int && ms == missed_after as int);
                    assert((m + ms) * DEFAULT_DECIMALS >= m + ms) by (nonlinear_arith)
                        requires
                            m + ms >= 0,
                            DEFAULT_DECIMALS >= 1,
                    ;
                }
            }
            return false;
        }
        let total: u128 = missing_after + missed_after;
        if !crate::math::mul_fits(total, DEFAULT_DECIMALS) {
            return false;
        }
        let td: u128 = total * DEFAULT_DECIMALS;
        if lent - 1 > u128::MAX - td {
            return false;
        }
    }
    true
}

impl SavingsAccount {
    /// Decides, without changing anything, whether the accrual pass for
    /// `current_epoch` stays within the machine width on this state.
    #[verifier::rlimit(100)]
    pub fn check_global_update_fits(&self, current_epoch: u64) -> (r: bool)
        ensures
            r == global_update_fits(*self, current_epoch),
    {
        check_update_fits_values(
            self.lent_amount,
            self.last_rewards_update_epoch,
            self.lender_rewards_percentage_per_epoch,
            self.stablecoin_reserves,
            self.missing_rewards,
            self.total_missed_rewards_by_claim,
            current_epoch,
        )
    }

    /// Decides, without changing anything, whether booking swap proceeds of
    /// this size and the accrual pass after it stay within the machine width.
    #[verifier::rlimit(100)]
    pub fn check_convert_fits(&self, received_amount: u128, current_epoch: u64) -> (r: bool)
        ensures
            r == (self.stablecoin_reserves + received_amount <= u128::MAX
                && self.stablecoin_balance + received_amount <= u128::MAX && global_update_fits(
                SavingsAccount {
                    stablecoin_reserves: (self.stablecoin_reserves + received_amount) as u128,
                    stablecoin_balance: (self.stablecoin_balance + received_amount) as u128,
                    staked_token_balance: 0,
                    last_staking_token_convert_epoch: current_epoch,
                    ..*self
                },
                current_epoch,
            )),
    {
        if received_amount > u128::MAX - self.stablecoin_reserves {
            return false;
        }
        if received_amount > u128::MAX - self.stablecoin_balance {
            return false;
        }
        check_update_fits_values(
            self.lent_amount,
            self.last_rewards_update_epoch,
            self.lender_rewards_percentage_per_epoch,
            self.stablecoin_reserves + received_amount,
            self.missing_rewards,
            self.total_missed_rewards_by_claim,
            current_epoch,
        )
    }

    /// The per-unit penalty the accrual pass for `current_epoch` would leave
    /// behind, computed without changing anything.
    #[verifier::rlimit(100)]
    pub fn penalty_after_update(&self, current_epoch: u64) -> (p: u128)
        requires
            global_update_fits(*self, current_epoch),
        ensures
            p as int == spec_penalty_after_update(*self, current_epoch),
    {
        let extra: u128 = compute_reward_amount(
            self.lent_amount,
            self.last_rewards_update_epoch,
            current_epoch,
            self.lender_rewards_percentage_per_epoch,
        );
        let missing_after: u128 = if extra > self.stablecoin_reserves {
            self.missing_rewards + (extra - self.stablecoin_reserves)
        } else {
            let left: u128 = self.stablecoin_reserves - extra;
            if left >= self.missing_rewards {
                0
            } else {
                self.missing_rewards - left
            }
        };
        let missed_after: u128 = if self.last_rewards_update_epoch < current_epoch {
            0
        } else {
            self.total_missed_rewards_by_claim
        };
        if missing_after == 0 || self.lent_amount == 0 {
            0
        } else {
            ((missing_after + missed_after) * DEFAULT_DECIMALS + (self.lent_amount - 1))
                / self.lent_amount
        }
    }

    /// Builds the outbound claim batch: starting from the head of the
    /// registry (or one past the saved cursor of a paused claim), each step
    /// snapshots one position's collateral into the batch, until the list
    /// ends or the gas budget would no longer cover another step plus saving
    /// progress. The cursor is parked on the last batched position and the
    /// dispatch round recorded, awaiting the callback. A claim attempt while
    /// a callback is outstanding is refused until the waiting window passes.
    ///
    /// The gas meter is modelled by the budget at entry and the measured cost
    /// of one step; each step consumes one cost unit and reserves
    /// `STAKING_REWARDS_CLAIM_GAS_PER_TOKEN` for the remote call.
    #[verifier::rlimit(100)]
    pub fn claim_staking_rewards(
        &mut self,
        current_epoch: u64,
        current_round: u64,
        gas_left: u64,
        gas_per_iteration: u64,
    ) -> (r: Result<(Vec<EsdtTokenPayment>, Vec<u64>), SaError>)
        requires
            old(self).wf(),
            match old(self).current_ongoing_operation {
                OngoingOperationType::ClaimStakingRewards { async_call_fire_round, .. } =>
                    async_call_fire_round <= current_round,
                _ => true,
            },
        ensures
            final(self).wf(),
            r is Err ==> *final(self) == *old(self),
            r is Ok <==> (current_epoch > old(self).last_staking_rewards_claim_epoch
                && match old(self).current_ongoing_operation {
                OngoingOperationType::NoOperation => old(self).staking_positions.order().len() > 0,
                OngoingOperationType::ClaimStakingRewards {
                    async_call_fire_round,
                    callback_executed,
                    ..
                } => (callback_executed || current_round - async_call_fire_round
                    >= NR_ROUNDS_WAIT_FOR_CALLBACK) && claim_start_index(*old(self)) < old(
                    self,
                ).staking_positions.order().len(),
            }),
            ({
                let ord = old(self).staking_positions.order();
                let start = claim_start_index(*old(self));
                if current_epoch <= old(self).last_staking_rewards_claim_epoch {
                    r == Err::<(Vec<EsdtTokenPayment>, Vec<u64>), SaError>(
                        SaError::AlreadyClaimedThisEpoch,
                    )
                } else {
                    match old(self).current_ongoing_operation {
                        OngoingOperationType::NoOperation => {
                            ord.len() == 0 ==> r == Err::<(Vec<EsdtTokenPayment>, Vec<u64>), SaError>(
                                SaError::NoStakingPositionsAvailable,
                            )
                        },
                        OngoingOperationType::ClaimStakingRewards {
                            pos_id,
                            async_call_fire_round,
                            callback_executed,
                        } => {
                            &&& (!callback_executed && current_round - async_call_fire_round
                                < NR_ROUNDS_WAIT_FOR_CALLBACK ==> r == Err::<
                                (Vec<EsdtTokenPayment>, Vec<u64>),
                                SaError,
                            >(SaError::CallbackNotExecutedYet))
                            &&& ((callback_executed || current_round - async_call_fire_round
                                >= NR_ROUNDS_WAIT_FOR_CALLBACK) && start >= ord.len() ==> r
                                == Err::<(Vec<EsdtTokenPayment>, Vec<u64>), SaError>(
                                SaError::InvalidStakingPositionId,
                            ))
                        },
                    }
                }
            }),
            r matches Ok(batch) ==> {
                let ord = old(self).staking_positions.order();
                let (transfers, pos_ids) = batch;
                &&& claim_batch_effect(*old(self), *final(self), pos_ids@, current_round)
                &&& transfers@.len() == pos_ids@.len()
                &&& forall|i: int|
                    0 <= i < pos_ids@.len() ==> #[trigger] transfers@[i] == (EsdtTokenPayment {
                        token_identifier: old(self).liquid_staking_token_id,
                        token_nonce: old(self).staking_positions.spec_nonce(pos_ids@[i]),
                        amount: old(self).collateral_amounts@[pos_ids@[i] as int],
                    })
                // the budget alone decides where the pass stops: every
                // continued step was within budget, and the pass ends only at
                // the tail or on the first step the budget refuses
                &&& forall|j: int|
                    0 <= j < pos_ids@.len() - 1 ==> claim_step_allowed(
                        gas_left,
                        gas_per_iteration,
                        j,
                    )
                &&& (claim_start_index(*old(self)) + pos_ids@.len() == ord.len()
                    || !claim_step_allowed(gas_left, gas_per_iteration, pos_ids@.len() - 1))
            },
    {
        if current_epoch <= self.last_staking_rewards_claim_epoch {
            return Err(SaError::AlreadyClaimedThisEpoch);
        }

        let ghost ord = self.staking_positions.order();
        let mut pos_id: u64;
        let ghost start_k: int = claim_start_index(*old(self));
        match self.load_operation() {
            OngoingOperationType::NoOperation => {
                let first_pos_id: u64 = self.staking_positions.get_first_staking_position_id();
                if first_pos_id == 0 {
                    proof {
                        if self.staking_positions.order().len() > 0 {
                            self.staking_positions.lemma_node_from_order(0);
                        }
                    }
                    return Err(SaError::NoStakingPositionsAvailable);
                }
                pos_id = first_pos_id;
                proof {
                    assert(ord.len() > 0);
                    self.staking_positions.lemma_node_from_order(0);
                    assert(pos_id == ord[0]);
                }
            },
            OngoingOperationType::ClaimStakingRewards {
                pos_id: saved_pos_id,
                async_call_fire_round,
                callback_executed,
            } => {
                let round_diff: u64 = current_round - async_call_fire_round;
                if !callback_executed && round_diff < NR_ROUNDS_WAIT_FOR_CALLBACK {
                    return Err(SaError::CallbackNotExecutedYet);
                }
                let ghost k_saved: int = self.staking_positions.lemma_live_index(saved_pos_id);
                let staking_pos = match self.staking_positions.get_staking_position(saved_pos_id) {
                    Ok(p) => p,
                    Err(e) => {
                        proof {
                            assert(false);
                        }
                        return Err(e);
                    },
                };
                if staking_pos.next_pos_id == 0 {
                    // the saved cursor is the tail: nothing is left to batch
                    proof {
                        self.staking_positions.lemma_node_from_order(k_saved);
                        if k_saved < ord.len() - 1 {
                            self.staking_positions.lemma_node_from_order(k_saved + 1);
                            assert(staking_pos.next_pos_id == ord[k_saved + 1]);
                            assert(false);
                        }
                        assert(k_saved == ord.len() - 1);
                    }
                    return Err(SaError::InvalidStakingPositionId);
                }
                pos_id = staking_pos.next_pos_id;
                proof {
                    self.staking_positions.lemma_node_from_order(k_saved);
                    assert(k_saved < ord.len() - 1);
                    assert(pos_id == ord[k_saved + 1]);
                    assert(start_k == k_saved + 1);
                }
            },
        }

        let mut transfers: Vec<EsdtTokenPayment> = Vec::new();
        let mut callback_pos_ids: Vec<u64> = Vec::new();
        let mut gas_model: u64 = gas_left;
        let mut total_reserve_needed: u128 = STAKING_REWARDS_CLAIM_GAS_PER_TOKEN as u128;
        let ghost pre: SavingsAccount = *self;

        loop
            invariant_except_break
                self.wf(),
                *self == pre,
                pre == *old(self),
                ord == self.staking_positions.order(),
                0 <= start_k,
                start_k + callback_pos_ids@.len() < ord.len(),
                pos_id == ord[start_k + callback_pos_ids@.len()],
                callback_pos_ids@ == ord.subrange(start_k, start_k + callback_pos_ids@.len()),
                transfers@.len() == callback_pos_ids@.len(),
                total_reserve_needed as int == (callback_pos_ids@.len() + 1) * (
                STAKING_REWARDS_CLAIM_GAS_PER_TOKEN as int),
                gas_model as int == gas_model_after(
                    gas_left,
                    gas_per_iteration,
                    callback_pos_ids@.len() as int,
                ),
                forall|j: int|
                    0 <= j < callback_pos_ids@.len() ==> claim_step_allowed(
                        gas_left,
                        gas_per_iteration,
                        j,
                    ),
                forall|i: int|
                    0 <= i < callback_pos_ids@.len() ==> #[trigger] transfers@[i]
                        == (EsdtTokenPayment {
                        token_identifier: pre.liquid_staking_token_id,
                        token_nonce: pre.staking_positions.spec_nonce(callback_pos_ids@[i]),
                        amount: pre.collateral_amounts@[callback_pos_ids@[i] as int],
                    }),
            ensures
                self.wf(),
                *self == pre,
                ord == self.staking_positions.order(),
                1 <= callback_pos_ids@.len(),
                start_k + callback_pos_ids@.len() <= ord.len(),
                callback_pos_ids@ == ord.subrange(start_k, start_k + callback_pos_ids@.len()),
                transfers@.len() == callback_pos_ids@.len(),
                forall|j: int|
                    0 <= j < callback_pos_ids@.len() - 1 ==> claim_step_allowed(
                        gas_left,
                        gas_per_iteration,
                        j,
                    ),
                start_k + callback_pos_ids@.len() == ord.len() || !claim_step_allowed(
                    gas_left,
                    gas_per_iteration,
                    callback_pos_ids@.len() - 1,
                ),
                forall|i: int|
                    0 <= i < callback_pos_ids@.len() ==> #[trigger] transfers@[i]
                        == (EsdtTokenPayment {
                        token_identifier: pre.liquid_staking_token_id,
                        token_nonce: pre.staking_positions.spec_nonce(callback_pos_ids@[i]),
                        amount: pre.collateral_amounts@[callback_pos_ids@[i] as int],
                    }),
            decreases ord.len() - callback_pos_ids@.len(),
        {
            let ghost k: int = start_k + callback_pos_ids@.len();
            proof {
                self.staking_positions.lemma_node_from_order(k);
                self.staking_positions.lemma_live_bounds(pos_id);
            }
            let current_staking_pos = match self.staking_positions.get_staking_position(pos_id) {
                Ok(p) => p,
                Err(_) => {
                    proof {
                        assert(false);
                    }
                    break ;
                },
            };
            let sft_nonce: u64 = current_staking_pos.liquid_staking_nonce;
            transfers.push(
                EsdtTokenPayment {
                    token_identifier: self.liquid_staking_token_id,
                    token_nonce: sft_nonce,
                    amount: self.collateral_amounts[pos_id as usize],
                },
            );
            callback_pos_ids.push(pos_id);
            proof {
                assert(callback_pos_ids@ =~= ord.subrange(
                    start_k,
                    start_k + callback_pos_ids@.len(),
                ));
            }

            let step = if current_staking_pos.next_pos_id == 0 {
                proof {
                    if k < ord.len() - 1 {
                        self.staking_positions.lemma_node_from_order(k + 1);
                        assert(current_staking_pos.next_pos_id == ord[k + 1]);
                        assert(false);
                    }
                    assert(start_k + callback_pos_ids@.len() == ord.len());
                }
                LoopOp::Break
            } else {
                LoopOp::Continue
            };
            if step.is_break() {
                break ;
            }

            proof {
                self.staking_positions.lemma_order_len_bound();
                let len_now = callback_pos_ids@.len() as int;
                assert(len_now + 2 <= 0x1_0000_0001int);
                assert((len_now + 2) * 10_000_000int <= 0x1_0000_0001int * 10_000_000int)
                    by (nonlinear_arith)
                    requires
                        0 <= len_now + 2 <= 0x1_0000_0001int,
                ;
            }
            total_reserve_needed = total_reserve_needed
                + STAKING_REWARDS_CLAIM_GAS_PER_TOKEN as u128;
            let can_continue: bool = {
                let budget: u128 = crate::ongoing_operation::MIN_GAS_TO_SAVE_PROGRESS as u128
                    + gas_per_iteration as u128 + total_reserve_needed;
                gas_model as u128 > budget
            };
            proof {
                assert(can_continue == claim_step_allowed(
                    gas_left,
                    gas_per_iteration,
                    callback_pos_ids@.len() - 1,
                ));
            }
            if !can_continue {
                // out of budget: not a failure, the cursor below lets a later
                // invocation resume exactly here
                break ;
            }
            if gas_model > gas_per_iteration {
                gas_model = gas_model - gas_per_iteration;
            } else {
                gas_model = 0;
            }
            pos_id = current_staking_pos.next_pos_id;
            proof {
                assert(pos_id == next_in(ord, k));
                assert(k < ord.len() - 1) by {
                    if k == ord.len() - 1 {
                        assert(next_in(ord, k) == 0);
                        self.staking_positions.lemma_node_from_order(k);
                    }
                }
            }
        }

        let last_pos_id: u64 = callback_pos_ids[callback_pos_ids.len() - 1];
        proof {
            assert(last_pos_id == ord[start_k + callback_pos_ids@.len() - 1]);
            assert(self.staking_positions.is_live(last_pos_id)) by {
                self.staking_positions.lemma_node_from_order(
                    start_k + callback_pos_ids@.len() - 1,
                );
            }
        }
        self.save_progress(
            &OngoingOperationType::ClaimStakingRewards {
                pos_id: last_pos_id,
                async_call_fire_round: current_round,
                callback_executed: false,
            },
        );
        proof {
            assert(callback_pos_ids@.last() == last_pos_id);
        }
        Ok((transfers, callback_pos_ids))
    }

    /// Receives the remote service's answer to a dispatched claim. A failure
    /// signal leaves the whole operation state exactly as it was: the
    /// bookkeeping may not match the remote side, so nothing is cleared and
    /// recovery goes through the waiting window. On success every recorded
    /// position rotates to its re-issued collateral reference and amount;
    /// when the saved cursor was the registry tail the operation is complete
    /// and the claim clock advances, otherwise the operation stays parked,
    /// marked reconciled, for the next pass to resume.
    #[verifier::rlimit(100)]
    pub fn claim_staking_rewards_callback(
        &mut self,
        pos_ids: &Vec<u64>,
        new_liquid_staking_tokens: &Vec<EsdtTokenPayment>,
        success: bool,
        current_epoch: u64,
    ) -> (r: Result<OperationCompletionStatus, SaError>)
        requires
            old(self).wf(),
        ensures
            final(self).wf(),
            r is Err ==> *final(self) == *old(self),
            !success ==> r == Err::<OperationCompletionStatus, SaError>(SaError::AsyncCallFailed),
            success && !(old(self).current_ongoing_operation is ClaimStakingRewards) ==> r
                == Err::<OperationCompletionStatus, SaError>(SaError::InvalidOperationInCallback),
            success && old(self).current_ongoing_operation is ClaimStakingRewards
                && new_liquid_staking_tokens@.len() != pos_ids@.len() ==> r == Err::<
                OperationCompletionStatus,
                SaError,
            >(SaError::InvalidLiquidStakingPositionLengths),
            r is Ok <==> (success && old(self).current_ongoing_operation is ClaimStakingRewards
                && new_liquid_staking_tokens@.len() == pos_ids@.len() && reconcile_batch_valid(
                *old(self),
                pos_ids@,
                new_liquid_staking_tokens@,
            )),
            r is Ok ==> reconcile_effect(
                *old(self),
                *final(self),
                pos_ids@,
                new_liquid_staking_tokens@,
                current_epoch,
            ),
            r matches Ok(status) ==> (status is Completed <==> old(
                self,
            ).current_ongoing_operation->pos_id == last_of(old(self).staking_positions.order())),
    {
        if !success {
            return Err(SaError::AsyncCallFailed);
        }
        let (last_pos_id, fire_round): (u64, u64) = match self.load_operation() {
            OngoingOperationType::ClaimStakingRewards {
                pos_id,
                async_call_fire_round,
                callback_executed: _,
            } => (pos_id, async_call_fire_round),
            OngoingOperationType::NoOperation => {
                return Err(SaError::InvalidOperationInCallback);
            },
        };
        if new_liquid_staking_tokens.len() != pos_ids.len() {
            return Err(SaError::InvalidLiquidStakingPositionLengths);
        }

        let n: usize = pos_ids.len();

        // validate the whole batch first, so a bad batch changes nothing
        let mut i: usize = 0;
        while i < n
            invariant
                0 <= i <= n,
                n == pos_ids@.len(),
                n == new_liquid_staking_tokens@.len(),
                *self == *old(self),
                old(self).wf(),
                success,
                old(self).current_ongoing_operation is ClaimStakingRewards,
                forall|k: int|
                    0 <= k < i ==> self.staking_positions.is_live(#[trigger] pos_ids@[k]),
                forall|k1: int, k2: int|
                    0 <= k1 < k2 < i ==> #[trigger] pos_ids@[k1] != #[trigger] pos_ids@[k2],
                forall|k1: int, k2: int|
                    0 <= k1 < k2 < i ==> (#[trigger] new_liquid_staking_tokens@[k1]).token_nonce
                        != (#[trigger] new_liquid_staking_tokens@[k2]).token_nonce,
                forall|k: int, id2: u64|
                    0 <= k < i && #[trigger] self.staking_positions.is_live(id2) && id2
                        != pos_ids@[k] ==> self.staking_positions.spec_nonce(id2) != (
                    #[trigger] new_liquid_staking_tokens@[k]).token_nonce,
            decreases n - i,
        {
            match self.staking_positions.get_staking_position(pos_ids[i]) {
                Ok(_) => {},
                Err(_) => {
                    return Err(SaError::InvalidStakingPositionId);
                },
            }
            let mut j: usize = 0;
            while j < i
                invariant
                    0 <= j <= i < n,
                    n == pos_ids@.len(),
                    n == new_liquid_staking_tokens@.len(),
                    *self == *old(self),
                    old(self).wf(),
                    success,
                    old(self).current_ongoing_operation is ClaimStakingRewards,
                    forall|k: int| 0 <= k < j ==> #[trigger] pos_ids@[k] != pos_ids@[i as int],
                    forall|k: int|
                        0 <= k < j ==> (#[trigger] new_liquid_staking_tokens@[k]).token_nonce
                            != new_liquid_staking_tokens@[i as int].token_nonce,
                decreases i - j,
            {
                if pos_ids[j] == pos_ids[i] {
                    return Err(SaError::InvalidStakingPositionId);
                }
                if new_liquid_staking_tokens[j].token_nonce
                    == new_liquid_staking_tokens[i].token_nonce {
                    return Err(SaError::DuplicateCollateralReference);
                }
                j += 1;
            }
            match self.staking_positions.find_pos_id_by_nonce(
                new_liquid_staking_tokens[i].token_nonce,
            ) {
                Some(holder) => {
                    if holder != pos_ids[i] {
                        return Err(SaError::DuplicateCollateralReference);
                    }
                    proof {
                        assert forall|id2: u64|
                            #[trigger] self.staking_positions.is_live(id2) && id2
                                != pos_ids@[i as int] implies self.staking_positions.spec_nonce(
                            id2,
                        ) != new_liquid_staking_tokens@[i as int].token_nonce by {
                            if self.staking_positions.spec_nonce(id2)
                                == new_liquid_staking_tokens@[i as int].token_nonce {
                                self.staking_positions.lemma_nonce_unique(id2, holder);
                            }
                        }
                    }
                },
                None => {
                    proof {
                        assert forall|id2: u64|
                            #[trigger] self.staking_positions.is_live(id2) && id2
                                != pos_ids@[i as int] implies self.staking_positions.spec_nonce(
                            id2,
                        ) != new_liquid_staking_tokens@[i as int].token_nonce by {
                            if self.staking_positions.spec_nonce(id2)
                                == new_liquid_staking_tokens@[i as int].token_nonce {
                                assert(self.staking_positions.has_live_nonce(
                                    new_liquid_staking_tokens@[i as int].token_nonce,
                                ));
                            }
                        }
                    }
                },
            }
            i += 1;
        }
        proof {
            assert(reconcile_batch_valid(*old(self), pos_ids@, new_liquid_staking_tokens@));
        }

        // the batch is sound: mark the operation reconciled and apply it
        self.save_progress(
            &OngoingOperationType::ClaimStakingRewards {
                pos_id: last_pos_id,
                async_call_fire_round: fire_round,
                callback_executed: true,
            },
        );
        let ghost pre: SavingsAccount = *old(self);

        let mut k: usize = 0;
        while k < n
            invariant
                0 <= k <= n,
                n == pos_ids@.len(),
                n == new_liquid_staking_tokens@.len(),
                reconcile_batch_valid(pre, pos_ids@, new_liquid_staking_tokens@),
                pre.wf(),
                success,
                pre == *old(self),
                pre.current_ongoing_operation is ClaimStakingRewards,
                self.collateral_amounts@.len() == pre.collateral_amounts@.len(),
                self.staking_positions.wf(),
                self.staking_positions.order() == pre.staking_positions.order(),
                self.staking_positions.num_slots() == pre.staking_positions.num_slots(),
                forall|id: u64|
                    self.staking_positions.is_live(id) <==> pre.staking_positions.is_live(id),
                forall|id: u64|
                    #[trigger] self.staking_positions.is_live(id)
                        ==> self.staking_positions.spec_nonce(id) == nonce_after(
                        pre.staking_positions.spec_nonce(id),
                        pos_ids@,
                        new_liquid_staking_tokens@,
                        k as int,
                        id,
                    ),
                forall|m: int|
                    0 <= m < pre.collateral_amounts@.len() ==> #[trigger] self.collateral_amounts@[m]
                        == amount_after(
                        pre.collateral_amounts@[m],
                        pos_ids@,
                        new_liquid_staking_tokens@,
                        k as int,
                        m as u64,
                    ),
                *self == (SavingsAccount {
                    staking_positions: self.staking_positions,
                    collateral_amounts: self.collateral_amounts,
                    current_ongoing_operation: OngoingOperationType::ClaimStakingRewards {
                        pos_id: last_pos_id,
                        async_call_fire_round: fire_round,
                        callback_executed: true,
                    },
                    ..pre
                }),
            decreases n - k,
        {
            let pos_id: u64 = pos_ids[k];
            let new_token = new_liquid_staking_tokens[k];
            let ghost before: SavingsAccount = *self;
            proof {
                assert(pre.staking_positions.is_live(pos_id));
                assert(self.staking_positions.is_live(pos_id));
                self.staking_positions.lemma_live_bounds(pos_id);
                // the new reference collides with no other live position at
                // this point of the pass
                assert(new_token == new_liquid_staking_tokens@[k as int]);
                assert forall|id2: u64|
                    !(#[trigger] self.staking_positions.is_live(id2) && id2 != pos_id
                        && self.staking_positions.spec_nonce(id2) == new_token.token_nonce) by {
                    if self.staking_positions.is_live(id2) && id2 != pos_id {
                        let pren = pre.staking_positions.spec_nonce(id2);
                        assert(pre.staking_positions.is_live(id2));
                        lemma_nonce_after_cases(
                            pren,
                            pos_ids@,
                            new_liquid_staking_tokens@,
                            k as int,
                            id2,
                        );
                        let now = self.staking_positions.spec_nonce(id2);
                        if now == pren {
                            assert(pren != new_liquid_staking_tokens@[k as int].token_nonce);
                        } else {
                            let j = choose|j: int|
                                0 <= j < k as int && #[trigger] pos_ids@[j] == id2 && nonce_after(
                                    pren,
                                    pos_ids@,
                                    new_liquid_staking_tokens@,
                                    k as int,
                                    id2,
                                ) == new_liquid_staking_tokens@[j].token_nonce;
                            assert(new_liquid_staking_tokens@[j].token_nonce
                                != new_liquid_staking_tokens@[k as int].token_nonce);
                        }
                    }
                }
                assert(!self.staking_positions.nonce_taken_by_other(pos_id, new_token.token_nonce));
            }
            match self.staking_positions.update_staking_position(pos_id, new_token.token_nonce) {
                Ok(()) => {},
                Err(_) => {
                    proof {
                        assert(false);
                    }
                },
            }
            self.collateral_amounts.set(pos_id as usize, new_token.amount);
            k += 1;
            proof {
                assert forall|id: u64| #[trigger] self.staking_positions.is_live(id)
                    implies self.staking_positions.spec_nonce(id) == nonce_after(
                    pre.staking_positions.spec_nonce(id),
                    pos_ids@,
                    new_liquid_staking_tokens@,
                    k as int,
                    id,
                ) by {
                    if id != pos_id {
                        assert(before.staking_positions.is_live(id));
                        assert(self.staking_positions.spec_node(id)
                            == before.staking_positions.spec_node(id));
                    }
                }
            }
        }

        let last_valid_id: u64 = self.staking_positions.get_last_valid_staking_pos_id();
        if last_pos_id == last_valid_id {
            self.last_staking_rewards_claim_epoch = current_epoch;
            self.clear_operation();
            Ok(OperationCompletionStatus::Completed)
        } else {
            proof {
                assert(last_pos_id != last_of(pre.staking_positions.order()));
            }
            Ok(OperationCompletionStatus::InterruptedBeforeOutOfGas)
        }
    }

    /// The epoch-based accrual pass (run before every lend, withdraw or
    /// claim): rewards owed for the elapsed epochs are earmarked out of the
    /// reserves; what the reserves cannot cover becomes `missing_rewards`,
    /// and the per-unit penalty is recomputed, rounded up, so claims paid
    /// under shortfall never exceed what the reserves support.
    #[verifier::rlimit(100)]
    pub fn update_global_lender_rewards(&mut self, current_epoch: u64)
        requires
            old(self).wf(),
            global_update_fits(*old(self), current_epoch),
        ensures
            final(self).wf(),
            global_update_effect(*old(self), *final(self), current_epoch),
            // rounding direction: with principal outstanding, the penalty
            // always covers the unpaid shortfall
            final(self).lent_amount > 0 ==> final(self).penalty_per_lend_token as int
                * final(self).lent_amount >= final(self).missing_rewards as int * DEFAULT_DECIMALS,
    {
        let extra_rewards_needed: u128 = if self.last_rewards_update_epoch < current_epoch {
            self.total_missed_rewards_by_claim = 0;
            compute_reward_amount(
                self.lent_amount,
                self.last_rewards_update_epoch,
                current_epoch,
                self.lender_rewards_percentage_per_epoch,
            )
        } else {
            0
        };

        let mut stablecoin_reserves: u128 = self.stablecoin_reserves;
        let mut missing_rewards: u128 = self.missing_rewards;
        if extra_rewards_needed > stablecoin_reserves {
            let extra_missing_rewards: u128 = extra_rewards_needed - stablecoin_reserves;
            missing_rewards = missing_rewards + extra_missing_rewards;
            stablecoin_reserves = 0;
        } else {
            stablecoin_reserves = stablecoin_reserves - extra_rewards_needed;
            if stablecoin_reserves >= missing_rewards {
                stablecoin_reserves = stablecoin_reserves - missing_rewards;
                missing_rewards = 0;
            } else {
                missing_rewards = missing_rewards - stablecoin_reserves;
                stablecoin_reserves = 0;
            }
        }

        let penalty_per_lend_token: u128 = if missing_rewards == 0 || self.lent_amount == 0 {
            0
        } else {
            proof {
                assert(missing_rewards as int == spec_missing_after_update(
                    *old(self),
                    current_epoch,
                ));
                assert(self.total_missed_rewards_by_claim as int == spec_missed_after_update(
                    *old(self),
                    current_epoch,
                ));
            }
            let total_missing_rewards: u128 = missing_rewards + self.total_missed_rewards_by_claim;
            (total_missing_rewards * DEFAULT_DECIMALS + (self.lent_amount - 1)) / self.lent_amount
        };

        self.penalty_per_lend_token = penalty_per_lend_token;
        self.missing_rewards = missing_rewards;
        self.stablecoin_reserves = stablecoin_reserves;
        self.last_rewards_update_epoch = current_epoch;

        proof {
            if self.lent_amount > 0 && self.missing_rewards > 0 {
                let total = self.missing_rewards as int
                    + self.total_missed_rewards_by_claim as int;
                lemma_ceil_div_lower_bound(total * DEFAULT_DECIMALS, self.lent_amount as int);
                assert(self.penalty_per_lend_token as int * self.lent_amount >= total
                    * DEFAULT_DECIMALS);
                assert(total * DEFAULT_DECIMALS >= self.missing_rewards as int * DEFAULT_DECIMALS)
                    by (nonlinear_arith)
                    requires
                        total >= self.missing_rewards as int >= 0,
                        DEFAULT_DECIMALS > 0,
                ;
            }
        }
    }

    /// Accepts the staking rewards the delegation contract pays out after a
    /// claim; anyone else is refused.
    #[verifier::rlimit(100)]
    pub fn receive_staking_rewards(&mut self, caller: u64, amount: u128) -> (r: Result<(), SaError>)
        requires
            old(self).wf(),
            old(self).staked_token_balance + amount <= u128::MAX,
        ensures
            final(self).wf(),
            caller != old(self).delegation_sc_address ==> r == Err::<(), SaError>(
                SaError::OnlyDelegationMayCall,
            ) && *final(self) == *old(self),
            caller == old(self).delegation_sc_address ==> r == Ok::<(), SaError>(()) && *final(self)
                == (SavingsAccount {
                staked_token_balance: (old(self).staked_token_balance + amount) as u128,
                ..*old(self)
            }),
    {
        if caller != self.delegation_sc_address {
            return Err(SaError::OnlyDelegationMayCall);
        }
        self.staked_token_balance = self.staked_token_balance + amount;
        Ok(())
    }

    /// Validates that the staking token may be converted now, and hands back
    /// the swap to dispatch: the whole accumulated staking-token balance, to
    /// be sold for stablecoins. Nothing is committed yet; the proceeds come
    /// back through `convert_staking_token_to_stablecoin`.
    #[verifier::rlimit(100)]
    pub fn prepare_staking_token_convert(&self, current_epoch: u64) -> (r: Result<
        EsdtTokenPayment,
        SaError,
    >)
        requires
            self.wf(),
        ensures
            r is Ok <==> (self.current_ongoing_operation is NoOperation
                && self.last_staking_rewards_claim_epoch == current_epoch
                && current_epoch > self.last_staking_token_convert_epoch),
            r matches Ok(p) ==> p == (EsdtTokenPayment {
                token_identifier: self.staked_token_id,
                token_nonce: 0,
                amount: self.staked_token_balance,
            }),
            !(self.current_ongoing_operation is NoOperation) ==> r == Err::<
                EsdtTokenPayment,
                SaError,
            >(SaError::OngoingOperationInProgress),
            self.current_ongoing_operation is NoOperation
                && self.last_staking_rewards_claim_epoch != current_epoch ==> r == Err::<
                EsdtTokenPayment,
                SaError,
            >(SaError::MustClaimRewardsFirst),
            self.current_ongoing_operation is NoOperation
                && self.last_staking_rewards_claim_epoch == current_epoch && current_epoch
                <= self.last_staking_token_convert_epoch ==> r == Err::<EsdtTokenPayment, SaError>(
                SaError::AlreadyConvertedThisEpoch,
            ),
    {
        match self.require_no_ongoing_operation() {
            Ok(()) => {},
            Err(e) => {
                return Err(e);
            },
        }
        if self.last_staking_rewards_claim_epoch != current_epoch {
            return Err(SaError::MustClaimRewardsFirst);
        }
        if current_epoch <= self.last_staking_token_convert_epoch {
            return Err(SaError::AlreadyConvertedThisEpoch);
        }
        Ok(
            EsdtTokenPayment {
                token_identifier: self.staked_token_id,
                token_nonce: 0,
                amount: self.staked_token_balance,
            },
        )
    }

    /// Books the proceeds of the swap prepared above: the staking-token
    /// balance has been sold, the received stablecoins top the reserves up,
    /// and an accrual pass runs so the new reserves pay down any shortfall.
    /// A payment in any other token is refused outright.
    #[verifier::rlimit(100)]
    pub fn convert_staking_token_to_stablecoin(
        &mut self,
        current_epoch: u64,
        received: EsdtTokenPayment,
    ) -> (r: Result<(), SaError>)
        requires
            old(self).wf(),
            old(self).stablecoin_reserves + received.amount <= u128::MAX,
            old(self).stablecoin_balance + received.amount <= u128::MAX,
            global_update_fits(
                SavingsAccount {
                    stablecoin_reserves: (old(self).stablecoin_reserves + received.amount) as u128,
                    stablecoin_balance: (old(self).stablecoin_balance + received.amount) as u128,
                    staked_token_balance: 0,
                    last_staking_token_convert_epoch: current_epoch,
                    ..*old(self)
                },
                current_epoch,
            ),
        ensures
            final(self).wf(),
            r is Ok <==> (old(self).current_ongoing_operation is NoOperation
                && old(self).last_staking_rewards_claim_epoch == current_epoch && current_epoch
                > old(self).last_staking_token_convert_epoch && received.token_identifier == old(
                self,
            ).stablecoin_token_id),
            r is Err ==> *final(self) == *old(self),
            !(old(self).current_ongoing_operation is NoOperation) ==> r == Err::<(), SaError>(
                SaError::OngoingOperationInProgress,
            ),
            old(self).current_ongoing_operation is NoOperation && old(
                self,
            ).last_staking_rewards_claim_epoch != current_epoch ==> r == Err::<(), SaError>(
                SaError::MustClaimRewardsFirst,
            ),
            old(self).current_ongoing_operation is NoOperation && old(
                self,
            ).last_staking_rewards_claim_epoch == current_epoch && current_epoch <= old(
                self,
            ).last_staking_token_convert_epoch ==> r == Err::<(), SaError>(
                SaError::AlreadyConvertedThisEpoch,
            ),
            old(self).current_ongoing_operation is NoOperation && old(
                self,
            ).last_staking_rewards_claim_epoch == current_epoch && current_epoch > old(
                self,
            ).last_staking_token_convert_epoch && received.token_identifier != old(
                self,
            ).stablecoin_token_id ==> r == Err::<(), SaError>(SaError::InvalidTokenReceivedFromSwap),
            r is Ok ==> global_update_effect(
                SavingsAccount {
                    stablecoin_reserves: (old(self).stablecoin_reserves + received.amount) as u128,
                    stablecoin_balance: (old(self).stablecoin_balance + received.amount) as u128,
                    staked_token_balance: 0,
                    last_staking_token_convert_epoch: current_epoch,
                    ..*old(self)
                },
                *final(self),
                current_epoch,
            ),
    {
        match self.require_no_ongoing_operation() {
            Ok(()) => {},
            Err(e) => {
                return Err(e);
            },
        }
        if self.last_staking_rewards_claim_epoch != current_epoch {
            return Err(SaError::MustClaimRewardsFirst);
        }
        if current_epoch <= self.last_staking_token_convert_epoch {
            return Err(SaError::AlreadyConvertedThisEpoch);
        }
        if received.token_identifier != self.stablecoin_token_id {
            return Err(SaError::InvalidTokenReceivedFromSwap);
        }

        self.stablecoin_reserves = self.stablecoin_reserves + received.amount;
        self.stablecoin_balance = self.stablecoin_balance + received.amount;
        self.staked_token_balance = 0;
        self.last_staking_token_convert_epoch = current_epoch;
        self.update_global_lender_rewards(current_epoch);
        Ok(())
    }
}

} // verus!
