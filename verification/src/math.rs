use vstd::prelude::*;

use crate::model::SaError;

verus! {

/// Fixed-point base: 10^9 represents 100%.
pub const BASE_PRECISION: u128 = 1_000_000_000;

/// Scale of one whole token unit (18 decimals).
pub const DEFAULT_DECIMALS: u128 = 1_000_000_000_000_000_000;

/// Epochs per year, used to pro-rate annual borrow rates.
pub const EPOCHS_IN_YEAR: u128 = 365;

/// Two-piece linear rate curve: below the optimal utilisation the rate grows
/// linearly from the base rate; at or above it, a steeper second slope kicks in.
pub open spec fn spec_borrow_rate(
    r_base: u128,
    r_slope1: u128,
    r_slope2: u128,
    u_optimal: u128,
    u_current: u128,
) -> int {
    if u_current < u_optimal {
        r_base + (u_current * r_slope1) / (u_optimal as int)
    } else {
        r_base + r_slope1 + ((u_current - u_optimal) * r_slope2) / (BASE_PRECISION - u_optimal)
    }
}

pub open spec fn borrow_rate_fits(
    r_base: u128,
    r_slope1: u128,
    r_slope2: u128,
    u_optimal: u128,
    u_current: u128,
) -> bool {
    &&& u_current * r_slope1 <= u128::MAX
    &&& (u_current >= u_optimal ==> (u_current - u_optimal) * r_slope2 <= u128::MAX)
    &&& spec_borrow_rate(r_base, r_slope1, r_slope2, u_optimal, u_current) <= u128::MAX
}

/// Utilisation is the borrowed share of the pool, scaled by `BASE_PRECISION`.
pub open spec fn spec_capital_utilisation(borrowed_amount: u128, total_pool_reserves: u128) -> int {
    (borrowed_amount * BASE_PRECISION) / (total_pool_reserves as int)
}

/// Dollar value of a staked amount, with the price quoted per whole token.
pub open spec fn spec_staking_position_value(
    staked_token_value_in_dollars: u128,
    staked_amount: u128,
) -> int {
    (staked_token_value_in_dollars * staked_amount) / (DEFAULT_DECIMALS as int)
}

/// The loan granted for a deposit value at a given loan-to-value ratio.
pub open spec fn spec_borrow_amount(borrow_rate: u128, deposit_value: u128) -> int {
    (borrow_rate * deposit_value) / (BASE_PRECISION as int)
}

/// Simple (non-compounding) interest, pro-rated by elapsed epochs over a year.
/// The three divisions truncate in sequence, exactly as the executable code.
pub open spec fn spec_debt(amount: u128, borrow_epoch: u64, current_epoch: u64, borrow_rate: u128) -> int {
    let epoch_diff = current_epoch - borrow_epoch;
    let time_unit_percentage = (epoch_diff * BASE_PRECISION) / (EPOCHS_IN_YEAR as int);
    let debt_percentage = (time_unit_percentage * borrow_rate) / (BASE_PRECISION as int);
    (debt_percentage * amount) / (BASE_PRECISION as int)
}

pub open spec fn debt_fits(amount: u128, borrow_epoch: u64, current_epoch: u64, borrow_rate: u128) -> bool {
    let epoch_diff = current_epoch - borrow_epoch;
    let time_unit_percentage = (epoch_diff * BASE_PRECISION) / (EPOCHS_IN_YEAR as int);
    let debt_percentage = (time_unit_percentage * borrow_rate) / (BASE_PRECISION as int);
    &&& epoch_diff * BASE_PRECISION <= u128::MAX
    &&& time_unit_percentage * borrow_rate <= u128::MAX
    &&& debt_percentage * amount <= u128::MAX
}

/// Rewards owed to a receipt created at `lend_epoch`, counted up to the last
/// accrual epoch. A receipt newer than the accrual epoch has simply earned
/// nothing yet.
pub open spec fn spec_reward_amount(
    amount: u128,
    lend_epoch: u64,
    last_calculate_rewards_epoch: u64,
    reward_percentage_per_epoch: u128,
) -> int {
    if lend_epoch >= last_calculate_rewards_epoch {
        0
    } else {
        let epoch_diff = last_calculate_rewards_epoch - lend_epoch;
        (epoch_diff * reward_percentage_per_epoch * amount) / (BASE_PRECISION as int)
    }
}

pub open spec fn reward_fits(
    amount: u128,
    lend_epoch: u64,
    last_calculate_rewards_epoch: u64,
    reward_percentage_per_epoch: u128,
) -> bool {
    lend_epoch < last_calculate_rewards_epoch ==> {
        let epoch_diff = last_calculate_rewards_epoch - lend_epoch;
        &&& epoch_diff * reward_percentage_per_epoch <= u128::MAX
        &&& epoch_diff * reward_percentage_per_epoch * amount <= u128::MAX
    }
}

/// Decides whether a product stays within the machine width, so callers can
/// test an overflow precondition before relying on it.
pub fn mul_fits(a: u128, b: u128) -> (r: bool)
    ensures
        r == (a * b <= u128::MAX),
{
    if b == 0 {
        return true;
    }
    let q: u128 = u128::MAX / b;
    proof {
        vstd::arithmetic::div_mod::lemma_fundamental_div_mod(u128::MAX as int, b as int);
        vstd::arithmetic::div_mod::lemma_mod_bound(u128::MAX as int, b as int);
        let rest = u128::MAX as int % b as int;
        assert(q as int * b as int == u128::MAX - rest);
        if a <= q {
            assert(a as int * b as int <= q as int * b as int) by (nonlinear_arith)
                requires
                    a as int <= q as int,
                    b as int >= 0,
            ;
        } else {
            assert(a as int * b as int >= (q as int + 1) * b as int) by (nonlinear_arith)
                requires
                    a as int >= q as int + 1,
                    b as int >= 0,
            ;
            assert((q as int + 1) * b as int == q as int * b as int + b as int) by (nonlinear_arith)
            ;
            assert(q as int * b as int + b as int > u128::MAX);
        }
    }
    a <= q
}

pub fn compute_borrow_rate(
    r_base: u128,
    r_slope1: u128,
    r_slope2: u128,
    u_optimal: u128,
    u_current: u128,
) -> (r: u128)
    requires
        u_current < u_optimal || u_optimal < BASE_PRECISION,
        borrow_rate_fits(r_base, r_slope1, r_slope2, u_optimal, u_current),
    ensures
        r as int == spec_borrow_rate(r_base, r_slope1, r_slope2, u_optimal, u_current),
{
    if u_current < u_optimal {
        let utilisation_ratio: u128 = (u_current * r_slope1) / u_optimal;
        r_base + utilisation_ratio
    } else {
        let denominator: u128 = BASE_PRECISION - u_optimal;
        let numerator: u128 = (u_current - u_optimal) * r_slope2;
        (r_base + r_slope1) + numerator / denominator
    }
}

pub fn compute_capital_utilisation(
    borrowed_amount: u128,
    total_pool_reserves: u128,
) -> (r: Result<u128, SaError>)
    requires
        borrowed_amount * BASE_PRECISION <= u128::MAX,
    ensures
        r is Err <==> total_pool_reserves == 0,
        r is Err ==> r == Err::<u128, SaError>(SaError::DivisionByZero),
        r matches Ok(u) ==> u as int == spec_capital_utilisation(borrowed_amount, total_pool_reserves),
{
    if total_pool_reserves == 0 {
        Err(SaError::DivisionByZero)
    } else {
        Ok((borrowed_amount * BASE_PRECISION) / total_pool_reserves)
    }
}

pub fn compute_staking_position_value(
    staked_token_value_in_dollars: u128,
    staked_amount: u128,
) -> (r: u128)
    requires
        staked_token_value_in_dollars * staked_amount <= u128::MAX,
    ensures
        r as int == spec_staking_position_value(staked_token_value_in_dollars, staked_amount),
{
    (staked_token_value_in_dollars * staked_amount) / DEFAULT_DECIMALS
}

pub fn compute_borrow_amount(borrow_rate: u128, deposit_value: u128) -> (r: u128)
    requires
        borrow_rate * deposit_value <= u128::MAX,
    ensures
        r as int == spec_borrow_amount(borrow_rate, deposit_value),
{
    (borrow_rate * deposit_value) / BASE_PRECISION
}

pub fn compute_debt(
    amount: u128,
    borrow_epoch: u64,
    current_epoch: u64,
    borrow_rate: u128,
) -> (r: u128)
    requires
        borrow_epoch <= current_epoch,
        debt_fits(amount, borrow_epoch, current_epoch, borrow_rate),
    ensures
        r as int == spec_debt(amount, borrow_epoch, current_epoch, borrow_rate),
{
    let epoch_diff: u64 = current_epoch - borrow_epoch;
    let time_unit_percentage: u128 = ((epoch_diff as u128) * BASE_PRECISION) / EPOCHS_IN_YEAR;
    let debt_percentage: u128 = (time_unit_percentage * borrow_rate) / BASE_PRECISION;
    (debt_percentage * amount) / BASE_PRECISION
}

pub fn compute_reward_amount(
    amount: u128,
    lend_epoch: u64,
    last_calculate_rewards_epoch: u64,
    reward_percentage_per_epoch: u128,
) -> (r: u128)
    requires
        reward_fits(amount, lend_epoch, last_calculate_rewards_epoch, reward_percentage_per_epoch),
    ensures
        r as int == spec_reward_amount(
            amount,
            lend_epoch,
            last_calculate_rewards_epoch,
            reward_percentage_per_epoch,
        ),
{
    if lend_epoch >= last_calculate_rewards_epoch {
        return 0;
    }

    let epoch_diff: u64 = last_calculate_rewards_epoch - lend_epoch;
    let percentage: u128 = (epoch_diff as u128) * reward_percentage_per_epoch;
    (percentage * amount) / BASE_PRECISION
}

} // verus!
