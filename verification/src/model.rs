use vstd::prelude::*;

verus! {

/// Interest-rate curve parameters of the pool, all fixed-point values scaled
/// by `BASE_PRECISION` (10^9 = 100%).
#[derive(Clone, Copy, PartialEq, Eq, Structural, Debug)]
pub struct PoolParams {
    pub base_borrow_rate: u128,
    pub borrow_rate_under_opt_factor: u128,
    pub borrow_rate_over_opt_factor: u128,
    pub optimal_utilisation: u128,
}

/// Attributes of a lend receipt: all receipts created in the same epoch share
/// one token nonce and therefore one metadata record.
#[derive(Clone, Copy, PartialEq, Eq, Structural, Debug)]
pub struct LendMetadata {
    pub lend_epoch: u64,
}

/// Attributes of a borrow receipt. The collateral value is snapshotted at
/// borrow time so that repayments restore `borrowed_amount` by the same
/// measure it was increased with, regardless of later price drift.
#[derive(Clone, Copy, PartialEq, Eq, Structural, Debug)]
pub struct BorrowMetadata {
    pub staking_position_id: u64,
    pub borrow_epoch: u64,
    pub staked_token_value_in_dollars_at_borrow: u128,
}

/// A single token payment: which token, which nonce (0 for fungible tokens),
/// and how much.
#[derive(Clone, Copy, PartialEq, Eq, Structural, Debug)]
pub struct EsdtTokenPayment {
    pub token_identifier: u64,
    pub token_nonce: u64,
    pub amount: u128,
}

impl EsdtTokenPayment {
    pub fn new(token_identifier: u64, token_nonce: u64, amount: u128) -> (r: Self)
        ensures
            r == (EsdtTokenPayment { token_identifier, token_nonce, amount }),
    {
        EsdtTokenPayment { token_identifier, token_nonce, amount }
    }
}

/// Every way a pool operation can be rejected. Validation and precondition
/// failures are synchronous and leave the state untouched.
#[derive(Clone, Copy, PartialEq, Eq, Structural, Debug)]
pub enum SaError {
    /// A fixed-point ratio was requested with a zero denominator.
    DivisionByZero,
    /// The payment token does not match the pool's stable asset.
    MayOnlyLendStablecoins,
    /// The collateral payment is not the accepted liquid staking token.
    MayOnlyUseLiquidStakingAsCollateral,
    /// The loan that this deposit would earn rounds down to zero.
    DepositAmountTooLow,
    /// Granting the loan would make `borrowed_amount` exceed `lent_amount`.
    NotEnoughFundsToLend,
    /// The stablecoins paid do not cover collateral value plus debt.
    NotEnoughStablecoinsPaid,
    /// The withdrawal would dip into funds currently out on loan.
    CannotWithdrawNotEnoughFunds,
    /// The pool's tracked balance cannot cover the requested payout.
    NotEnoughReserves,
    /// No rewards have accrued for this receipt yet.
    NoRewardsToClaim,
    /// The caller opted out of penalties, but a penalty is currently due.
    RewardsHavePenalty,
    /// Another long-running operation holds the single in-flight slot.
    OngoingOperationInProgress,
    /// A remote claim was dispatched and its callback has not arrived yet.
    CallbackNotExecutedYet,
    /// Staking rewards were already claimed in the current epoch.
    AlreadyClaimedThisEpoch,
    /// There are no collateral positions to claim rewards for.
    NoStakingPositionsAvailable,
    /// Conversion requires this epoch's staking rewards to be claimed first.
    MustClaimRewardsFirst,
    /// The staking token was already converted to stablecoins this epoch.
    AlreadyConvertedThisEpoch,
    /// The swap returned a token other than the pool's stable asset.
    InvalidTokenReceivedFromSwap,
    /// The position id is the sentinel or names no live position.
    InvalidStakingPositionId,
    /// The referenced receipt nonce does not exist.
    InvalidTokenNonce,
    /// The new collateral reference is already held by another position.
    DuplicateCollateralReference,
    /// A callback arrived while no matching operation was in flight.
    InvalidOperationInCallback,
    /// The remote service reported failure for the dispatched batch.
    AsyncCallFailed,
    /// The lengths of the dispatched and returned batches differ.
    InvalidLiquidStakingPositionLengths,
    /// Only the delegation contract may deliver staking rewards.
    OnlyDelegationMayCall,
    /// The oracle has no price for the staked token.
    FailedToGetStakedTokenPrice,
    /// A payment carries a token other than the receipt the call works on.
    InvalidPayment,
}

/// One nonce of the semi-fungible lend receipt token: all principal deposited
/// in `lend_epoch` pools under this nonce; `supply` is the amount still in
/// circulation (partial burns only ever decrease it).
#[derive(Clone, Copy, PartialEq, Eq, Structural, Debug)]
pub struct LendSlot {
    pub lend_epoch: u64,
    pub supply: u128,
}

/// One nonce of the borrow receipt token, created per borrow.
#[derive(Clone, Copy, PartialEq, Eq, Structural, Debug)]
pub struct BorrowSlot {
    pub attributes: BorrowMetadata,
    pub supply: u128,
}

/// Outcome of one execution of a resumable operation: either all remaining
/// work was done, or the compute budget ran out first.
#[derive(Clone, Copy, PartialEq, Eq, Structural, Debug)]
pub enum OperationCompletionStatus {
    Completed,
    InterruptedBeforeOutOfGas,
}

} // verus!
