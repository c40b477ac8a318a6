use vstd::prelude::*;

use crate::model::SaError;
use crate::SavingsAccount;

verus! {

/// Budget that must stay unused so an interrupted operation can still persist
/// its checkpoint before the invocation ends.
pub const MIN_GAS_TO_SAVE_PROGRESS: u64 = 100_000_000;

/// How many rounds a dispatched remote claim may sit without its callback
/// before a new claim attempt is allowed to abandon it.
pub const NR_ROUNDS_WAIT_FOR_CALLBACK: u64 = 100;

/// The single persisted slot describing which long-running operation, if any,
/// is paused mid-flight. Keeping it a sum type makes "at most one operation"
/// a structural fact.
#[derive(Clone, Copy, PartialEq, Eq, Structural, Debug)]
pub enum OngoingOperationType {
    NoOperation,
    ClaimStakingRewards { pos_id: u64, async_call_fire_round: u64, callback_executed: bool },
}

/// What one step of a resumable loop asks the driver to do next.
#[derive(Clone, Copy, PartialEq, Eq, Structural, Debug)]
pub enum LoopOp {
    Continue,
    Save(OngoingOperationType),
    Break,
}

impl LoopOp {
    pub fn is_break(&self) -> (r: bool)
        ensures
            r == (*self is Break),
    {
        matches!(self, LoopOp::Break)
    }
}

impl SavingsAccount {
    /// Whether one more unit of work fits: enough budget must remain for the
    /// step itself, the requested extra reserve, and saving the checkpoint.
    pub fn can_continue_operation(&self, gas_left: u64, operation_cost: u64, extra_reserve_needed: u64) -> (r:
        bool)
        ensures
            r == (gas_left > MIN_GAS_TO_SAVE_PROGRESS + operation_cost + extra_reserve_needed),
    {
        let budget: u128 = MIN_GAS_TO_SAVE_PROGRESS as u128 + operation_cost as u128
            + extra_reserve_needed as u128;
        gas_left as u128 > budget
    }

    /// The operation currently paused mid-flight, if any.
    pub fn load_operation(&self) -> (r: OngoingOperationType)
        ensures
            r == self.current_ongoing_operation,
    {
        self.current_ongoing_operation
    }

    /// Persists the checkpoint of an interrupted operation.
    pub fn save_progress(&mut self, operation: &OngoingOperationType)
        ensures
            *final(self) == (SavingsAccount { current_ongoing_operation: *operation, ..*old(self) }),
    {
        self.current_ongoing_operation = *operation;
    }

    /// Clears the in-flight slot once an operation has fully completed.
    pub fn clear_operation(&mut self)
        ensures
            *final(self) == (SavingsAccount {
                current_ongoing_operation: OngoingOperationType::NoOperation,
                ..*old(self)
            }),
    {
        self.current_ongoing_operation = OngoingOperationType::NoOperation;
    }

    /// Entry guard of every non-resumable operation: while a long-running
    /// operation is paused pool-wide, other state-changing calls are refused.
    pub fn require_no_ongoing_operation(&self) -> (r: Result<(), SaError>)
        ensures
            r is Ok <==> self.current_ongoing_operation is NoOperation,
            r is Err ==> r == Err::<(), SaError>(SaError::OngoingOperationInProgress),
    {
        match self.current_ongoing_operation {
            OngoingOperationType::NoOperation => Ok(()),
            _ => Err(SaError::OngoingOperationInProgress),
        }
    }
}

} // verus!
