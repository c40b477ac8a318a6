use vstd::prelude::*;

use crate::model::{EsdtTokenPayment, SaError};

verus! {

/// The total paid in by a batch of collateral payments.
pub open spec fn sum_of_amounts(payments: Seq<EsdtTokenPayment>) -> int
    decreases payments.len(),
{
    if payments.len() == 0 {
        0
    } else {
        sum_of_amounts(payments.drop_last()) + payments.last().amount
    }
}

/// A stand-in for the staking-rewards service: staking mints a liquid staking
/// token under a fresh nonce, and a claim re-mints every paid-in token under
/// a fresh nonce while paying a tenth of the total as rewards.
pub struct DelegationMock {
    pub liquid_staking_token_id: u64,
    pub last_sft_nonce: u64,
}

impl DelegationMock {
    pub fn init(liquid_staking_token_id: u64) -> (r: Self)
        ensures
            r.liquid_staking_token_id == liquid_staking_token_id,
            r.last_sft_nonce == 0,
    {
        DelegationMock { liquid_staking_token_id, last_sft_nonce: 0 }
    }

    /// Stakes native tokens and hands back a liquid staking position of the
    /// same size under a fresh nonce.
    pub fn stake(&mut self, payment_amount: u128) -> (r: Result<EsdtTokenPayment, SaError>)
        requires
            old(self).last_sft_nonce < u64::MAX,
        ensures
            payment_amount == 0 ==> r == Err::<EsdtTokenPayment, SaError>(SaError::InvalidPayment)
                && *final(self) == *old(self),
            payment_amount > 0 ==> {
                &&& r == Ok::<EsdtTokenPayment, SaError>(
                    EsdtTokenPayment {
                        token_identifier: old(self).liquid_staking_token_id,
                        token_nonce: (old(self).last_sft_nonce + 1) as u64,
                        amount: payment_amount,
                    },
                )
                &&& *final(self) == (DelegationMock {
                    last_sft_nonce: (old(self).last_sft_nonce + 1) as u64,
                    ..*old(self)
                })
            },
    {
        if payment_amount == 0 {
            return Err(SaError::InvalidPayment);
        }
        self.last_sft_nonce = self.last_sft_nonce + 1;
        Ok(
            EsdtTokenPayment {
                token_identifier: self.liquid_staking_token_id,
                token_nonce: self.last_sft_nonce,
                amount: payment_amount,
            },
        )
    }

    /// Harvests the rewards of a batch of liquid staking positions: every
    /// paid-in token is re-minted under a fresh nonce with its amount kept,
    /// and a tenth of the total is paid out as rewards. A batch holding any
    /// foreign token is refused whole.
    pub fn claim_rewards(&mut self, payments: &Vec<EsdtTokenPayment>) -> (r: Result<
        (u128, Vec<EsdtTokenPayment>),
        SaError,
    >)
        requires
            old(self).last_sft_nonce + payments@.len() <= u64::MAX,
            sum_of_amounts(payments@) <= u128::MAX,
        ensures
            r is Err ==> *final(self) == *old(self),
            r is Err <==> exists|i: int|
                0 <= i < payments@.len() && (#[trigger] payments@[i]).token_identifier != old(
                    self,
                ).liquid_staking_token_id,
            r matches Err(e) ==> e == SaError::InvalidPayment,
            r matches Ok(out) ==> {
                let (rewards_amount, new_tokens) = out;
                &&& rewards_amount as int == sum_of_amounts(payments@) / 10
                &&& new_tokens@.len() == payments@.len()
                &&& forall|i: int|
                    0 <= i < payments@.len() ==> #[trigger] new_tokens@[i] == (EsdtTokenPayment {
                        token_identifier: old(self).liquid_staking_token_id,
                        token_nonce: (old(self).last_sft_nonce + 1 + i) as u64,
                        amount: payments@[i].amount,
                    })
                &&& final(self).last_sft_nonce as int == old(self).last_sft_nonce
                    + payments@.len()
                &&& final(self).liquid_staking_token_id == old(self).liquid_staking_token_id
            },
    {
        let n: usize = payments.len();
        let mut i: usize = 0;
        while i < n
            invariant
                0 <= i <= n,
                n == payments@.len(),
                *self == *old(self),
                forall|j: int|
                    0 <= j < i ==> (#[trigger] payments@[j]).token_identifier == self.liquid_staking_token_id,
            decreases n - i,
        {
            if payments[i].token_identifier != self.liquid_staking_token_id {
                return Err(SaError::InvalidPayment);
            }
            i += 1;
        }

        let mut new_tokens: Vec<EsdtTokenPayment> = Vec::new();
        let mut total_amount: u128 = 0;
        let mut j: usize = 0;
        while j < n
            invariant
                0 <= j <= n,
                n == payments@.len(),
                old(self).last_sft_nonce + n <= u64::MAX,
                sum_of_amounts(payments@) <= u128::MAX,
                self.liquid_staking_token_id == old(self).liquid_staking_token_id,
                self.last_sft_nonce as int == old(self).last_sft_nonce + j,
                total_amount as int == sum_of_amounts(payments@.take(j as int)),
                new_tokens@.len() == j,
                forall|i2: int|
                    0 <= i2 < j ==> #[trigger] new_tokens@[i2] == (EsdtTokenPayment {
                        token_identifier: old(self).liquid_staking_token_id,
                        token_nonce: (old(self).last_sft_nonce + 1 + i2) as u64,
                        amount: payments@[i2].amount,
                    }),
            decreases n - j,
        {
            let payment = payments[j];
            proof {
                lemma_sum_take_bound(payments@, j as int + 1);
                assert(payments@.take(j as int + 1).drop_last() =~= payments@.take(j as int));
                assert(payments@.take(j as int + 1).last() == payments@[j as int]);
            }
            self.last_sft_nonce = self.last_sft_nonce + 1;
            total_amount = total_amount + payment.amount;
            new_tokens.push(
                EsdtTokenPayment {
                    token_identifier: self.liquid_staking_token_id,
                    token_nonce: self.last_sft_nonce,
                    amount: payment.amount,
                },
            );
            j += 1;
        }
        proof {
            assert(payments@.take(n as int) =~= payments@);
        }
        let rewards_amount: u128 = total_amount / 10;
        Ok((rewards_amount, new_tokens))
    }
}

/// Prefix sums of non-negative amounts never exceed the full sum.
pub proof fn lemma_sum_take_bound(payments: Seq<EsdtTokenPayment>, upto: int)
    requires
        0 <= upto <= payments.len(),
    ensures
        0 <= sum_of_amounts(payments.take(upto)) <= sum_of_amounts(payments),
    decreases payments.len() - upto,
{
    if upto == payments.len() {
        assert(payments.take(upto) =~= payments);
        lemma_sum_nonneg(payments);
    } else {
        lemma_sum_take_bound(payments, upto + 1);
        lemma_sum_nonneg(payments.take(upto));
        assert(payments.take(upto + 1).drop_last() =~= payments.take(upto));
        assert(sum_of_amounts(payments.take(upto + 1)) == sum_of_amounts(payments.take(upto))
            + payments.take(upto + 1).last().amount);
    }
}

/// A sum of token amounts is never negative.
pub proof fn lemma_sum_nonneg(payments: Seq<EsdtTokenPayment>)
    ensures
        sum_of_amounts(payments) >= 0,
    decreases payments.len(),
{
    if payments.len() > 0 {
        lemma_sum_nonneg(payments.drop_last());
    }
}

} // verus!
