use vstd::prelude::*;

use crate::model::EsdtTokenPayment;

verus! {

/// One whole unit of the chain's native token.
pub const EGLD_DECIMALS: u128 = 1_000_000_000_000_000_000;

/// A stand-in for the swap service: it buys the incoming token at a flat rate
/// of 100 stablecoins per whole native token.
pub struct DexMock {
    pub stablecoin_balance: u128,
}

impl DexMock {
    pub fn init() -> (r: Self)
        ensures
            r.stablecoin_balance == 0,
    {
        DexMock { stablecoin_balance: 0 }
    }

    /// Funds the mock with stablecoins to pay swaps out of.
    pub fn deposit(&mut self, amount: u128)
        requires
            old(self).stablecoin_balance + amount <= u128::MAX,
        ensures
            final(self).stablecoin_balance == old(self).stablecoin_balance + amount,
    {
        self.stablecoin_balance = self.stablecoin_balance + amount;
    }

    /// Swaps the full paid amount at the flat rate, whatever the minimum
    /// asked for; the payout comes out of the mock's funding.
    pub fn swap_tokens_fixed_input(
        &mut self,
        token_in: u64,
        amount_in: u128,
        token_out: u64,
        amount_out_min: u128,
    ) -> (r: EsdtTokenPayment)
        requires
            amount_in * 100 <= u128::MAX,
            (amount_in * 100) / (EGLD_DECIMALS as int) <= old(self).stablecoin_balance,
        ensures
            r == (EsdtTokenPayment {
                token_identifier: token_out,
                token_nonce: 0,
                amount: ((amount_in * 100) / (EGLD_DECIMALS as int)) as u128,
            }),
            final(self).stablecoin_balance as int == old(self).stablecoin_balance - r.amount,
    {
        let amount_out: u128 = amount_in * 100 / EGLD_DECIMALS;
        self.stablecoin_balance = self.stablecoin_balance - amount_out;
        EsdtTokenPayment { token_identifier: token_out, token_nonce: 0, amount: amount_out }
    }
}

} // verus!
