use vstd::prelude::*;

verus! {

/// A price feed answer as the oracle returns it, flattened to plain values:
/// round counter, the two ticker handles, the price, and its decimals.
pub type AggregatorResultAsMultiResult = (u32, u64, u64, u128, u8);

/// The latest oracle quote for one token pair.
#[derive(Clone, Copy, PartialEq, Eq, Structural, Debug)]
pub struct AggregatorResult {
    pub round_id: u32,
    pub from_token_name: u64,
    pub to_token_name: u64,
    pub price: u128,
    pub decimals: u8,
}

impl From<AggregatorResultAsMultiResult> for AggregatorResult {
    /// Repacks the oracle's flat answer field by field.
    fn from(multi_result: AggregatorResultAsMultiResult) -> (r: Self) {
        let (round_id, from_token_name, to_token_name, price, decimals) = multi_result;
        AggregatorResult { round_id, from_token_name, to_token_name, price, decimals }
    }
}

impl vstd::std_specs::convert::FromSpecImpl<AggregatorResultAsMultiResult> for AggregatorResult {
    open spec fn obeys_from_spec() -> bool {
        true
    }

    open spec fn from_spec(multi_result: AggregatorResultAsMultiResult) -> Self {
        AggregatorResult {
            round_id: multi_result.0,
            from_token_name: multi_result.1,
            to_token_name: multi_result.2,
            price: multi_result.3,
            decimals: multi_result.4,
        }
    }
}

} // verus!
