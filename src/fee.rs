use vstd::prelude::*;

verus! {

/// Gas price used before the main node has answered once.
pub const DEFAULT_L1_GAS_PRICE: u64 = 1_000_000_000;

/// Pubdata price used before the main node has answered once.
pub const DEFAULT_L1_PUBDATA_PRICE: u64 = 17_000_000_000;

/// The fee inputs that the main node publishes.
#[derive(Debug, Clone, Copy, PartialEq, Eq, Structural)]
pub struct MainNodeFeeParams {
    pub l1_gas_price: u64,
    pub l1_pubdata_price: u64,
}

/// What the polling loop does next.
#[derive(Debug, Clone, Copy, PartialEq, Eq, Structural)]
pub enum FetcherAction {
    /// Ask the main node, then sleep.
    Fetch,
    /// Leave the loop.
    Stop,
}

/// The last fee inputs known from the main node, which smooths the L1 gas
/// price in a way that the external node cannot replicate.
#[derive(Debug, Clone, Copy, PartialEq, Eq, Structural)]
pub struct MainNodeBatchFeeInputFetcher {
    fee_model_output: MainNodeFeeParams,
}

impl MainNodeBatchFeeInputFetcher {
    pub closed spec fn params(&self) -> MainNodeFeeParams {
        self.fee_model_output
    }

    /// Starts from the default prices.
    pub fn new() -> (r: MainNodeBatchFeeInputFetcher)
        ensures
            r.params() == (MainNodeFeeParams {
                l1_gas_price: DEFAULT_L1_GAS_PRICE,
                l1_pubdata_price: DEFAULT_L1_PUBDATA_PRICE,
            }),
    {
        MainNodeBatchFeeInputFetcher {
            fee_model_output: MainNodeFeeParams {
                l1_gas_price: DEFAULT_L1_GAS_PRICE,
                l1_pubdata_price: DEFAULT_L1_PUBDATA_PRICE,
            },
        }
    }

    pub fn get_fee_model_params(&self) -> (r: MainNodeFeeParams)
        ensures
            r == self.params(),
    {
        self.fee_model_output
    }

    /// The loop's decision: stop once a stop is requested, fetch otherwise.
    pub fn next_action(stop_requested: bool) -> (r: FetcherAction)
        ensures
            r == if stop_requested { FetcherAction::Stop } else { FetcherAction::Fetch },
    {
        if stop_requested {
            FetcherAction::Stop
        } else {
            FetcherAction::Fetch
        }
    }

    /// Takes in the outcome of one request: an answer replaces the known
    /// inputs, a failed request keeps them.
    pub fn record_fetch(&mut self, fetched: Option<MainNodeFeeParams>)
        ensures
            final(self).params() == match fetched {
                Some(p) => p,
                None => old(self).params(),
            },
    {
        if let Some(p) = fetched {
            self.fee_model_output = p;
        }
    }
}

} // verus!
