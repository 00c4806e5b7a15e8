//! On-chain liquidity access: the fetcher's configuration lives here;
//! the network call itself is made by the surrounding application,
//! which hands the fetched figure to the feature calculator.

use vstd::prelude::*;

verus! {

/// Holder of the RPC endpoints an application fetches liquidity from.
pub struct OnChainFetcher {
    pub rpc_endpoints: Vec<String>,
}

impl OnChainFetcher {
    /// A fetcher over the given endpoints.
    pub fn new(rpc_endpoints: Vec<String>) -> (r: OnChainFetcher)
        ensures
            r.rpc_endpoints@ == rpc_endpoints@,
    {
        OnChainFetcher { rpc_endpoints }
    }

    /// How many endpoints are configured.
    pub fn endpoint_count(&self) -> (r: usize)
        ensures
            r == self.rpc_endpoints@.len(),
    {
        self.rpc_endpoints.len()
    }
}

} // verus!
