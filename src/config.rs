use vstd::prelude::*;
use crate::algorithms::{algorithm_named, LoadBalancerAlgorithm};

verus! {

/// Startup configuration of the balancer.
pub struct Args {
    /// Port to listen on.
    pub port: u16,
    /// Backend addresses, comma-separated.
    pub backends: String,
    /// Policy name: round_robin, least_connections, random or weighted_round_robin.
    pub algorithm: String,
    /// Seconds between two health passes.
    pub health_check_interval: u64,
}

impl Args {
    /// The configured policy; unknown names mean round robin.
    pub fn selected_algorithm(&self) -> (r: LoadBalancerAlgorithm)
        ensures
            r == algorithm_named(self.algorithm@),
    {
        LoadBalancerAlgorithm::from_name(self.algorithm.as_str())
    }
}

} // verus!
