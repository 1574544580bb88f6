use vstd::prelude::*;

verus! {

/// One downstream server together with its health flag and load counters.
#[derive(Debug)]
pub struct BackendServer {
    /// `host:port` of the server; never changes after creation.
    pub address: String,
    pub healthy: bool,
    /// Number of forwarded requests currently in flight to this server.
    pub connections: u32,
    /// Static weight used by weighted selection.
    pub weight: u32,
    /// Time (in milliseconds on the caller's monotonic clock) at which the
    /// last health probe result was recorded; `None` before the first one.
    pub last_health_check: Option<u64>,
    /// Latency in milliseconds of the most recent probe.
    pub response_time: u64,
}

impl BackendServer {
    /// A fresh record: healthy, idle, never probed.
    pub fn new(address: String, weight: u32) -> (r: Self)
        ensures
            r.address == address,
            r.healthy,
            r.connections == 0,
            r.weight == weight,
            r.last_health_check is None,
            r.response_time == 0,
    {
        BackendServer {
            address,
            healthy: true,
            connections: 0,
            weight,
            last_health_check: None,
            response_time: 0,
        }
    }

    /// A copy of the record, equal to it in every field.
    pub fn snapshot(&self) -> (r: Self)
        ensures
            r == *self,
    {
        BackendServer {
            address: self.address.clone(),
            healthy: self.healthy,
            connections: self.connections,
            weight: self.weight,
            last_health_check: self.last_health_check,
            response_time: self.response_time,
        }
    }
}

} // verus!
