use vstd::prelude::*;
use crate::backend::BackendServer;
use crate::registry::{find_address, lemma_find_address_bounds, position_of};

verus! {

/// Outcome of probing one backend during a health pass.
#[derive(Debug)]
pub struct HealthProbe {
    pub address: String,
    pub healthy: bool,
    /// Time the probe took, in milliseconds, whatever its outcome.
    pub response_time: u64,
}

/// A probe is a success when it got an answer with a 2xx status; `None`
/// stands for a transport failure.
pub open spec fn status_is_healthy(status: Option<u16>) -> bool {
    match status {
        Some(code) => 200 <= code <= 299,
        None => false,
    }
}

/// Classifies the answer to a health probe.
pub fn probe_is_healthy(status: Option<u16>) -> (r: bool)
    ensures
        r == status_is_healthy(status),
{
    match status {
        Some(code) => 200 <= code && code <= 299,
        None => false,
    }
}

/// The result of probing `address`, given the answer's status (`None` when
/// the probe failed to get one) and how long it took.
pub fn probe_result(address: String, status: Option<u16>, response_time: u64) -> (r: HealthProbe)
    ensures
        r.address == address,
        r.healthy == status_is_healthy(status),
        r.response_time == response_time,
{
    HealthProbe { address, healthy: probe_is_healthy(status), response_time }
}

/// The addresses to probe in one pass: every registered record, in order.
pub fn health_targets(backends: &Vec<BackendServer>) -> (r: Vec<String>)
    ensures
        r@.len() == backends@.len(),
        forall|i: int| 0 <= i < r@.len() ==> r@[i] == backends@[i].address,
{
    let mut r: Vec<String> = Vec::new();
    let mut i: usize = 0;
    while i < backends.len()
        invariant
            i <= backends.len(),
            r@.len() == i,
            forall|j: int| 0 <= j < i ==> r@[j] == backends@[j].address,
        decreases backends.len() - i,
    {
        r.push(backends[i].address.clone());
        i = i + 1;
    }
    r
}

/// The record after a probe result observed at time `t` is written to it.
pub open spec fn with_probe(b: BackendServer, p: HealthProbe, t: u64) -> BackendServer {
    BackendServer {
        healthy: p.healthy,
        response_time: p.response_time,
        last_health_check: Some(t),
        ..b
    }
}

/// The registry after writing `p` to the first record under its address.
pub open spec fn probe_applied(s: Seq<BackendServer>, p: HealthProbe, t: u64) -> Seq<BackendServer> {
    let i = find_address(s, p.address@);
    if i < s.len() {
        s.update(i, with_probe(s[i], p, t))
    } else {
        s
    }
}

/// The registry after writing back all results of a pass, in order.
pub open spec fn pass_applied(s: Seq<BackendServer>, results: Seq<HealthProbe>, t: u64) -> Seq<BackendServer>
    decreases results.len(),
{
    if results.len() == 0 {
        s
    } else {
        probe_applied(pass_applied(s, results.drop_last(), t), results.last(), t)
    }
}

/// Writes one probe result; unknown addresses are ignored.
pub fn apply_health_result(backends: &mut Vec<BackendServer>, probe: &HealthProbe, observed_at: u64)
    ensures
        final(backends)@ == probe_applied(old(backends)@, *probe, observed_at),
{
    let i = position_of(backends, &probe.address);
    proof {
        lemma_find_address_bounds(backends@, probe.address@);
    }
    if i < backends.len() {
        backends[i].healthy = probe.healthy;
        backends[i].response_time = probe.response_time;
        backends[i].last_health_check = Some(observed_at);
        assert(backends@ =~= probe_applied(old(backends)@, *probe, observed_at));
    }
}

/// Writes back the buffered results of one health pass, all stamped with the
/// time `observed_at` at which the pass finished.
pub fn apply_health_results(backends: &mut Vec<BackendServer>, results: &Vec<HealthProbe>, observed_at: u64)
    ensures
        final(backends)@ == pass_applied(old(backends)@, results@, observed_at),
{
    let ghost start = backends@;
    let mut i: usize = 0;
    while i < results.len()
        invariant
            i <= results.len(),
            backends@ == pass_applied(start, results@.subrange(0, i as int), observed_at),
        decreases results.len() - i,
    {
        proof {
            assert(results@.subrange(0, i + 1).drop_last() =~= results@.subrange(0, i as int));
        }
        apply_health_result(backends, &results[i], observed_at);
        i = i + 1;
    }
    proof {
        assert(results@.subrange(0, i as int) =~= results@);
    }
}

} // verus!
