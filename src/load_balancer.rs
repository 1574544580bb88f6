use vstd::prelude::*;
use crate::algorithms::{
    chosen_index, cursor_after, draw_allowed, select_backend, LoadBalancerAlgorithm,
};
use crate::backend::BackendServer;
use crate::health::{apply_health_results, health_targets, pass_applied, HealthProbe};
use crate::registry::{
    count_healthy, decrement, decremented, healthy_of, increment, incremented,
};

verus! {

/// The record that a freshly configured balancer holds for `addr`.
pub open spec fn initial_record(addr: String) -> BackendServer {
    BackendServer {
        address: addr,
        healthy: true,
        connections: 0,
        weight: 1,
        last_health_check: None,
        response_time: 0,
    }
}

/// The backend registry together with the selection policy and the
/// round-robin cursor that the policy keeps between calls.
#[derive(Debug)]
pub struct LoadBalancer {
    pub backends: Vec<BackendServer>,
    pub algorithm: LoadBalancerAlgorithm,
    pub current_index: usize,
}

/// How one request ended.
#[derive(Debug, Clone, Copy, PartialEq, Eq, Structural)]
pub enum ForwardOutcome {
    /// No backend was healthy; nothing was forwarded.
    NoCapacity,
    /// The chosen backend could not be reached or the transport failed.
    BackendFailed,
    /// The backend answered with this status, relayed unchanged.
    Relayed(u16),
}

impl ForwardOutcome {
    /// HTTP status reported to the client.
    pub fn status_code(&self) -> (r: u16)
        ensures
            r == match *self {
                ForwardOutcome::NoCapacity => 503u16,
                ForwardOutcome::BackendFailed => 502u16,
                ForwardOutcome::Relayed(code) => code,
            },
    {
        match self {
            ForwardOutcome::NoCapacity => 503,
            ForwardOutcome::BackendFailed => 502,
            ForwardOutcome::Relayed(code) => *code,
        }
    }
}

impl LoadBalancer {
    /// One healthy, idle record of weight 1 per address, in the given order,
    /// and the cursor at zero.
    pub fn new(backend_addresses: Vec<String>, algorithm: LoadBalancerAlgorithm) -> (r: Self)
        ensures
            r.backends@.len() == backend_addresses@.len(),
            forall|i: int| 0 <= i < r.backends@.len() ==> r.backends@[i] == initial_record(backend_addresses@[i]),
            r.algorithm == algorithm,
            r.current_index == 0,
    {
        let mut backends: Vec<BackendServer> = Vec::new();
        let mut i: usize = 0;
        while i < backend_addresses.len()
            invariant
                i <= backend_addresses.len(),
                backends@.len() == i,
                forall|j: int| 0 <= j < i ==> backends@[j] == initial_record(backend_addresses@[j]),
            decreases backend_addresses.len() - i,
        {
            backends.push(BackendServer::new(backend_addresses[i].clone(), 1));
            i = i + 1;
        }
        LoadBalancer { backends, algorithm, current_index: 0 }
    }

    /// Picks a healthy backend under the configured policy (see
    /// `select_backend`); only the cursor may change.
    pub fn select_backend(&mut self) -> (r: Option<BackendServer>)
        ensures
            final(self).backends == old(self).backends,
            final(self).algorithm == old(self).algorithm,
            r is None <==> healthy_of(old(self).backends@).len() == 0,
            r is None ==> final(self).current_index == old(self).current_index,
            r is Some ==> exists|d: int| #![auto]
                draw_allowed(healthy_of(old(self).backends@), old(self).algorithm, d)
                && r == Some(healthy_of(old(self).backends@)[chosen_index(
                    healthy_of(old(self).backends@), old(self).algorithm, old(self).current_index as int, d)]),
            r is Some ==> final(self).current_index as int == cursor_after(
                old(self).algorithm, healthy_of(old(self).backends@).len() as int, old(self).current_index as int),
    {
        select_backend(&self.backends, &self.algorithm, &mut self.current_index)
    }

    /// Adds one in-flight connection to the record under `address`.
    pub fn increment_connections(&mut self, address: &str)
        ensures
            final(self).backends@ == incremented(old(self).backends@, address@),
            final(self).algorithm == old(self).algorithm,
            final(self).current_index == old(self).current_index,
    {
        increment(&mut self.backends, address)
    }

    /// Removes one in-flight connection from the record under `address`,
    /// never below zero.
    pub fn decrement_connections(&mut self, address: &str)
        ensures
            final(self).backends@ == decremented(old(self).backends@, address@),
            final(self).algorithm == old(self).algorithm,
            final(self).current_index == old(self).current_index,
    {
        decrement(&mut self.backends, address)
    }

    /// Addresses to probe in a health pass, snapshotted before probing.
    pub fn health_check_targets(&self) -> (r: Vec<String>)
        ensures
            r@.len() == self.backends@.len(),
            forall|i: int| 0 <= i < r@.len() ==> r@[i] == self.backends@[i].address,
    {
        health_targets(&self.backends)
    }

    /// Writes back the results of a finished health pass.
    pub fn record_health_results(&mut self, results: &Vec<HealthProbe>, observed_at: u64)
        ensures
            final(self).backends@ == pass_applied(old(self).backends@, results@, observed_at),
            final(self).algorithm == old(self).algorithm,
            final(self).current_index == old(self).current_index,
    {
        apply_health_results(&mut self.backends, results, observed_at)
    }

    /// First step of forwarding a request: selects a backend and, if there
    /// is one, marks it busy before any I/O. With no healthy backend the
    /// registry is left untouched.
    pub fn begin_forward(&mut self) -> (r: Option<BackendServer>)
        ensures
            final(self).algorithm == old(self).algorithm,
            r is None <==> healthy_of(old(self).backends@).len() == 0,
            r is None ==> *final(self) == *old(self),
            r is Some ==> exists|d: int| #![auto]
                draw_allowed(healthy_of(old(self).backends@), old(self).algorithm, d)
                && r == Some(healthy_of(old(self).backends@)[chosen_index(
                    healthy_of(old(self).backends@), old(self).algorithm, old(self).current_index as int, d)]),
            r is Some ==> final(self).current_index as int == cursor_after(
                old(self).algorithm, healthy_of(old(self).backends@).len() as int, old(self).current_index as int),
            r is Some ==> final(self).backends@ == incremented(old(self).backends@, r->0.address@),
    {
        let selected = self.select_backend();
        match selected {
            Some(backend) => {
                self.increment_connections(backend.address.as_str());
                Some(backend)
            },
            None => None,
        }
    }

    /// Last step of forwarding a request, taken once on every path after
    /// `begin_forward` chose `address`: marks one connection finished.
    pub fn finish_forward(&mut self, address: &str)
        ensures
            final(self).backends@ == decremented(old(self).backends@, address@),
            final(self).algorithm == old(self).algorithm,
            final(self).current_index == old(self).current_index,
    {
        self.decrement_connections(address)
    }

    /// Number of healthy records.
    pub fn healthy_count(&self) -> (r: usize)
        ensures
            r == healthy_of(self.backends@).len(),
    {
        count_healthy(&self.backends)
    }

    /// Status of the health summary: 200 while some backend is healthy,
    /// 503 otherwise.
    pub fn summary_status(&self) -> (r: u16)
        ensures
            r == if healthy_of(self.backends@).len() > 0 { 200u16 } else { 503u16 },
    {
        if self.healthy_count() > 0 {
            200
        } else {
            503
        }
    }
}

} // verus!
