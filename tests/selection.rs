use lb::algorithms::{
    choose_index, least_loaded_index, select_backend, total_weight_of, weighted_index,
    LoadBalancerAlgorithm,
};
use lb::backend::BackendServer;

fn record(addr: &str, weight: u32, healthy: bool, connections: u32) -> BackendServer {
    let mut b = BackendServer::new(addr.to_string(), weight);
    b.healthy = healthy;
    b.connections = connections;
    b
}

fn addr_of(r: Option<BackendServer>) -> String {
    r.expect("a backend").address
}

#[test]
fn new_record_is_healthy_and_idle() {
    let b = BackendServer::new("127.0.0.1:3001".to_string(), 4);
    assert_eq!(b.address, "127.0.0.1:3001");
    assert!(b.healthy);
    assert_eq!(b.connections, 0);
    assert_eq!(b.weight, 4);
    assert_eq!(b.last_health_check, None);
    assert_eq!(b.response_time, 0);
}

#[test]
fn algorithm_names() {
    assert_eq!(LoadBalancerAlgorithm::from("least_connections"), LoadBalancerAlgorithm::LeastConnections);
    assert_eq!(LoadBalancerAlgorithm::from("random"), LoadBalancerAlgorithm::Random);
    assert_eq!(LoadBalancerAlgorithm::from("weighted_round_robin"), LoadBalancerAlgorithm::WeightedRoundRobin);
    assert_eq!(LoadBalancerAlgorithm::from("round_robin"), LoadBalancerAlgorithm::RoundRobin);
    assert_eq!(LoadBalancerAlgorithm::from("leas_connections"), LoadBalancerAlgorithm::RoundRobin);
    assert_eq!(LoadBalancerAlgorithm::from_name(""), LoadBalancerAlgorithm::RoundRobin);
}

#[test]
fn round_robin_cycles_in_registration_order() {
    let backends = vec![record("a", 1, true, 0), record("b", 1, true, 0), record("c", 1, true, 0)];
    let mut cursor: usize = 0;
    let mut seen = Vec::new();
    for _ in 0..7 {
        seen.push(addr_of(select_backend(&backends, &LoadBalancerAlgorithm::RoundRobin, &mut cursor)));
    }
    assert_eq!(seen, vec!["a", "b", "c", "a", "b", "c", "a"]);
    assert_eq!(cursor, 1);
}

#[test]
fn round_robin_skips_unhealthy() {
    let backends = vec![record("A", 1, true, 0), record("B", 1, false, 0)];
    let mut cursor: usize = 0;
    let first = addr_of(select_backend(&backends, &LoadBalancerAlgorithm::RoundRobin, &mut cursor));
    let second = addr_of(select_backend(&backends, &LoadBalancerAlgorithm::RoundRobin, &mut cursor));
    assert_eq!(first, "A");
    assert_eq!(second, "A");
}

#[test]
fn round_robin_cursor_is_taken_modulo_healthy_count() {
    let backends = vec![record("a", 1, true, 0), record("b", 1, false, 0), record("c", 1, true, 0)];
    let mut cursor: usize = 5;
    let r = addr_of(select_backend(&backends, &LoadBalancerAlgorithm::RoundRobin, &mut cursor));
    assert_eq!(r, "c");
    assert_eq!(cursor, 0);
}

#[test]
fn least_connections_picks_first_minimum() {
    let backends = vec![
        record("a", 1, true, 5),
        record("b", 1, false, 0),
        record("c", 1, true, 2),
        record("d", 1, true, 2),
    ];
    let mut cursor: usize = 3;
    let r = addr_of(select_backend(&backends, &LoadBalancerAlgorithm::LeastConnections, &mut cursor));
    assert_eq!(r, "c");
    assert_eq!(cursor, 3);
    let healthy = vec![record("x", 1, true, 4), record("y", 1, true, 1), record("z", 1, true, 1)];
    assert_eq!(least_loaded_index(&healthy), 1);
}

#[test]
fn all_unhealthy_selects_none() {
    let backends = vec![record("a", 1, false, 0), record("b", 2, false, 0)];
    for alg in [
        LoadBalancerAlgorithm::RoundRobin,
        LoadBalancerAlgorithm::LeastConnections,
        LoadBalancerAlgorithm::Random,
        LoadBalancerAlgorithm::WeightedRoundRobin,
    ] {
        let mut cursor: usize = 1;
        assert!(select_backend(&backends, &alg, &mut cursor).is_none());
        assert_eq!(cursor, 1);
    }
    let empty: Vec<BackendServer> = Vec::new();
    let mut cursor: usize = 0;
    assert!(select_backend(&empty, &LoadBalancerAlgorithm::RoundRobin, &mut cursor).is_none());
}

#[test]
fn weighted_walk_exact_positions() {
    let healthy = vec![record("a", 1, true, 0), record("b", 3, true, 0)];
    assert_eq!(total_weight_of(&healthy), 4);
    assert_eq!(weighted_index(&healthy, 0), 0);
    assert_eq!(weighted_index(&healthy, 1), 1);
    assert_eq!(weighted_index(&healthy, 3), 1);
    assert_eq!(weighted_index(&healthy, 9), 0);
    let zero = vec![record("a", 0, true, 0), record("b", 0, true, 0)];
    assert_eq!(total_weight_of(&zero), 0);
    assert_eq!(weighted_index(&zero, 0), 0);
}

#[test]
fn weighted_selection_frequency() {
    let backends = vec![record("a", 1, true, 0), record("b", 3, true, 0)];
    let mut cursor: usize = 0;
    let trials = 20000;
    let mut second = 0;
    for _ in 0..trials {
        if addr_of(select_backend(&backends, &LoadBalancerAlgorithm::WeightedRoundRobin, &mut cursor)) == "b" {
            second += 1;
        }
    }
    let freq = second as f64 / trials as f64;
    assert!((freq - 0.75).abs() < 0.03, "frequency {}", freq);
}

#[test]
fn weighted_selection_with_zero_total_takes_first() {
    let backends = vec![record("a", 0, false, 0), record("b", 0, true, 0), record("c", 0, true, 0)];
    let mut cursor: usize = 0;
    let r = addr_of(select_backend(&backends, &LoadBalancerAlgorithm::WeightedRoundRobin, &mut cursor));
    assert_eq!(r, "b");
}

#[test]
fn random_selection_reaches_every_healthy_backend() {
    let backends = vec![record("a", 1, true, 0), record("b", 1, false, 0), record("c", 1, true, 0), record("d", 1, true, 0)];
    let mut cursor: usize = 0;
    let mut hits = [0u32; 3];
    for _ in 0..600 {
        match addr_of(select_backend(&backends, &LoadBalancerAlgorithm::Random, &mut cursor)).as_str() {
            "a" => hits[0] += 1,
            "c" => hits[1] += 1,
            "d" => hits[2] += 1,
            other => panic!("unexpected backend {}", other),
        }
    }
    assert!(hits.iter().all(|h| *h > 0));
    assert_eq!(cursor, 0);
}

#[test]
fn choose_index_with_given_draws() {
    let healthy = vec![record("a", 2, true, 3), record("b", 1, true, 0), record("c", 5, true, 1)];
    let mut cursor: usize = 4;
    assert_eq!(choose_index(&healthy, &LoadBalancerAlgorithm::RoundRobin, &mut cursor, 0), 1);
    assert_eq!(cursor, 2);
    assert_eq!(choose_index(&healthy, &LoadBalancerAlgorithm::Random, &mut cursor, 2), 2);
    assert_eq!(choose_index(&healthy, &LoadBalancerAlgorithm::LeastConnections, &mut cursor, 0), 1);
    assert_eq!(choose_index(&healthy, &LoadBalancerAlgorithm::WeightedRoundRobin, &mut cursor, 2), 1);
    assert_eq!(choose_index(&healthy, &LoadBalancerAlgorithm::WeightedRoundRobin, &mut cursor, 3), 2);
    assert_eq!(cursor, 2);
}
