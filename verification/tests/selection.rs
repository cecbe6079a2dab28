use dakia::config::SelectionPolicy;
use dakia::config::UpstreamTargetSet;
use dakia::address::Address;
use dakia::errors::Error;
use dakia::selector::{
    select_least_connections, select_peer, select_random, select_round_robin, select_weighted,
};

fn peers(n: usize) -> Vec<Address> {
    (0..n)
        .map(|i| Address::tcp(format!("10.0.0.{}", i + 1), 80).unwrap())
        .collect()
}

#[test]
fn round_robin_cycles_each_peer_once() {
    // Three sequential selections over two peers: 10.0.0.1, 10.0.0.2, 10.0.0.1.
    let healthy = vec![true, true];
    let mut counter: u64 = 0;
    let picks: Vec<usize> = (0..3)
        .map(|_| select_round_robin(&healthy, &mut counter).unwrap())
        .collect();
    assert_eq!(picks, vec![0, 1, 0]);
}

#[test]
fn round_robin_is_fair_over_full_cycles() {
    let healthy = vec![true; 5];
    let mut counter: u64 = 3;
    let mut counts = [0usize; 5];
    for _ in 0..20 {
        counts[select_round_robin(&healthy, &mut counter).unwrap()] += 1;
    }
    assert_eq!(counts, [4, 4, 4, 4, 4]);
}

#[test]
fn round_robin_skips_unhealthy_peers() {
    let healthy = vec![true, false, true];
    let mut counter: u64 = 1;
    assert_eq!(select_round_robin(&healthy, &mut counter).unwrap(), 2);
    assert_eq!(select_round_robin(&healthy, &mut counter).unwrap(), 0);
}

#[test]
fn round_robin_fails_with_no_healthy_peer() {
    let healthy = vec![false, false];
    let mut counter: u64 = 0;
    let r = select_round_robin(&healthy, &mut counter);
    assert!(matches!(r, Err(Error::UpstreamUnavailable)));
    assert_eq!(counter, 0);
}

#[test]
fn weighted_three_to_one_ratio_is_exact_over_cycles() {
    // Weights [3, 1]: over any whole cycle of draws the ratio of picks is 3:1.
    let weights = vec![3u64, 1u64];
    let healthy = vec![true, true];
    let mut counts = [0usize; 2];
    for draw in 0..4000u64 {
        counts[select_weighted(&weights, &healthy, draw).unwrap()] += 1;
    }
    assert_eq!(counts[0], 3000);
    assert_eq!(counts[1], 1000);
}

#[test]
fn weighted_never_picks_zero_weight_or_unhealthy() {
    let weights = vec![0u64, 5u64, 7u64];
    let healthy = vec![true, true, false];
    for draw in 0..100u64 {
        assert_eq!(select_weighted(&weights, &healthy, draw).unwrap(), 1);
    }
}

#[test]
fn weighted_fails_when_no_healthy_weight_remains() {
    let weights = vec![0u64, 4u64];
    let healthy = vec![true, false];
    assert!(matches!(
        select_weighted(&weights, &healthy, 9),
        Err(Error::UpstreamUnavailable)
    ));
}

#[test]
fn random_ranks_healthy_peers_by_draw() {
    let healthy = vec![false, true, true, false, true];
    assert_eq!(select_random(&healthy, 0).unwrap(), 1);
    assert_eq!(select_random(&healthy, 1).unwrap(), 2);
    assert_eq!(select_random(&healthy, 2).unwrap(), 4);
    assert_eq!(select_random(&healthy, 3).unwrap(), 1);
}

#[test]
fn random_fails_with_no_healthy_peer() {
    let healthy = vec![false];
    assert!(matches!(select_random(&healthy, 0), Err(Error::UpstreamUnavailable)));
}

#[test]
fn least_connections_picks_the_minimum() {
    let conns = vec![9u64, 2u64, 5u64];
    let healthy = vec![true, true, true];
    let mut counter: u64 = 0;
    assert_eq!(select_least_connections(&conns, &healthy, &mut counter).unwrap(), 1);
}

#[test]
fn least_connections_breaks_ties_in_round_robin_order() {
    let conns = vec![4u64, 4u64, 4u64];
    let healthy = vec![true, true, true];
    let mut counter: u64 = 2;
    // Scanning starts at index 2, so the tie goes to peer 2.
    assert_eq!(select_least_connections(&conns, &healthy, &mut counter).unwrap(), 2);
}

#[test]
fn least_connections_ignores_unhealthy_minimum() {
    let conns = vec![0u64, 8u64, 3u64];
    let healthy = vec![false, true, true];
    let mut counter: u64 = 0;
    assert_eq!(select_least_connections(&conns, &healthy, &mut counter).unwrap(), 2);
}

#[test]
fn select_peer_dispatches_on_the_policy() {
    let set_rr = UpstreamTargetSet {
        id: String::from("svc-a"),
        peers: peers(2),
        policy: SelectionPolicy::RoundRobin,
    };
    let healthy = vec![true, true];
    let conns = vec![0u64, 0u64];
    let mut counter: u64 = 0;
    assert_eq!(select_peer(&set_rr, &healthy, &conns, &mut counter, 0).unwrap(), 0);
    assert_eq!(select_peer(&set_rr, &healthy, &conns, &mut counter, 0).unwrap(), 1);

    let set_w = UpstreamTargetSet {
        id: String::from("svc-b"),
        peers: peers(2),
        policy: SelectionPolicy::Weighted(vec![3, 1]),
    };
    let mut counter_w: u64 = 0;
    assert_eq!(select_peer(&set_w, &healthy, &conns, &mut counter_w, 3).unwrap(), 1);
    assert_eq!(counter_w, 0);
}
