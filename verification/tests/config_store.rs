use dakia::address::{AddressKind, RawAddress};
use dakia::config::{
    compile_config, ConfigSnapshot, Protocol, RawConfig, RawGateway, RawListener, RawMatchRule,
    RawPeer, RawPolicy, RawPredicate, RawTargetSet,
};
use dakia::errors::ConfigError;
use dakia::store::ConfigStore;

fn tcp_raw(host: &str, port: u16) -> RawAddress {
    RawAddress { host_or_path: String::from(host), port: Some(port), kind: AddressKind::Tcp }
}

fn peer(host: &str, port: u16, weight: u64) -> RawPeer {
    RawPeer { address: tcp_raw(host, port), weight }
}

fn target(id: &str, hosts: &[&str]) -> RawTargetSet {
    RawTargetSet {
        id: String::from(id),
        peers: hosts.iter().map(|h| peer(h, 80, 1)).collect(),
        policy: RawPolicy::RoundRobin,
    }
}

fn rule_to(target_id: &str) -> RawMatchRule {
    RawMatchRule {
        predicate: RawPredicate::PathPrefix(b"/".to_vec()),
        target_id: String::from(target_id),
        priority: 1,
        transforms: Vec::new(),
    }
}

fn gateway(rules: Vec<RawMatchRule>, targets: Vec<RawTargetSet>) -> RawGateway {
    RawGateway {
        listener: RawListener { bind_address: tcp_raw("0.0.0.0", 8080), protocol: Protocol::Http1 },
        rules,
        targets,
    }
}

fn empty_snapshot() -> ConfigSnapshot {
    ConfigSnapshot { gateways: Vec::new(), version: 1 }
}

#[test]
fn load_succeeds_when_every_reference_resolves() {
    let mut store = ConfigStore::new(empty_snapshot());
    let raw = RawConfig {
        gateways: vec![gateway(vec![rule_to("svc-a")], vec![target("svc-a", &["10.0.0.1"])])],
    };
    let handle = store.load(raw).unwrap();
    assert_eq!(handle.version(), 2);
    assert_eq!(store.get_version(), 2);
    assert_eq!(handle.get().gateways.len(), 1);
}

#[test]
fn dangling_reference_fails_load_and_leaves_store_unchanged() {
    let mut store = ConfigStore::new(empty_snapshot());
    let raw = RawConfig {
        gateways: vec![gateway(vec![rule_to("svc-missing")], vec![target("svc-a", &["10.0.0.1"])])],
    };
    let r = store.load(raw);
    assert_eq!(r.unwrap_err(), ConfigError::DanglingTargetReference);
    assert_eq!(store.get_version(), 1);
    assert_eq!(store.current().get().gateways.len(), 0);
}

#[test]
fn duplicate_target_ids_fail_load() {
    let raw = RawConfig {
        gateways: vec![gateway(
            vec![rule_to("svc-a")],
            vec![target("svc-a", &["10.0.0.1"]), target("svc-a", &["10.0.0.2"])],
        )],
    };
    assert_eq!(compile_config(raw, 1).unwrap_err(), ConfigError::DuplicateTargetId);
}

#[test]
fn empty_peer_list_fails_load() {
    let raw = RawConfig {
        gateways: vec![gateway(vec![rule_to("svc-a")], vec![target("svc-a", &[])])],
    };
    assert_eq!(compile_config(raw, 1).unwrap_err(), ConfigError::EmptyPeerList);
}

#[test]
fn malformed_address_fails_load() {
    let raw = RawConfig {
        gateways: vec![gateway(vec![rule_to("svc-a")], vec![target("svc-a", &[""])])],
    };
    assert_eq!(compile_config(raw, 1).unwrap_err(), ConfigError::InvalidAddress);
}

#[test]
fn port_on_a_path_socket_fails_load() {
    let mut bad = gateway(vec![rule_to("svc-a")], vec![target("svc-a", &["10.0.0.1"])]);
    bad.listener.bind_address = RawAddress {
        host_or_path: String::from("/run/gw.sock"),
        port: Some(80),
        kind: AddressKind::UnixLike,
    };
    let raw = RawConfig { gateways: vec![bad] };
    assert_eq!(compile_config(raw, 1).unwrap_err(), ConfigError::InvalidAddress);
}

#[test]
fn malformed_pattern_fails_load() {
    let mut g = gateway(Vec::new(), vec![target("svc-a", &["10.0.0.1"])]);
    g.rules.push(RawMatchRule {
        predicate: RawPredicate::PathPattern(String::from("([unclosed")),
        target_id: String::from("svc-a"),
        priority: 1,
        transforms: Vec::new(),
    });
    let raw = RawConfig { gateways: vec![g] };
    assert_eq!(compile_config(raw, 1).unwrap_err(), ConfigError::InvalidPattern);
}

#[test]
fn nested_predicates_and_weights_compile() {
    let mut g = gateway(Vec::new(), Vec::new());
    g.targets.push(RawTargetSet {
        id: String::from("svc-w"),
        peers: vec![peer("10.0.0.1", 80, 3), peer("10.0.0.2", 80, 1)],
        policy: RawPolicy::Weighted,
    });
    g.rules.push(RawMatchRule {
        predicate: RawPredicate::And(vec![
            RawPredicate::PathPattern(String::from("^/v[0-9]+/")),
            RawPredicate::Not(Box::new(RawPredicate::HeaderPresent(b"x-block".to_vec()))),
        ]),
        target_id: String::from("svc-w"),
        priority: 3,
        transforms: Vec::new(),
    });
    let snapshot = compile_config(RawConfig { gateways: vec![g] }, 7).unwrap();
    assert_eq!(snapshot.version, 7);
    assert_eq!(snapshot.gateways[0].targets.len(), 1);
    assert_eq!(snapshot.gateways[0].route_table.rules.len(), 1);
}

#[test]
fn hot_swap_leaves_held_handles_on_their_snapshot() {
    let mut store = ConfigStore::new(empty_snapshot());
    let raw_v2 = RawConfig {
        gateways: vec![gateway(vec![rule_to("svc-a")], vec![target("svc-a", &["10.0.0.1"])])],
    };
    store.load(raw_v2).unwrap();
    let held = store.current();
    assert_eq!(held.version(), 2);

    let raw_v3 = RawConfig {
        gateways: vec![
            gateway(vec![rule_to("svc-a")], vec![target("svc-a", &["10.0.0.1"])]),
            gateway(vec![rule_to("svc-b")], vec![target("svc-b", &["10.0.0.9"])]),
        ],
    };
    store.load(raw_v3).unwrap();
    let later = store.current();

    // The request that took its handle before the swap still reads version 2
    // with one gateway; a request started after reads version 3 with two.
    let held_again = held.duplicate();
    assert_eq!(held.version(), 2);
    assert_eq!(held_again.version(), 2);
    assert_eq!(held.get().gateways.len(), 1);
    assert_eq!(later.version(), 3);
    assert_eq!(later.get().gateways.len(), 2);
}

#[test]
fn failed_reload_keeps_the_old_snapshot_serving() {
    let mut store = ConfigStore::new(empty_snapshot());
    let good = RawConfig {
        gateways: vec![gateway(vec![rule_to("svc-a")], vec![target("svc-a", &["10.0.0.1"])])],
    };
    store.load(good).unwrap();
    let bad = RawConfig {
        gateways: vec![gateway(vec![rule_to("svc-gone")], vec![target("svc-a", &["10.0.0.1"])])],
    };
    assert!(store.load(bad).is_err());
    assert_eq!(store.get_version(), 2);
    assert_eq!(store.current().get().gateways.len(), 1);
}
