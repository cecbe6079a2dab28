use dakia::address::{AddressKind, RawAddress};
use dakia::config::{
    Protocol, RawConfig, RawGateway, RawListener, RawMatchRule, RawPeer, RawPolicy, RawPredicate,
    RawTargetSet,
};
use dakia::errors::{Error, ErrorClass};
use dakia::pipeline::{Pipeline, PipelineState, MAX_CONNECT_ATTEMPTS};
use dakia::request::{HeaderField, RequestView, ResponseView};
use dakia::store::ConfigStore;
use dakia::transform::Transform;

fn tcp_raw(host: &str, port: u16) -> RawAddress {
    RawAddress { host_or_path: String::from(host), port: Some(port), kind: AddressKind::Tcp }
}

fn demo_store(transforms: Vec<Transform>) -> ConfigStore {
    let gw = RawGateway {
        listener: RawListener { bind_address: tcp_raw("0.0.0.0", 8080), protocol: Protocol::Http1 },
        rules: vec![RawMatchRule {
            predicate: RawPredicate::PathPrefix(b"/api".to_vec()),
            target_id: String::from("svc-a"),
            priority: 10,
            transforms,
        }],
        targets: vec![RawTargetSet {
            id: String::from("svc-a"),
            peers: vec![
                RawPeer { address: tcp_raw("10.0.0.1", 80), weight: 1 },
                RawPeer { address: tcp_raw("10.0.0.2", 80), weight: 1 },
            ],
            policy: RawPolicy::RoundRobin,
        }],
    };
    let mut store = ConfigStore::new(dakia::config::ConfigSnapshot {
        gateways: Vec::new(),
        version: 0,
    });
    store.load(RawConfig { gateways: vec![gw] }).unwrap();
    store
}

fn api_request() -> RequestView {
    RequestView { method: b"GET".to_vec(), path: b"/api/users".to_vec(), headers: Vec::new() }
}

#[test]
fn happy_path_runs_to_completion() {
    let store = demo_store(vec![Transform::SetRequestHeader(
        b"x-gw".to_vec(),
        b"dakia".to_vec(),
    )]);
    let mut p = Pipeline::accept(store.current(), 0);
    assert!(matches!(p.state(), PipelineState::Accepted));

    p.on_request(&api_request());
    assert!(matches!(p.state(), PipelineState::Matched { rule: 0, target: 0 }));

    let healthy = vec![true, true];
    let conns = vec![0u64, 0u64];
    let mut counter: u64 = 0;
    p.on_peer_select(&healthy, &conns, &mut counter, 0);
    assert!(matches!(p.state(), PipelineState::PeerSelected { peer: 0, .. }));

    let out = p.on_forward(api_request());
    assert!(matches!(p.state(), PipelineState::Forwarding { .. }));
    assert_eq!(out.headers[0].name, b"x-gw".to_vec());
    assert_eq!(out.headers[0].value, b"dakia".to_vec());

    let resp = ResponseView { status: 200, headers: Vec::new() };
    let relayed = p.on_response(resp);
    assert!(matches!(p.state(), PipelineState::ResponseRelay { .. }));
    assert_eq!(relayed.status, 200);

    p.on_complete();
    assert!(matches!(p.state(), PipelineState::Completed));
}

#[test]
fn no_route_errs_with_route_miss() {
    let store = demo_store(Vec::new());
    let mut p = Pipeline::accept(store.current(), 0);
    let other = RequestView { method: b"GET".to_vec(), path: b"/metrics".to_vec(), headers: Vec::new() };
    p.on_request(&other);
    match p.state() {
        PipelineState::Errored(e) => {
            assert!(matches!(e, Error::RouteMiss));
            assert_eq!(e.status_code(), 404);
            assert_eq!(e.classify(), ErrorClass::ClientVisible);
        },
        s => panic!("unexpected state {:?}", s),
    }
}

#[test]
fn all_peers_unhealthy_errs_without_a_connection_attempt() {
    // Matched -> Errored(UpstreamUnavailable): no peer is ever selected.
    let store = demo_store(Vec::new());
    let mut p = Pipeline::accept(store.current(), 0);
    p.on_request(&api_request());
    let healthy = vec![false, false];
    let conns = vec![0u64, 0u64];
    let mut counter: u64 = 0;
    p.on_peer_select(&healthy, &conns, &mut counter, 0);
    match p.state() {
        PipelineState::Errored(e) => {
            assert!(matches!(e, Error::UpstreamUnavailable));
            assert_eq!(e.status_code(), 503);
        },
        s => panic!("unexpected state {:?}", s),
    }
}

#[test]
fn connect_failure_retries_on_another_peer() {
    let store = demo_store(Vec::new());
    let mut p = Pipeline::accept(store.current(), 0);
    p.on_request(&api_request());
    let healthy = vec![true, true];
    let conns = vec![0u64, 0u64];
    let mut counter: u64 = 0;
    p.on_peer_select(&healthy, &conns, &mut counter, 0);
    assert!(matches!(p.state(), PipelineState::PeerSelected { peer: 0, .. }));
    p.on_forward(api_request());
    p.on_connect_failure();
    // Back to Matched with peer 0 excluded; the next selection takes peer 1.
    assert!(matches!(p.state(), PipelineState::Matched { .. }));
    p.on_peer_select(&healthy, &conns, &mut counter, 0);
    assert!(matches!(p.state(), PipelineState::PeerSelected { peer: 1, .. }));
}

#[test]
fn retries_are_bounded_then_upstream_unavailable() {
    let store = demo_store(Vec::new());
    let mut p = Pipeline::accept(store.current(), 0);
    p.on_request(&api_request());
    let healthy = vec![true, true];
    let conns = vec![0u64, 0u64];
    let mut counter: u64 = 0;
    for attempt in 0..MAX_CONNECT_ATTEMPTS {
        p.on_peer_select(&healthy, &conns, &mut counter, 0);
        if matches!(p.state(), PipelineState::Errored(_)) {
            break;
        }
        p.on_forward(api_request());
        p.on_connect_failure();
        let _ = attempt;
    }
    match p.state() {
        PipelineState::Errored(e) => assert!(matches!(e, Error::UpstreamUnavailable)),
        s => panic!("expected exhaustion, got {:?}", s),
    }
}

#[test]
fn runtime_failure_is_propagated_as_is() {
    let store = demo_store(Vec::new());
    let mut p = Pipeline::accept(store.current(), 0);
    p.on_request(&api_request());
    p.on_runtime_error(String::from("write failed: client went away"));
    match p.state() {
        PipelineState::Errored(e) => {
            assert!(matches!(e, Error::UnderlyingRuntimeError(_)));
            assert_eq!(e.classify(), ErrorClass::Propagated);
        },
        s => panic!("unexpected state {:?}", s),
    }
}

#[test]
fn pipeline_keeps_its_snapshot_across_a_reload() {
    let mut store = demo_store(Vec::new());
    let mut p = Pipeline::accept(store.current(), 0);
    let v_before = p.snapshot_version();
    // A concurrent reload swaps the store to the next version.
    let gw = RawGateway {
        listener: RawListener { bind_address: tcp_raw("0.0.0.0", 9090), protocol: Protocol::Http2 },
        rules: Vec::new(),
        targets: vec![RawTargetSet {
            id: String::from("svc-z"),
            peers: vec![RawPeer { address: tcp_raw("10.9.9.9", 80), weight: 1 }],
            policy: RawPolicy::Random,
        }],
    };
    store.load(RawConfig { gateways: vec![gw] }).unwrap();
    assert_eq!(store.get_version(), v_before + 1);
    // The in-flight request still routes with the snapshot it obtained.
    assert_eq!(p.snapshot_version(), v_before);
    p.on_request(&api_request());
    assert!(matches!(p.state(), PipelineState::Matched { rule: 0, target: 0 }));
}

#[test]
fn transforms_rewrite_request_and_response() {
    let store = demo_store(vec![
        Transform::RemoveRequestHeader(b"x-secret".to_vec()),
        Transform::ReplacePathPrefix(b"/api".to_vec(), b"/internal".to_vec()),
        Transform::SetResponseHeader(b"x-served-by".to_vec(), b"dakia".to_vec()),
    ]);
    let mut p = Pipeline::accept(store.current(), 0);
    let req = RequestView {
        method: b"GET".to_vec(),
        path: b"/api/users".to_vec(),
        headers: vec![
            HeaderField { name: b"X-Secret".to_vec(), value: b"SECRET-REDACTED".to_vec() },
            HeaderField { name: b"host".to_vec(), value: b"example.test".to_vec() },
        ],
    };
    p.on_request(&req);
    let healthy = vec![true, true];
    let conns = vec![0u64, 0u64];
    let mut counter: u64 = 0;
    p.on_peer_select(&healthy, &conns, &mut counter, 0);
    let out = p.on_forward(req);
    assert_eq!(out.path, b"/internal/users".to_vec());
    assert_eq!(out.headers.len(), 1);
    assert_eq!(out.headers[0].name, b"host".to_vec());
    let resp = ResponseView { status: 200, headers: Vec::new() };
    let relayed = p.on_response(resp);
    assert_eq!(relayed.headers[0].name, b"x-served-by".to_vec());
}

#[test]
fn lock_poison_is_a_fatal_internal_fault() {
    let e = Error::LockPoisoned(String::from("rwlock poisoned by a panicked writer"));
    assert!(e.is_fatal());
    assert_eq!(e.classify(), ErrorClass::Fatal);
    assert_eq!(e.status_code(), 500);
    let transient = Error::UpstreamConnectFailure;
    assert!(!transient.is_fatal());
    assert_eq!(transient.classify(), ErrorClass::RetriedInternally);
    assert_eq!(transient.status_code(), 502);
}
