use dakia::pattern::CompiledPattern;
use dakia::request::{HeaderField, RequestView};
use dakia::router::{MatchRule, Predicate, RouteTable};

fn req(method: &str, path: &str, headers: &[(&str, &str)]) -> RequestView {
    RequestView {
        method: method.as_bytes().to_vec(),
        path: path.as_bytes().to_vec(),
        headers: headers
            .iter()
            .map(|(n, v)| HeaderField { name: n.as_bytes().to_vec(), value: v.as_bytes().to_vec() })
            .collect(),
    }
}

fn rule(predicate: Predicate, target: &str, priority: u64) -> MatchRule {
    MatchRule {
        predicate,
        target_id: String::from(target),
        priority,
        transforms: Vec::new(),
    }
}

#[test]
fn prefix_rule_beats_catch_all_on_api_path() {
    let table = RouteTable {
        rules: vec![
            rule(Predicate::PathPrefix(b"/api".to_vec()), "svc-a", 10),
            rule(Predicate::And(Vec::new()), "svc-default", 0),
        ],
    };
    let winner = table.evaluate(&req("GET", "/api/users", &[]));
    assert_eq!(winner, Some(0));
    assert_eq!(table.rule(0).target_id.as_str(), "svc-a");
}

#[test]
fn catch_all_takes_non_api_path() {
    let table = RouteTable {
        rules: vec![
            rule(Predicate::PathPrefix(b"/api".to_vec()), "svc-a", 10),
            rule(Predicate::And(Vec::new()), "svc-default", 0),
        ],
    };
    let winner = table.evaluate(&req("GET", "/health", &[]));
    assert_eq!(winner, Some(1));
    assert_eq!(table.rule(1).target_id.as_str(), "svc-default");
}

#[test]
fn empty_route_table_yields_no_route() {
    let table = RouteTable { rules: Vec::new() };
    assert_eq!(table.evaluate(&req("GET", "/", &[])), None);
}

#[test]
fn no_rule_matches_yields_none() {
    let table = RouteTable {
        rules: vec![rule(Predicate::PathPrefix(b"/api".to_vec()), "svc-a", 10)],
    };
    assert_eq!(table.evaluate(&req("GET", "/health", &[])), None);
}

#[test]
fn higher_priority_wins_regardless_of_order() {
    let table = RouteTable {
        rules: vec![
            rule(Predicate::And(Vec::new()), "low", 1),
            rule(Predicate::And(Vec::new()), "high", 9),
        ],
    };
    assert_eq!(table.evaluate(&req("GET", "/", &[])), Some(1));
}

#[test]
fn priority_tie_goes_to_declaration_order() {
    let table = RouteTable {
        rules: vec![
            rule(Predicate::And(Vec::new()), "first", 5),
            rule(Predicate::And(Vec::new()), "second", 5),
        ],
    };
    assert_eq!(table.evaluate(&req("GET", "/", &[])), Some(0));
}

#[test]
fn route_hands_back_the_winning_rule() {
    let table = RouteTable {
        rules: vec![
            rule(Predicate::PathPrefix(b"/api".to_vec()), "svc-a", 10),
            rule(Predicate::PathPrefix(b"/static".to_vec()), "svc-files", 5),
        ],
    };
    let m = table.route(&req("GET", "/api/users", &[])).unwrap();
    assert_eq!(m.target_id.as_str(), "svc-a");
    assert_eq!(m.priority, 10);
    assert!(table.route(&req("GET", "/metrics", &[])).is_none());
}

#[test]
fn method_match_is_case_insensitive() {
    let p = Predicate::MethodEquals(b"get".to_vec());
    assert!(p.eval(&req("GET", "/", &[])));
    assert!(p.eval(&req("GeT", "/", &[])));
    assert!(!p.eval(&req("POST", "/", &[])));
}

#[test]
fn path_prefix_is_byte_prefix_not_exact() {
    let p = Predicate::PathPrefix(b"/api".to_vec());
    assert!(p.eval(&req("GET", "/api", &[])));
    assert!(p.eval(&req("GET", "/api/users", &[])));
    assert!(p.eval(&req("GET", "/apis", &[])));
    assert!(!p.eval(&req("GET", "/ap", &[])));
}

#[test]
fn header_name_lookup_is_case_insensitive_value_is_not() {
    let p = Predicate::HeaderEquals(b"X-Tenant".to_vec(), b"Blue".to_vec());
    assert!(p.eval(&req("GET", "/", &[("x-tenant", "Blue")])));
    assert!(!p.eval(&req("GET", "/", &[("x-tenant", "blue")])));
    assert!(!p.eval(&req("GET", "/", &[])));
}

#[test]
fn first_header_occurrence_wins() {
    let p = Predicate::HeaderEquals(b"x-env".to_vec(), b"prod".to_vec());
    assert!(p.eval(&req("GET", "/", &[("X-Env", "prod"), ("x-env", "dev")])));
    assert!(!p.eval(&req("GET", "/", &[("X-Env", "dev"), ("x-env", "prod")])));
}

#[test]
fn header_present_checks_only_the_name() {
    let p = Predicate::HeaderPresent(b"authorization".to_vec());
    assert!(p.eval(&req("GET", "/", &[("Authorization", "Bearer SECRET-REDACTED")])));
    assert!(!p.eval(&req("GET", "/", &[("host", "example.test")])));
}

#[test]
fn boolean_combinators_follow_their_children() {
    let and = Predicate::And(vec![
        Predicate::PathPrefix(b"/api".to_vec()),
        Predicate::MethodEquals(b"GET".to_vec()),
    ]);
    assert!(and.eval(&req("GET", "/api/x", &[])));
    assert!(!and.eval(&req("POST", "/api/x", &[])));
    let or = Predicate::Or(vec![
        Predicate::PathPrefix(b"/a".to_vec()),
        Predicate::PathPrefix(b"/b".to_vec()),
    ]);
    assert!(or.eval(&req("GET", "/b/x", &[])));
    assert!(!or.eval(&req("GET", "/c/x", &[])));
    assert!(!Predicate::Or(Vec::new()).eval(&req("GET", "/", &[])));
    let not = Predicate::Not(Box::new(Predicate::PathPrefix(b"/a".to_vec())));
    assert!(not.eval(&req("GET", "/b", &[])));
    assert!(!not.eval(&req("GET", "/a", &[])));
}

#[test]
fn compiled_pattern_matches_by_content() {
    let p = Predicate::PathPattern(CompiledPattern::compile("^/v[0-9]+/").unwrap());
    assert!(p.eval(&req("GET", "/v1/users", &[])));
    assert!(p.eval(&req("GET", "/v42/items", &[])));
    assert!(!p.eval(&req("GET", "/admin/v1", &[])));
    assert!(!p.eval(&req("GET", "/vx/users", &[])));
}

#[test]
fn pattern_predicate_routes_on_the_path() {
    let cp = CompiledPattern::compile("users/[0-9]+$").unwrap();
    let p = Predicate::PathPattern(cp);
    assert!(p.eval(&req("GET", "/api/users/7", &[])));
    assert!(!p.eval(&req("GET", "/api/users/seven", &[])));
}
