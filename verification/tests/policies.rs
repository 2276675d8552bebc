use std::sync::Arc;

use proxy_state::address::{IpAddress, SocketAddress};
use proxy_state::demand::{DemandProxyState, ProxyRbacContext};
use proxy_state::error::AuthorizationRejectionError;
use proxy_state::identity::Identity;
use proxy_state::rbac::{
    Authorization, Connection, IpBlock, RbacAction, RbacMatch, RbacScope, StringMatch,
};
use proxy_state::state::ProxyState;
use proxy_state::workload::{HealthStatus, InboundProtocol, Locality, Workload};

fn v4(a: u8, b: u8, c: u8, d: u8) -> IpAddress {
    IpAddress::V4(u32::from_be_bytes([a, b, c, d]))
}

fn workload(uid: &str) -> Workload {
    Workload {
        name: uid.to_string(),
        namespace: "default".to_string(),
        trust_domain: "cluster.local".to_string(),
        service_account: "default".to_string(),
        uid: uid.to_string(),
        cluster_id: "cluster".to_string(),
        network: "".to_string(),
        node: "node".to_string(),
        hostname: "".to_string(),
        locality: Locality::default(),
        workload_ips: vec![v4(127, 0, 0, 1)],
        network_gateway: None,
        waypoint: None,
        application_tunnel: None,
        protocol: InboundProtocol::TCP,
        capacity: 1,
        authorization_policies: vec![],
        services: vec![],
        status: HealthStatus::Healthy,
    }
}

fn identity(service_account: &str) -> Identity {
    Identity::Spiffe {
        trust_domain: "td".to_string(),
        namespace: "ns".to_string(),
        service_account: service_account.to_string(),
    }
}

fn connection(service_account: &str) -> Connection {
    Connection {
        src_identity: Some(identity(service_account)),
        src: SocketAddress::new(v4(192, 168, 1, 1), 1234),
        dst_network: "".to_string(),
        dst: SocketAddress::new(v4(10, 0, 0, 1), 8080),
    }
}

fn policy(name: &str, scope: RbacScope, action: RbacAction, account: &str) -> Authorization {
    Authorization {
        name: name.to_string(),
        namespace: "default".to_string(),
        scope,
        action,
        rules: vec![vec![vec![RbacMatch {
            principals: vec![StringMatch::Exact(format!("td/ns/ns/sa/{account}"))],
            ..Default::default()
        }]]],
    }
}

fn decide(state: &ProxyState, wl: Workload, account: &str) -> Result<(), AuthorizationRejectionError> {
    let ctx = ProxyRbacContext { conn: connection(account), dest_workload: Arc::new(wl) };
    DemandProxyState::new(state, false, 15008).assert_rbac(&ctx)
}

fn denied(name: &str) -> Result<(), AuthorizationRejectionError> {
    Err(AuthorizationRejectionError::ExplicitlyDenied("default".to_string(), name.to_string()))
}

#[test]
fn deny_goes_before_allow() {
    let mut state = ProxyState::new(None);
    state.policies.insert(
        "allow".to_string(),
        policy("allow", RbacScope::Namespace, RbacAction::Allow, "a"),
    );
    assert_eq!(decide(&state, workload("w"), "a"), Ok(()));
    state.policies.insert(
        "deny".to_string(),
        policy("deny", RbacScope::Namespace, RbacAction::Deny, "a"),
    );
    state.policies.insert(
        "deny2".to_string(),
        policy("deny2", RbacScope::Global, RbacAction::Deny, "a"),
    );
    // those of the namespace come first
    assert_eq!(decide(&state, workload("w"), "a"), denied("deny"));
    assert_eq!(
        decide(&state, workload("w"), "b"),
        Err(AuthorizationRejectionError::NotAllowed)
    );
    let elsewhere = Workload { namespace: "other".to_string(), ..workload("w") };
    assert_eq!(decide(&state, elsewhere, "a"), denied("deny2"));
}

#[test]
fn deny_alone_lets_others_in() {
    let mut state = ProxyState::new(None);
    state.policies.insert(
        "deny".to_string(),
        policy("deny", RbacScope::Global, RbacAction::Deny, "a"),
    );
    assert_eq!(decide(&state, workload("w"), "a"), denied("deny"));
    assert_eq!(decide(&state, workload("w"), "b"), Ok(()));
}

#[test]
fn policies_are_named_by_workloads() {
    let mut state = ProxyState::new(None);
    state.policies.insert(
        "deny".to_string(),
        policy("deny", RbacScope::WorkloadSelector, RbacAction::Deny, "a"),
    );
    assert_eq!(decide(&state, workload("w"), "a"), Ok(()));
    let naming = |keys: Vec<&str>| Workload {
        authorization_policies: keys.iter().map(|k| k.to_string()).collect(),
        ..workload("w")
    };
    assert_eq!(decide(&state, naming(vec!["deny"]), "a"), denied("deny"));
    // an unknown policy counts for nothing
    assert_eq!(decide(&state, naming(vec!["unknown"]), "a"), Ok(()));
    assert_eq!(decide(&state, naming(vec!["unknown", "deny"]), "a"), denied("deny"));
    assert_eq!(decide(&state, naming(vec!["deny", "unknown"]), "a"), denied("deny"));
}

#[test]
fn inserted_policy_replaces_the_one_with_its_key() {
    let mut state = ProxyState::new(None);
    state.policies.insert("k".to_string(), policy("x", RbacScope::Global, RbacAction::Deny, "a"));
    state.policies.insert("k".to_string(), policy("y", RbacScope::Global, RbacAction::Deny, "a"));
    assert_eq!(decide(&state, workload("w"), "a"), denied("y"));
    assert_eq!(state.policies.get(&"k".to_string()).unwrap().name, "y");
    assert!(state.policies.get(&"l".to_string()).is_none());
    assert_eq!(state.policies.get_by_namespace(&"".to_string()), vec!["k"]);
    assert!(state.policies.get_by_namespace(&"default".to_string()).is_empty());
}

#[test]
fn texts_match() {
    let text = "cluster.local/ns/default".to_string();
    let m = |p: StringMatch| p.matches(&text);
    assert!(m(StringMatch::Exact(text.clone())));
    assert!(!m(StringMatch::Exact("cluster.local".to_string())));
    assert!(m(StringMatch::Prefix("cluster.".to_string())));
    assert!(!m(StringMatch::Prefix("local".to_string())));
    assert!(m(StringMatch::Suffix("default".to_string())));
    assert!(!m(StringMatch::Suffix("cluster".to_string())));
    assert!(!m(StringMatch::Suffix("a cluster.local/ns/default".to_string())));
    assert!(m(StringMatch::Presence));
    assert!(!StringMatch::Presence.matches(&"".to_string()));
}

#[test]
fn blocks_hold_addresses() {
    let block = |address: IpAddress, prefix_len: u8| IpBlock { address, prefix_len };
    assert!(block(v4(10, 1, 0, 0), 16).contains_ip(v4(10, 1, 255, 255)));
    assert!(!block(v4(10, 1, 0, 0), 16).contains_ip(v4(10, 2, 0, 0)));
    assert!(block(v4(10, 1, 2, 3), 32).contains_ip(v4(10, 1, 2, 3)));
    assert!(!block(v4(10, 1, 2, 3), 32).contains_ip(v4(10, 1, 2, 2)));
    assert!(block(v4(10, 1, 2, 3), 31).contains_ip(v4(10, 1, 2, 2)));
    assert!(block(v4(10, 1, 2, 3), 0).contains_ip(v4(255, 0, 0, 0)));
    assert!(!block(v4(10, 1, 2, 3), 0).contains_ip(IpAddress::V6(1)));
    assert!(block(IpAddress::V6(1 << 127), 1).contains_ip(IpAddress::V6(3 << 126)));
    assert!(!block(IpAddress::V6(1 << 127), 2).contains_ip(IpAddress::V6(3 << 126)));
    assert!(block(IpAddress::V6(0), 0).contains_ip(IpAddress::V6(u128::MAX)));
    assert!(block(IpAddress::V6(7), 128).contains_ip(IpAddress::V6(7)));
}

#[test]
fn matches_of_a_policy() {
    let conn = connection("a");
    let m = |m: RbacMatch| m.matches(&conn);
    let inside = || IpBlock { address: v4(192, 168, 0, 0), prefix_len: 16 };
    let exact = |s: &str| StringMatch::Exact(s.to_string());
    assert!(m(RbacMatch::default()));
    assert!(m(RbacMatch { namespaces: vec![exact("ns")], ..Default::default() }));
    assert!(!m(RbacMatch { namespaces: vec![exact("other")], ..Default::default() }));
    assert!(!m(RbacMatch { not_namespaces: vec![exact("ns")], ..Default::default() }));
    assert!(m(RbacMatch { principals: vec![exact("x"), exact("td/ns/ns/sa/a")], ..Default::default() }));
    assert!(!m(RbacMatch { not_principals: vec![exact("td/ns/ns/sa/a")], ..Default::default() }));
    assert!(m(RbacMatch { source_ips: vec![inside()], ..Default::default() }));
    assert!(!m(RbacMatch { not_source_ips: vec![inside()], ..Default::default() }));
    assert!(!m(RbacMatch { destination_ips: vec![inside()], ..Default::default() }));
    assert!(m(RbacMatch { not_destination_ips: vec![inside()], ..Default::default() }));
    assert!(m(RbacMatch { destination_ports: vec![80, 8080], ..Default::default() }));
    assert!(!m(RbacMatch { destination_ports: vec![80], ..Default::default() }));
    assert!(!m(RbacMatch { not_destination_ports: vec![8080], ..Default::default() }));
    // without an identity no principal matches, and none is excluded
    let anonymous = Connection { src_identity: None, ..connection("a") };
    assert!(!RbacMatch { principals: vec![StringMatch::Presence], ..Default::default() }
        .matches(&anonymous));
    assert!(RbacMatch { not_principals: vec![StringMatch::Presence], ..Default::default() }
        .matches(&anonymous));
}

#[test]
fn rules_are_alternatives_and_clauses_are_not() {
    let yes = || RbacMatch::default();
    let no = || RbacMatch { destination_ports: vec![1], ..Default::default() };
    let conn = connection("a");
    let m = |rules: Vec<Vec<Vec<RbacMatch>>>| {
        Authorization { rules, ..policy("p", RbacScope::Global, RbacAction::Allow, "a") }
            .matches(&conn)
    };
    assert!(!m(vec![]));
    assert!(m(vec![vec![]]));
    assert!(!m(vec![vec![vec![]]]));
    assert!(m(vec![vec![vec![no(), yes()]]]));
    assert!(!m(vec![vec![vec![yes()], vec![no()]]]));
    assert!(m(vec![vec![vec![no()]], vec![vec![yes()], vec![yes()]]]));
}

#[test]
fn contexts_differ_by_their_connections() {
    let a = ProxyRbacContext { conn: connection("a"), dest_workload: Arc::new(workload("x")) };
    let b = ProxyRbacContext { conn: connection("a"), dest_workload: Arc::new(workload("y")) };
    let c = ProxyRbacContext { conn: connection("c"), dest_workload: Arc::new(workload("x")) };
    assert_eq!(a, b);
    assert_ne!(a, c);
    assert_eq!(a.clone(), a);
    let ip = IpAddress::V6(1);
    let scoped = |scope_id: u32, flowinfo: u32| ProxyRbacContext {
        conn: Connection {
            src: SocketAddress { scope_id, flowinfo, ..SocketAddress::new(ip, 1234) },
            ..connection("a")
        },
        dest_workload: Arc::new(workload("x")),
    };
    assert_eq!(scoped(1, 2), scoped(1, 2));
    assert_ne!(scoped(1, 2), scoped(3, 2));
    assert_ne!(scoped(1, 2), scoped(1, 3));
    assert_eq!(a.display("1->2"), "1->2 (x)");
    assert_eq!(a.into_conn(), connection("a"));
}

#[test]
fn identities_are_parsed() {
    let parse = |s: &str| Identity::parse(&s.to_string());
    assert_eq!(parse("spiffe://td/ns/ns/sa/a"), Some(identity("a")));
    assert_eq!(identity("a").principal(), "td/ns/ns/sa/a");
    let uri = format!("spiffe://{}", identity("b").principal());
    assert_eq!(parse(&uri), Some(identity("b")));
    for wrong in [
        "",
        "td/ns/ns/sa/a",
        "spiffe://td/ns/ns/sa",
        "spiffe://td/ns/ns/sa/a/b",
        "spiffe://td/sa/ns/ns/a",
        "http://td/ns/ns/sa/a",
    ] {
        assert_eq!(parse(wrong), None, "{}", wrong);
    }
}
