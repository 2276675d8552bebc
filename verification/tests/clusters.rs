use std::collections::HashMap;
use std::sync::Arc;

use proxy_state::address::{
    Destination, GatewayAddress, IpAddress, NamespacedHostname, SocketAddress,
};
use proxy_state::demand::{DemandProxyState, Fetch};
use proxy_state::error::Error;
use proxy_state::multicluster::ServiceSearch;
use proxy_state::picker::Candidate;
use proxy_state::resolve::Resolution;
use proxy_state::service::{Endpoint, EndpointSet, Service, Waypoints};
use proxy_state::state::ProxyState;
use proxy_state::upstream::Upstream;
use proxy_state::workload::{
    ApplicationTunnel, HealthStatus, InboundProtocol, Locality, TunnelProtocol, Workload,
};

fn v4(a: u8, b: u8, c: u8, d: u8) -> IpAddress {
    IpAddress::V4(u32::from_be_bytes([a, b, c, d]))
}

fn workload(uid: &str) -> Workload {
    Workload {
        name: uid.to_string(),
        namespace: "default".to_string(),
        trust_domain: "cluster.local".to_string(),
        service_account: "default".to_string(),
        uid: uid.to_string(),
        cluster_id: "cluster".to_string(),
        network: "".to_string(),
        node: "node".to_string(),
        hostname: "".to_string(),
        locality: Locality::default(),
        workload_ips: vec![v4(127, 0, 0, 1)],
        network_gateway: None,
        waypoint: None,
        application_tunnel: None,
        protocol: InboundProtocol::TCP,
        capacity: 1,
        authorization_policies: vec![],
        services: vec![],
        status: HealthStatus::Healthy,
    }
}

fn service(hostname: &str) -> Service {
    Service {
        name: "svc".to_string(),
        hostname: hostname.to_string(),
        namespace: "default".to_string(),
        vips: vec![],
        ports: HashMap::new(),
        endpoints: EndpointSet::new(),
        subject_alt_names: vec![],
        waypoint: None,
        waypoints: Waypoints::new(),
        load_balancer: None,
        ip_families: None,
    }
}

fn endpoint(uid: &str) -> Endpoint {
    Endpoint {
        workload_uid: uid.to_string(),
        port: HashMap::new(),
        status: HealthStatus::Healthy,
    }
}

fn gateway(hostname: &str) -> GatewayAddress {
    GatewayAddress {
        destination: Destination::Hostname(NamespacedHostname {
            namespace: "default".to_string(),
            hostname: hostname.to_string(),
        }),
        hbone_mtls_port: 15008,
    }
}

fn in_cluster(uid: &str, cluster: &str) -> Workload {
    Workload { cluster_id: cluster.to_string(), ..workload(uid) }
}

fn with_endpoints(hostname: &str, port: u16, target: u16, uids: &[&str]) -> Service {
    Service {
        ports: HashMap::from([(port, target)]),
        endpoints: EndpointSet::from_list(uids.iter().map(|uid| endpoint(uid)).collect()),
        ..service(hostname)
    }
}

fn target(port: u16) -> SocketAddress {
    SocketAddress::new(v4(10, 0, 0, 1), port)
}

/// Runs the search to its end; gives the result, and the gateways it asked for.
fn resolve(
    state: &ProxyState,
    svc: &Arc<Service>,
    port: u16,
) -> (Result<Resolution, Error>, Vec<GatewayAddress>) {
    let source = workload("source");
    let demand = DemandProxyState::new(state, false, 15008);
    let mut search = demand.fetch_service_upstream(svc, &source, target(port));
    let mut asked: Vec<GatewayAddress> = vec![];
    while let Some(gw) = search.next_gateway().cloned() {
        let found = match demand.fetch_destination(&gw.destination, true) {
            Fetch::Done(found) => found,
            Fetch::Demand(key) => panic!("demand for {:?}", key),
        };
        demand.add_waypoint(&mut search, found);
        asked.push(gw);
    }
    (demand.finish_service_upstream(&search), asked)
}

fn upstream(r: Result<Resolution, Error>) -> Upstream {
    match r {
        Ok(Resolution::Ready(u)) => u,
        other => panic!("not ready: {:?}", other),
    }
}

fn all_picked(state: &ProxyState, svc: &Arc<Service>, port: u16) -> Vec<String> {
    let mut uids: Vec<String> = vec![];
    for _ in 0..200 {
        let uid = upstream(resolve(state, svc, port).0).workload.uid.clone();
        if !uids.contains(&uid) {
            uids.push(uid);
        }
    }
    uids.sort();
    uids
}

#[test]
fn a_service_without_waypoints() {
    let mut state = ProxyState::new(None);
    state.workloads.insert(Arc::new(in_cluster("a", "one")));
    state.workloads.insert(Arc::new(in_cluster("b", "two")));
    let svc = Arc::new(with_endpoints("host", 80, 8080, &["a", "b", "unknown"]));
    assert_eq!(all_picked(&state, &svc, 80), vec!["a", "b"]);
    let (r, asked) = resolve(&state, &svc, 80);
    assert!(asked.is_empty());
    let u = upstream(r);
    assert_eq!(u.port, 8080);
    assert!(!u.through_waypoint);
    assert_eq!(u.original_target, target(80));
    assert_eq!(u.destination_service.unwrap().hostname, "host");
    assert_eq!(resolve(&state, &svc, 81).0, Ok(Resolution::Nothing));
}

#[test]
fn each_cluster_goes_its_way() {
    let mut state = ProxyState::new(None);
    // a cluster without a waypoint, one with a waypoint, and one with another
    state.workloads.insert(Arc::new(in_cluster("direct", "one")));
    state.workloads.insert(Arc::new(in_cluster("behind", "two")));
    state.workloads.insert(Arc::new(in_cluster("way2", "two")));
    state.workloads.insert(Arc::new(in_cluster("way3", "three")));
    state.workloads.insert(Arc::new(in_cluster("misplaced", "one")));
    state.services.insert(with_endpoints("w2", 15008, 15009, &["way2", "misplaced", "way3"]));
    state.services.insert(with_endpoints("w3", 15008, 15010, &["way2", "way3"]));
    let mut waypoints = Waypoints::new();
    waypoints.insert("two".to_string(), gateway("w2"));
    waypoints.insert("three".to_string(), gateway("w3"));
    waypoints.insert("four".to_string(), gateway("w2"));
    let svc = Arc::new(Service {
        waypoints,
        ..with_endpoints("host", 80, 8080, &["direct", "behind"])
    });
    assert_eq!(all_picked(&state, &svc, 80), vec!["direct", "way2", "way3"]);
    let (_, asked) = resolve(&state, &svc, 80);
    // each gateway is asked for once
    assert_eq!(asked, vec![gateway("w2"), gateway("w3")]);
    for _ in 0..50 {
        let u = upstream(resolve(&state, &svc, 80).0);
        let hostname = u.destination_service.as_ref().unwrap().hostname.clone();
        match u.workload.uid.as_str() {
            "direct" => {
                assert_eq!((u.port, u.through_waypoint), (8080, false));
                assert_eq!(hostname, "host");
            }
            "way2" => {
                assert_eq!((u.port, u.through_waypoint), (15009, true));
                assert_eq!(hostname, "w2");
            }
            _ => {
                assert_eq!((u.port, u.through_waypoint), (15010, true));
                assert_eq!(hostname, "w3");
            }
        }
        assert_eq!(u.original_target, target(80));
    }
    // A port that the service does not have leaves the waypoints.
    assert_eq!(all_picked(&state, &svc, 81), vec!["way2", "way3"]);
}

#[test]
fn waypoints_that_are_no_services_are_ignored() {
    let mut state = ProxyState::new(None);
    state.workloads.insert(Arc::new(Workload {
        hostname: "single".to_string(),
        ..in_cluster("w", "one")
    }));
    state.workloads.insert(Arc::new(in_cluster("a", "one")));
    let mut waypoints = Waypoints::new();
    waypoints.insert("one".to_string(), gateway("single"));
    waypoints.insert("two".to_string(), gateway("unknown"));
    let svc = Arc::new(Service { waypoints, ..with_endpoints("host", 80, 8080, &["a"]) });
    let (r, asked) = resolve(&state, &svc, 80);
    assert_eq!(r, Ok(Resolution::Nothing));
    assert_eq!(asked.len(), 2);
}

#[test]
fn waypoint_endpoints_need_a_port_or_a_tunnel() {
    let resolves = |ports: &[(u16, u16)], tunnel: Option<ApplicationTunnel>| {
        let mut state = ProxyState::new(None);
        state
            .workloads
            .insert(Arc::new(Workload { application_tunnel: tunnel, ..in_cluster("w", "one") }));
        state.services.insert(Service {
            ports: ports.iter().cloned().collect(),
            ..with_endpoints("w1", 1, 1, &["w"])
        });
        let mut waypoints = Waypoints::new();
        waypoints.insert("one".to_string(), gateway("w1"));
        let svc = Arc::new(Service { waypoints, ..service("host") });
        match resolve(&state, &svc, 80).0 {
            Ok(Resolution::Ready(u)) => Some(u.port),
            _ => None,
        }
    };
    let tunnel = |port: Option<u16>| Some(ApplicationTunnel {
        protocol: TunnelProtocol::PROXY,
        port,
    });
    assert_eq!(resolves(&[(15008, 15009)], None), Some(15009));
    assert_eq!(resolves(&[], None), None);
    assert_eq!(resolves(&[], tunnel(Some(1))), Some(15008));
    // The tunnel lets the endpoint pass, but has no port.
    assert_eq!(resolves(&[], tunnel(None)), None);
    // So does the port, but the service leaves it to the endpoint.
    assert_eq!(resolves(&[(15008, 0)], None), None);
}

#[test]
fn candidates_have_to_be_reachable() {
    let mut state = ProxyState::new(None);
    let bare = |uid: &str, network: &str| Workload {
        workload_ips: vec![],
        network: network.to_string(),
        network_gateway: Some(gateway("gw")),
        ..in_cluster(uid, "one")
    };
    state.workloads.insert(Arc::new(bare("near", "")));
    let svc = Arc::new(with_endpoints("host", 80, 8080, &["near", "far"]));
    assert_eq!(resolve(&state, &svc, 80).0, Ok(Resolution::Nothing));
    state.workloads.insert(Arc::new(bare("far", "elsewhere")));
    let u = upstream(resolve(&state, &svc, 80).0);
    assert_eq!(u.workload.uid, "far");
    assert_eq!(u.selected_workload_ip, None);
}

#[test]
fn a_given_candidate_is_finalized() {
    let state = ProxyState::new(None);
    let demand = DemandProxyState::new(&state, false, 15008);
    let svc = Arc::new(service("host"));
    let direct = Candidate {
        workload: Arc::new(workload("a")),
        waypoint: None,
        endpoint: Arc::new(endpoint("a")),
        port: 8080,
    };
    let u = upstream(demand.finalize_candidate(&svc, target(80), Some(&direct)));
    assert_eq!(u.port, 8080);
    assert!(!u.through_waypoint);
    assert_eq!(u.destination_service.unwrap().hostname, "host");
    let through = Candidate { waypoint: Some(Arc::new(service("way"))), ..direct };
    let u = upstream(demand.finalize_candidate(&svc, target(80), Some(&through)));
    assert!(u.through_waypoint);
    assert_eq!(u.destination_service.unwrap().hostname, "way");
    assert_eq!(
        demand.finalize_candidate(&svc, target(80), None),
        Ok(Resolution::Nothing)
    );
}

#[test]
fn waypoints_are_kept_by_cluster() {
    let mut waypoints = Waypoints::new();
    waypoints.insert("one".to_string(), gateway("a"));
    waypoints.insert("two".to_string(), gateway("b"));
    waypoints.insert("one".to_string(), gateway("c"));
    assert_eq!(waypoints.inner.len(), 2);
    assert_eq!(waypoints.get(&"one".to_string()), Some(&gateway("c")));
    assert_eq!(waypoints.get(&"two".to_string()), Some(&gateway("b")));
    assert_eq!(waypoints.get(&"three".to_string()), None);
}

#[test]
fn direct_candidates_come_before_those_of_the_gateways() {
    let mut state = ProxyState::new(None);
    for (uid, cluster) in [("a", "one"), ("b", "one"), ("x", "two"), ("y", "three")] {
        state.workloads.insert(Arc::new(in_cluster(uid, cluster)));
    }
    state.services.insert(with_endpoints("w2", 15008, 15009, &["x", "y"]));
    state.services.insert(with_endpoints("w3", 15008, 15009, &["x", "y"]));
    let mut waypoints = Waypoints::new();
    waypoints.insert("three".to_string(), gateway("w3"));
    waypoints.insert("two".to_string(), gateway("w2"));
    let svc = Arc::new(Service {
        waypoints,
        ..with_endpoints("host", 80, 8080, &["b", "a", "x"])
    });
    let source = workload("source");
    let demand = DemandProxyState::new(&state, false, 15008);
    let mut search = demand.fetch_service_upstream(&svc, &source, target(80));
    let mut offered: Vec<Vec<String>> = vec![];
    let uids = |search: &ServiceSearch| -> Vec<String> {
        search.picker.candidates.iter().map(|c| c.workload.uid.clone()).collect()
    };
    offered.push(uids(&search));
    while let Some(gw) = search.next_gateway().cloned() {
        let found = state.find_destination(&gw.destination);
        demand.add_waypoint(&mut search, found);
        offered.push(uids(&search));
    }
    assert_eq!(
        offered,
        vec![vec!["b", "a"], vec!["b", "a", "y"], vec!["b", "a", "y", "x"]]
    );
}
