use std::collections::HashMap;
use std::sync::Arc;

use proxy_state::address::{Destination, GatewayAddress, IpAddress, NamespacedHostname};
use proxy_state::demand::DemandProxyState;
use proxy_state::picker::{Candidate, EndpointPicker};
use proxy_state::service::{
    Endpoint, EndpointSet, LoadBalancer, LoadBalancerHealthPolicy, LoadBalancerMode,
    LoadBalancerScopes, Service, Waypoints,
};
use proxy_state::state::{ProxyState, ServiceResolutionMode};
use proxy_state::workload::{
    ApplicationTunnel, HealthStatus, InboundProtocol, Locality, TunnelProtocol, Workload,
};

fn v4(a: u8, b: u8, c: u8, d: u8) -> IpAddress {
    IpAddress::V4(u32::from_be_bytes([a, b, c, d]))
}

fn workload(uid: &str) -> Workload {
    Workload {
        name: uid.to_string(),
        namespace: "default".to_string(),
        trust_domain: "cluster.local".to_string(),
        service_account: "default".to_string(),
        uid: uid.to_string(),
        cluster_id: "cluster".to_string(),
        network: "".to_string(),
        node: "node".to_string(),
        hostname: "".to_string(),
        locality: Locality::default(),
        workload_ips: vec![v4(127, 0, 0, 1)],
        network_gateway: None,
        waypoint: None,
        application_tunnel: None,
        protocol: InboundProtocol::TCP,
        capacity: 1,
        authorization_policies: vec![],
        services: vec![],
        status: HealthStatus::Healthy,
    }
}

fn service(hostname: &str) -> Service {
    Service {
        name: "svc".to_string(),
        hostname: hostname.to_string(),
        namespace: "default".to_string(),
        vips: vec![],
        ports: HashMap::new(),
        endpoints: EndpointSet::new(),
        subject_alt_names: vec![],
        waypoint: None,
        waypoints: Waypoints::new(),
        load_balancer: None,
        ip_families: None,
    }
}

fn endpoint(uid: &str, ports: &[(u16, u16)]) -> Endpoint {
    Endpoint {
        workload_uid: uid.to_string(),
        port: ports.iter().cloned().collect(),
        status: HealthStatus::Healthy,
    }
}

fn balancer(mode: LoadBalancerMode) -> Option<LoadBalancer> {
    Some(LoadBalancer {
        routing_preferences: vec![
            LoadBalancerScopes::Network,
            LoadBalancerScopes::Region,
            LoadBalancerScopes::Zone,
        ],
        mode,
        health_policy: LoadBalancerHealthPolicy::OnlyHealthy,
    })
}

fn located(uid: &str, network: &str, region: &str, zone: &str) -> Workload {
    Workload {
        network: network.to_string(),
        locality: Locality {
            region: region.to_string(),
            zone: zone.to_string(),
            subzone: "".to_string(),
        },
        ..workload(uid)
    }
}

fn add(picker: &mut EndpointPicker, wl: Workload) {
    let ep = Arc::new(endpoint(&wl.uid, &[]));
    picker.add_direct_endpoint(Arc::new(wl), ep, 80);
}

fn picked(picker: &EndpointPicker, draws: usize) -> Vec<String> {
    let mut uids: Vec<String> = vec![];
    for _ in 0..draws {
        let uid = picker.pick_candidate().unwrap().workload.uid.clone();
        if !uids.contains(&uid) {
            uids.push(uid);
        }
    }
    uids.sort();
    uids
}

#[test]
fn rank_counts_the_leading_preferences() {
    let source = located("source", "n", "r", "z");
    let failover = Service { load_balancer: balancer(LoadBalancerMode::Failover), ..service("s") };
    let picker = EndpointPicker::new(&source, &failover);
    assert_eq!(picker.workload_rank(&located("a", "n", "r", "z")), Some(3));
    assert_eq!(picker.workload_rank(&located("a", "n", "r", "-")), Some(2));
    assert_eq!(picker.workload_rank(&located("a", "n", "-", "-")), Some(1));
    assert_eq!(picker.workload_rank(&located("a", "n", "-", "z")), Some(1));
    assert_eq!(picker.workload_rank(&located("a", "-", "r", "z")), Some(0));
    let strict = Service { load_balancer: balancer(LoadBalancerMode::Strict), ..service("s") };
    let picker = EndpointPicker::new(&source, &strict);
    assert_eq!(picker.workload_rank(&located("a", "n", "r", "z")), Some(3));
    assert_eq!(picker.workload_rank(&located("a", "n", "r", "-")), None);
    let standard = Service { load_balancer: balancer(LoadBalancerMode::Standard), ..service("s") };
    let picker = EndpointPicker::new(&source, &standard);
    assert_eq!(picker.workload_rank(&located("a", "n", "r", "z")), Some(0));
    let plain = service("s");
    let picker = EndpointPicker::new(&source, &plain);
    assert_eq!(picker.workload_rank(&located("a", "-", "-", "-")), Some(0));
}

#[test]
fn every_scope_is_compared() {
    let target = Workload {
        node: "other".to_string(),
        cluster_id: "other".to_string(),
        ..located("a", "n", "r", "z")
    };
    let other_subzone = Workload {
        locality: Locality {
            region: "r".to_string(),
            zone: "z".to_string(),
            subzone: "other".to_string(),
        },
        ..located("a", "n", "r", "z")
    };
    let source = located("source", "n", "r", "z");
    let rank = |scope: LoadBalancerScopes, target: &Workload| {
        let svc = Service {
            load_balancer: Some(LoadBalancer {
                routing_preferences: vec![scope],
                mode: LoadBalancerMode::Failover,
                health_policy: LoadBalancerHealthPolicy::AllowAll,
            }),
            ..service("s")
        };
        EndpointPicker::new(&source, &svc).workload_rank(target)
    };
    assert_eq!(rank(LoadBalancerScopes::Region, &target), Some(1));
    assert_eq!(rank(LoadBalancerScopes::Zone, &target), Some(1));
    assert_eq!(rank(LoadBalancerScopes::Subzone, &target), Some(1));
    assert_eq!(rank(LoadBalancerScopes::Network, &target), Some(1));
    assert_eq!(rank(LoadBalancerScopes::Node, &target), Some(0));
    assert_eq!(rank(LoadBalancerScopes::Cluster, &target), Some(0));
    assert_eq!(rank(LoadBalancerScopes::Subzone, &other_subzone), Some(0));
    assert_eq!(rank(LoadBalancerScopes::Node, &other_subzone), Some(1));
    assert_eq!(rank(LoadBalancerScopes::Cluster, &other_subzone), Some(1));
}

#[test]
fn only_the_best_are_picked() {
    let source = located("source", "n", "r", "z");
    let svc = Service { load_balancer: balancer(LoadBalancerMode::Failover), ..service("s") };
    let mut picker = EndpointPicker::new(&source, &svc);
    assert!(picker.pick_candidate().is_none());
    add(&mut picker, located("far", "-", "-", "-"));
    assert_eq!(picked(&picker, 20), vec!["far"]);
    add(&mut picker, located("near", "n", "r", "-"));
    add(&mut picker, located("far2", "n", "-", "-"));
    assert_eq!(picked(&picker, 20), vec!["near"]);
    add(&mut picker, located("near2", "n", "r", "-"));
    assert_eq!(picked(&picker, 200), vec!["near", "near2"]);
    assert_eq!(picker.best_rank, 2);
    assert!(picker.setup_is_uniform());
    let pool: Vec<String> = picker.pool(None).iter().map(|c| c.workload.uid.clone()).collect();
    assert_eq!(pool, vec!["near", "near2"]);
}

#[test]
fn candidates_without_capacity_are_not_picked() {
    let source = workload("source");
    let svc = service("s");
    let mut picker = EndpointPicker::new(&source, &svc);
    add(&mut picker, Workload { capacity: 0, ..workload("empty") });
    assert!(picker.pick_candidate().is_none());
    add(&mut picker, Workload { capacity: 7, ..workload("able") });
    add(&mut picker, Workload { capacity: 0, ..workload("empty2") });
    assert_eq!(picked(&picker, 100), vec!["able"]);
    add(&mut picker, Workload { capacity: u32::MAX, ..workload("large") });
    assert!(picked(&picker, 100).contains(&"large".to_string()));
}

#[test]
fn a_candidate_is_replaced_by_one_of_its_workload() {
    let source = workload("source");
    let svc = service("s");
    let mut picker = EndpointPicker::new(&source, &svc);
    picker.add_direct_endpoint(Arc::new(workload("a")), Arc::new(endpoint("a", &[])), 1);
    picker.add_direct_endpoint(Arc::new(workload("a")), Arc::new(endpoint("a", &[])), 2);
    assert_eq!(picker.candidates.len(), 1);
    assert_eq!(picker.pick_candidate().unwrap().port, 2);
}

#[test]
fn clusters_share_the_load_where_waypoints_are_mixed_in() {
    let source = workload("source");
    let svc = service("s");
    let waypoint = Arc::new(service("waypoint"));
    let mut picker = EndpointPicker::new(&source, &svc);
    // A single large waypoint would take nearly all of the load by capacity.
    let large = Workload {
        cluster_id: "one".to_string(),
        capacity: u32::MAX,
        ..workload("w")
    };
    picker.add_waypoint_endpoint(Arc::new(large), waypoint, Arc::new(endpoint("w", &[])), 15008);
    add(&mut picker, Workload { cluster_id: "two".to_string(), ..workload("d") });
    assert!(picker.has_waypoints && picker.has_directs);
    assert_eq!(picker.clusters.len(), 2);
    assert!(!picker.setup_is_uniform());
    for cluster in picker.clusters.iter() {
        let pool = picker.pool(Some(cluster));
        assert_eq!(pool.len(), 1);
        assert_eq!(pool[0].workload.cluster_id, cluster.cluster_id);
    }
    assert_eq!(picked(&picker, 200), vec!["d", "w"]);
}

#[test]
fn workloads_without_an_address_are_reached_through_a_gateway() {
    let gateway = GatewayAddress {
        destination: Destination::Hostname(NamespacedHostname {
            namespace: "default".to_string(),
            hostname: "gateway".to_string(),
        }),
        hbone_mtls_port: 15008,
    };
    let svc = Service {
        ports: HashMap::from([(80, 8080)]),
        endpoints: EndpointSet::from_list(vec![endpoint("a", &[])]),
        ..service("s")
    };
    let find = |target: Workload, source: Workload| {
        let mut state = ProxyState::new(None);
        state.workloads.insert(Arc::new(target));
        state.load_balance(&source, &svc, 80, ServiceResolutionMode::Standard).is_some()
    };
    let bare = || Workload { workload_ips: vec![], ..located("a", "n", "", "") };
    let remote = || Workload { network_gateway: Some(gateway.clone()), ..bare() };
    assert!(!find(bare(), located("source", "other", "", "")));
    assert!(find(remote(), located("source", "other", "", "")));
    // a gateway is never used within one network
    assert!(!find(remote(), located("source", "n", "", "")));
    let named = Workload { hostname: "host".to_string(), ..bare() };
    assert!(find(named, located("source", "n", "", "")));
}

#[test]
fn ports_are_translated() {
    let source = workload("source");
    let tunnel = |port: Option<u16>| Some(ApplicationTunnel {
        protocol: TunnelProtocol::PROXY,
        port,
    });
    let find = |ep: &[(u16, u16)],
                svc: &[(u16, u16)],
                tunnel: Option<ApplicationTunnel>,
                mode: ServiceResolutionMode| {
        let mut state = ProxyState::new(None);
        state
            .workloads
            .insert(Arc::new(Workload { application_tunnel: tunnel, ..workload("a") }));
        let svc = Arc::new(Service {
            ports: svc.iter().cloned().collect(),
            endpoints: EndpointSet::from_list(vec![endpoint("a", ep)]),
            ..service("s")
        });
        state.find_upstream_from_service(&source, 80, mode, svc).map(|(_, port, _)| port)
    };
    let standard = ServiceResolutionMode::Standard;
    let waypoint = ServiceResolutionMode::Waypoint;
    // the endpoint goes before the service
    assert_eq!(find(&[(80, 9090)], &[(80, 8080)], None, standard), Some(9090));
    assert_eq!(find(&[(81, 9090)], &[(80, 8080)], None, standard), Some(8080));
    assert_eq!(find(&[(80, 9090)], &[(80, 0)], None, standard), Some(9090));
    assert_eq!(find(&[], &[(80, 0)], None, standard), None);
    // the service has to have the port, even if the endpoint has it
    assert_eq!(find(&[(80, 9090)], &[(81, 8080)], None, standard), None);
    assert_eq!(find(&[], &[(81, 8080)], tunnel(Some(1)), standard), None);
    // unless it is a waypoint, with a tunnel
    assert_eq!(find(&[], &[(81, 8080)], tunnel(Some(1)), waypoint), Some(80));
    assert_eq!(find(&[], &[(80, 8080)], None, waypoint), Some(8080));
    assert_eq!(find(&[], &[], None, waypoint), None);
    // neither a port nor a tunnel with a port
    assert_eq!(find(&[], &[], tunnel(None), waypoint), None);
    assert_eq!(find(&[], &[(80, 0)], None, waypoint), None);
    let demand_state = ProxyState::new(None);
    let demand = DemandProxyState::new(&demand_state, false, 15008);
    assert_eq!(
        demand.translate_service_port(
            &endpoint("a", &[(80, 9090)]),
            &workload("a"),
            &service("s"),
            80
        ),
        Some(9090)
    );
}

#[test]
fn endpoints_of_unknown_workloads_are_skipped() {
    let source = workload("source");
    let svc = Service {
        ports: HashMap::from([(80, 8080)]),
        endpoints: EndpointSet::from_list(vec![endpoint("a", &[]), endpoint("b", &[])]),
        ..service("s")
    };
    let mut state = ProxyState::new(None);
    let standard = ServiceResolutionMode::Standard;
    assert!(state.load_balance(&source, &svc, 80, standard).is_none());
    state.workloads.insert(Arc::new(workload("b")));
    let (ep, wl) = state.load_balance(&source, &svc, 80, standard).unwrap();
    assert_eq!(ep.workload_uid, "b");
    assert_eq!(wl.uid, "b");
    assert!(ProxyState::upstream_of(Arc::new(service("s")), 80, Some((ep, wl))).is_none());
    assert!(ProxyState::upstream_of(Arc::new(service("s")), 80, None).is_none());
}

#[test]
fn capacities_are_the_weights() {
    let candidate = |uid: &str, capacity: u32| Candidate {
        workload: Arc::new(Workload { capacity, ..workload(uid) }),
        waypoint: None,
        endpoint: Arc::new(endpoint(uid, &[])),
        port: 80,
    };
    let candidates = vec![candidate("a", 3), candidate("b", 0), candidate("c", u32::MAX)];
    let weighted: Vec<(String, u64)> = Candidate::weighted(&candidates)
        .iter()
        .map(|(c, weight)| (c.workload.uid.clone(), *weight))
        .collect();
    assert_eq!(
        weighted,
        vec![("a".to_string(), 3), ("b".to_string(), 0), ("c".to_string(), u32::MAX as u64)]
    );
}

#[test]
fn load_follows_capacity() {
    let source = workload("source");
    let svc = service("s");
    let mut picker = EndpointPicker::new(&source, &svc);
    add(&mut picker, Workload { capacity: 1, ..workload("small") });
    add(&mut picker, Workload { capacity: 1_000_000_000, ..workload("large") });
    let mut large: usize = 0;
    for _ in 0..1000 {
        if picker.pick_candidate().unwrap().workload.uid == "large" {
            large += 1;
        }
    }
    assert!(large > 990);
}

#[test]
fn the_order_of_offers_does_not_matter() {
    let source = located("source", "n", "r", "z");
    let svc = Service { load_balancer: balancer(LoadBalancerMode::Failover), ..service("s") };
    let offer = |order: [usize; 4]| {
        let mut picker = EndpointPicker::new(&source, &svc);
        for i in order {
            add(
                &mut picker,
                match i {
                    0 => located("far", "-", "-", "-"),
                    1 => located("a", "n", "r", "-"),
                    2 => located("half", "n", "-", "-"),
                    _ => located("b", "n", "r", "-"),
                },
            );
        }
        let mut uids: Vec<String> =
            picker.candidates.iter().map(|c| c.workload.uid.clone()).collect();
        uids.sort();
        (uids, picker.best_rank, picker.has_waypoints, picker.has_directs, picker.clusters.len())
    };
    let expected = (vec!["a".to_string(), "b".to_string()], 2, false, true, 1);
    for order in [[0, 1, 2, 3], [3, 2, 1, 0], [1, 3, 0, 2], [2, 0, 3, 1]] {
        assert_eq!(offer(order), expected);
    }
}

#[test]
fn an_endpoint_with_capacity_is_picked_in_either_mode() {
    let source = workload("source");
    let svc = Service {
        ports: HashMap::from([(80, 8080)]),
        endpoints: EndpointSet::from_list(vec![endpoint("a", &[]), endpoint("b", &[])]),
        ..service("s")
    };
    for mode in [ServiceResolutionMode::Standard, ServiceResolutionMode::Waypoint] {
        let mut state = ProxyState::new(None);
        state.workloads.insert(Arc::new(Workload { capacity: 0, ..workload("a") }));
        assert!(state.load_balance(&source, &svc, 80, mode).is_none());
        state.workloads.insert(Arc::new(workload("b")));
        for _ in 0..20 {
            let (ep, _) = state.load_balance(&source, &svc, 80, mode).unwrap();
            assert_eq!(ep.workload_uid, "b");
        }
    }
}
