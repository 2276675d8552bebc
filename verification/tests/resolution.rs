use std::collections::HashMap;
use std::sync::Arc;

use proxy_state::address::{
    Destination, GatewayAddress, IpAddress, IpFamily, NamespacedHostname, NetworkAddress,
    SocketAddress,
};
use proxy_state::demand::{by_family, DemandKey, DemandProxyState, WorkloadIp};
use proxy_state::error::{gateway_not_found, Error, MissingGateway};
use proxy_state::identity::Identity;
use proxy_state::resolve::{GatewayKind, GatewayTarget, Resolution};
use proxy_state::service::{Endpoint, EndpointSet, Service, Waypoints};
use proxy_state::state::{ProxyState, ServiceResolutionMode};
use proxy_state::upstream::{HboneAddress, Upstream};
use proxy_state::workload::{HealthStatus, InboundProtocol, Locality, Workload};

fn v4(a: u8, b: u8, c: u8, d: u8) -> IpAddress {
    IpAddress::V4(u32::from_be_bytes([a, b, c, d]))
}

fn workload(uid: &str) -> Workload {
    Workload {
        name: uid.to_string(),
        namespace: "default".to_string(),
        trust_domain: "cluster.local".to_string(),
        service_account: "default".to_string(),
        uid: uid.to_string(),
        cluster_id: "cluster".to_string(),
        network: "".to_string(),
        node: "node".to_string(),
        hostname: "".to_string(),
        locality: Locality::default(),
        workload_ips: vec![v4(127, 0, 0, 1)],
        network_gateway: None,
        waypoint: None,
        application_tunnel: None,
        protocol: InboundProtocol::TCP,
        capacity: 1,
        authorization_policies: vec![],
        services: vec![],
        status: HealthStatus::Healthy,
    }
}

fn service(hostname: &str) -> Service {
    Service {
        name: "svc".to_string(),
        hostname: hostname.to_string(),
        namespace: "default".to_string(),
        vips: vec![],
        ports: HashMap::new(),
        endpoints: EndpointSet::new(),
        subject_alt_names: vec![],
        waypoint: None,
        waypoints: Waypoints::new(),
        load_balancer: None,
        ip_families: None,
    }
}

fn v6(last: u128) -> IpAddress {
    IpAddress::V6(0xfd00_0000_0000_0000_0000_0000_0000_0000 + last)
}

fn to(ip: IpAddress, port: u16) -> SocketAddress {
    SocketAddress::new(ip, port)
}

fn host(hostname: &str) -> NamespacedHostname {
    NamespacedHostname { namespace: "default".to_string(), hostname: hostname.to_string() }
}

fn by_host(hostname: &str) -> GatewayAddress {
    GatewayAddress { destination: Destination::Hostname(host(hostname)), hbone_mtls_port: 15008 }
}

fn by_ip(ip: IpAddress) -> GatewayAddress {
    GatewayAddress {
        destination: Destination::Address(NetworkAddress { network: "".to_string(), address: ip }),
        hbone_mtls_port: 15008,
    }
}

fn endpoint(uid: &str) -> Endpoint {
    Endpoint {
        workload_uid: uid.to_string(),
        port: HashMap::new(),
        status: HealthStatus::Healthy,
    }
}

/// A service `host` at 10.0.0.1 with the workload `a` at 127.0.0.1.
fn one_service() -> ProxyState {
    let mut state = ProxyState::new(None);
    state.workloads.insert(Arc::new(workload("a")));
    state.services.insert(Service {
        vips: vec![NetworkAddress { network: "".to_string(), address: v4(10, 0, 0, 1) }],
        ports: HashMap::from([(80, 8080), (15008, 15009)]),
        endpoints: EndpointSet::from_list(vec![endpoint("a")]),
        subject_alt_names: vec!["spiffe://td/ns/n/sa/s".to_string(), "nonsense".to_string()],
        ..service("host")
    });
    state
}

fn ready(r: Result<Resolution, Error>) -> Upstream {
    match r {
        Ok(Resolution::Ready(u)) => u,
        other => panic!("not ready: {:?}", other),
    }
}

#[test]
fn destination_of_a_workload() {
    let state = ProxyState::new(None);
    let demand = DemandProxyState::new(&state, false, 15008);
    let dual = || Arc::new(Workload {
        workload_ips: vec![v4(127, 0, 0, 1), v6(1), v6(2)],
        ..workload("a")
    });
    let pick = |wl: Arc<Workload>, target: IpAddress, restriction: Option<IpFamily>| {
        demand.pick_workload_destination_or_resolve(&wl, to(target, 80), restriction)
    };
    // the target itself, whatever the service asks for
    assert_eq!(pick(dual(), v6(2), None), Ok(WorkloadIp::Ip(v6(2))));
    assert_eq!(pick(dual(), v6(2), Some(IpFamily::IPv4)), Ok(WorkloadIp::Ip(v6(2))));
    // the family of the target
    assert_eq!(pick(dual(), v6(9), None), Ok(WorkloadIp::Ip(v6(1))));
    assert_eq!(pick(dual(), v4(10, 0, 0, 1), None), Ok(WorkloadIp::Ip(v4(127, 0, 0, 1))));
    assert_eq!(pick(dual(), v6(9), Some(IpFamily::Dual)), Ok(WorkloadIp::Ip(v6(1))));
    // the restriction goes before the family
    assert_eq!(pick(dual(), v6(9), Some(IpFamily::IPv4)), Ok(WorkloadIp::Ip(v4(127, 0, 0, 1))));
    assert_eq!(pick(dual(), v4(10, 0, 0, 1), Some(IpFamily::IPv6)), Ok(WorkloadIp::Ip(v6(1))));
    // another family is better than none
    let single = Arc::new(workload("a"));
    assert_eq!(pick(single.clone(), v6(9), None), Ok(WorkloadIp::Ip(v4(127, 0, 0, 1))));
    assert_eq!(
        pick(single.clone(), v6(9), Some(IpFamily::IPv6)),
        Err(Error::NoValidDestination(single))
    );
    let bare = Arc::new(Workload { workload_ips: vec![], ..workload("a") });
    assert_eq!(pick(bare.clone(), v6(9), None), Err(Error::NoValidDestination(bare)));
    let remote = Workload {
        workload_ips: vec![],
        network_gateway: Some(by_host("gateway")),
        ..workload("a")
    };
    assert_eq!(pick(Arc::new(remote), v6(9), None), Ok(WorkloadIp::ThroughGateway));
    let named = Workload {
        workload_ips: vec![],
        network_gateway: Some(by_host("gateway")),
        hostname: "host".to_string(),
        ..workload("a")
    };
    assert_eq!(pick(Arc::new(named), v6(9), None), Ok(WorkloadIp::Resolve));
}

#[test]
fn addresses_of_a_hostname() {
    let state = ProxyState::new(None);
    let demand = DemandProxyState::new(&state, false, 15008);
    let resolve = |answer: Option<Vec<IpAddress>>| {
        demand.resolve_on_demand_dns(&workload("a"), to(v4(10, 0, 0, 1), 80), answer)
    };
    assert_eq!(resolve(None), Err(Error::NoResolvedAddresses("a".to_string())));
    assert_eq!(resolve(Some(vec![])), Err(Error::EmptyResolvedAddresses("a".to_string())));
    assert_eq!(resolve(Some(vec![v6(1)])), Ok(v6(1)));
    let mut seen: Vec<IpAddress> = vec![];
    for _ in 0..200 {
        let answer = vec![v6(1), v4(1, 1, 1, 1), v6(2), v4(2, 2, 2, 2)];
        let ip = resolve(Some(answer)).unwrap();
        if !seen.contains(&ip) {
            seen.push(ip);
        }
    }
    assert_eq!(seen.len(), 2);
    assert!(seen.contains(&v4(1, 1, 1, 1)) && seen.contains(&v4(2, 2, 2, 2)));
}

#[test]
fn upstream_of_a_service() {
    let state = one_service();
    let mut demand = DemandProxyState::new(&state, true, 15008);
    demand.set_hbone_port(15010);
    let target = to(v4(10, 0, 0, 1), 80);
    let standard = ServiceResolutionMode::Standard;
    let source = workload("source");
    let u = ready(demand.fetch_upstream("".to_string(), &source, target, standard, false));
    assert_eq!(u.workload, Arc::new(workload("a")));
    assert_eq!(u.selected_workload_ip, Some(v4(127, 0, 0, 1)));
    assert_eq!(u.port, 8080);
    assert_eq!(u.service_sans, vec!["spiffe://td/ns/n/sa/s", "nonsense"]);
    let description = u.destination_service.as_ref().unwrap();
    assert_eq!(description.hostname, "host");
    assert_eq!(description.name, "svc");
    assert_eq!(description.namespace, "default");
    assert_eq!(u.original_target, target);
    assert!(!u.through_waypoint);
    assert_eq!(u.hbone_port, 15010);
    assert_eq!(u.clone(), u);
    // only the SAN that is an identity, and the workload itself
    assert_eq!(
        u.service_sans(),
        vec![Identity::Spiffe {
            trust_domain: "td".to_string(),
            namespace: "n".to_string(),
            service_account: "s".to_string(),
        }]
    );
    let all = u.workload_and_services_san();
    assert_eq!(all.len(), 2);
    assert_eq!(all[1], workload("a").identity());
}

#[test]
fn upstream_of_a_workload() {
    let state = one_service();
    let demand = DemandProxyState::new(&state, true, 15008);
    let source = workload("source");
    let standard = ServiceResolutionMode::Standard;
    let target = to(v4(127, 0, 0, 1), 99);
    let u = ready(demand.fetch_upstream("".to_string(), &source, target, standard, false));
    assert_eq!(u.port, 99);
    assert_eq!(u.destination_service, None);
    assert!(u.service_sans.is_empty());
    // what is not known is asked for, once
    let unknown = to(v4(9, 9, 9, 9), 80);
    assert_eq!(
        demand.fetch_upstream("".to_string(), &source, unknown, standard, false),
        Ok(Resolution::Demand(DemandKey::Address(NetworkAddress {
            network: "".to_string(),
            address: v4(9, 9, 9, 9),
        })))
    );
    assert_eq!(
        demand.fetch_upstream("".to_string(), &source, unknown, standard, true),
        Ok(Resolution::Nothing)
    );
    // the service is known, but has no such port
    let no_port = to(v4(10, 0, 0, 1), 81);
    assert_eq!(
        demand.fetch_upstream("".to_string(), &source, no_port, standard, false),
        Ok(Resolution::Nothing)
    );
}

#[test]
fn upstream_with_a_hostname() {
    let mut state = one_service();
    state.workloads.insert(Arc::new(Workload {
        workload_ips: vec![],
        hostname: "example.com".to_string(),
        ..workload("a")
    }));
    let demand = DemandProxyState::new(&state, false, 15008);
    let target = to(v4(10, 0, 0, 1), 80);
    let pending = || {
        let standard = ServiceResolutionMode::Standard;
        let source = workload("source");
        match demand.fetch_upstream("".to_string(), &source, target, standard, false) {
            Ok(Resolution::Resolve(p)) => p,
            other => panic!("nothing to resolve: {:?}", other),
        }
    };
    let p = pending();
    assert_eq!(p.target, target);
    assert_eq!(p.upstream.selected_workload_ip, None);
    let u = pending().resolve(Some(vec![v6(1), v4(1, 1, 1, 1)])).unwrap();
    assert_eq!(u.selected_workload_ip, Some(v4(1, 1, 1, 1)));
    assert_eq!(u.port, 8080);
    assert_eq!(u.original_target, target);
    assert_eq!(
        pending().resolve(None),
        Err(Error::NoResolvedAddresses("a".to_string()))
    );
    assert_eq!(
        pending().resolve(Some(vec![])),
        Err(Error::EmptyResolvedAddresses("a".to_string()))
    );
}

#[test]
fn network_gateways() {
    let mut state = one_service();
    state.workloads.insert(Arc::new(Workload {
        workload_ips: vec![v4(127, 0, 0, 2), v6(2)],
        hostname: "single".to_string(),
        ..workload("b")
    }));
    let demand = DemandProxyState::new(&state, false, 15008);
    let source = workload("source");
    let original = to(v6(7), 443);
    // by the address of a service
    let u = ready(demand.fetch_network_gateway(&by_ip(v4(10, 0, 0, 1)), &source, original));
    assert_eq!(u.port, 15009);
    assert_eq!(u.original_target, original);
    assert!(!u.through_waypoint);
    // by the address of a workload: that address is the destination
    let u = ready(demand.fetch_network_gateway(&by_ip(v4(127, 0, 0, 2)), &source, original));
    assert_eq!(u.selected_workload_ip, Some(v4(127, 0, 0, 2)));
    assert_eq!(u.port, 15008);
    // by the hostname of a service
    let u = ready(demand.fetch_network_gateway(&by_host("host"), &source, original));
    assert_eq!(u.port, 15009);
    assert!(u.destination_service.is_some());
    // by the hostname of a workload: the family of the caller is kept
    let u = ready(demand.fetch_network_gateway(&by_host("single"), &source, original));
    assert_eq!(u.selected_workload_ip, Some(v6(2)));
    assert_eq!(u.port, 15008);
    assert_eq!(
        demand.fetch_network_gateway(&by_host("unknown"), &source, original),
        Err(Error::UnknownNetworkGateway(MissingGateway::Hostname("unknown".to_string())))
    );
    assert_eq!(
        demand.fetch_network_gateway(&by_ip(v4(9, 9, 9, 9)), &source, original),
        Err(Error::UnknownNetworkGateway(MissingGateway::Gateway(by_ip(v4(9, 9, 9, 9)))))
    );
    assert_eq!(
        gateway_not_found(GatewayKind::Network, "unknown"),
        "network gateway unknown not found"
    );
}

#[test]
fn waypoints() {
    let state = one_service();
    let demand = DemandProxyState::new(&state, false, 15008);
    let source = workload("source");
    let original = to(v4(10, 9, 9, 9), 443);
    let u = ready(demand.fetch_waypoint(&by_host("host"), &source, original));
    assert_eq!(u.port, 15009);
    assert!(u.through_waypoint);
    assert_eq!(u.original_target, original);
    assert_eq!(u.hbone_target_destination(), Ok(Some(HboneAddress::SocketAddr(original))));
    assert_eq!(
        demand.fetch_waypoint(&by_host("unknown"), &source, original),
        Err(Error::UnknownWaypoint(MissingGateway::Hostname("unknown".to_string())))
    );
    assert_eq!(
        demand.fetch_waypoint(&by_ip(v4(9, 9, 9, 9)), &source, original),
        Err(Error::UnknownWaypoint(MissingGateway::Gateway(by_ip(v4(9, 9, 9, 9)))))
    );

    let plain = service("plain");
    assert_eq!(
        demand.fetch_service_waypoint(&plain, &source, original),
        Ok(Resolution::Nothing)
    );
    let covered = Service { waypoint: Some(by_host("host")), ..service("covered") };
    let u = ready(demand.fetch_service_waypoint(&covered, &source, original));
    assert!(u.through_waypoint);
    assert_eq!(
        demand.fetch_workload_waypoint(&workload("a"), &source, original),
        Ok(Resolution::Nothing)
    );
    let covered = Workload { waypoint: Some(by_ip(v4(127, 0, 0, 1))), ..workload("c") };
    let u = ready(demand.fetch_workload_waypoint(&covered, &source, original));
    assert!(u.through_waypoint);
    assert_eq!(u.selected_workload_ip, Some(v4(127, 0, 0, 1)));
    assert_eq!(gateway_not_found(GatewayKind::Waypoint, "host"), "waypoint host not found");
}

#[test]
fn found_gateways_are_finalized() {
    let state = ProxyState::new(None);
    let demand = DemandProxyState::new(&state, false, 15008);
    let original = to(v6(7), 443);
    let gateway = by_host("g");
    let found = GatewayTarget::Known(Some((Arc::new(workload("a")), 1, None)), original);
    let u = ready(demand.finalize_gateway(&gateway, original, GatewayKind::Waypoint, found));
    assert!(u.through_waypoint);
    assert_eq!(u.port, 1);
    assert_eq!(
        demand.finalize_gateway(
            &gateway,
            original,
            GatewayKind::Network,
            GatewayTarget::Known(None, original)
        ),
        Err(Error::UnknownNetworkGateway(MissingGateway::Gateway(by_host("g"))))
    );
    assert_eq!(
        demand.finalize_gateway(
            &gateway,
            original,
            GatewayKind::Waypoint,
            GatewayTarget::Unknown("g".to_string())
        ),
        Err(Error::UnknownWaypoint(MissingGateway::Hostname("g".to_string())))
    );
    assert_eq!(
        demand.finalize_upstream(original, None, original, false),
        Ok(Resolution::Nothing)
    );
}

#[test]
fn addresses_of_an_upstream() {
    let upstream = |protocol: InboundProtocol, ip: Option<IpAddress>, through_waypoint: bool| {
        Upstream {
            workload: Arc::new(Workload { protocol, ..workload("a") }),
            selected_workload_ip: ip,
            port: 80,
            service_sans: vec![],
            destination_service: None,
            original_target: to(v4(10, 0, 0, 1), 443),
            through_waypoint,
            hbone_port: 15008,
        }
    };
    let ip = Some(v4(127, 0, 0, 1));
    // directly to another proxy: its HBONE port
    let u = upstream(InboundProtocol::HBONE, ip, false);
    assert_eq!(u.workload_socket_addr(), Some(to(v4(127, 0, 0, 1), 15008)));
    assert_eq!(
        u.hbone_target_destination(),
        Ok(Some(HboneAddress::SocketAddr(to(v4(127, 0, 0, 1), 80))))
    );
    // through a waypoint: its port, and the original target
    let u = upstream(InboundProtocol::HBONE, ip, true);
    assert_eq!(u.workload_socket_addr(), Some(to(v4(127, 0, 0, 1), 80)));
    assert_eq!(
        u.hbone_target_destination(),
        Ok(Some(HboneAddress::SocketAddr(to(v4(10, 0, 0, 1), 443))))
    );
    let u = upstream(InboundProtocol::TCP, ip, false);
    assert_eq!(u.workload_socket_addr(), Some(to(v4(127, 0, 0, 1), 80)));
    assert_eq!(u.hbone_target_destination(), Ok(None));
    let u = upstream(InboundProtocol::HBONE, None, false);
    assert_eq!(u.workload_socket_addr(), None);
    assert_eq!(
        u.hbone_target_destination(),
        Err(Error::NoValidDestination(u.workload.clone()))
    );
}

#[test]
fn families() {
    assert!(v6(1).is_ipv6() && !v4(1, 1, 1, 1).is_ipv6());
    assert!(v6(1).is_same_family(&v6(2)) && !v6(1).is_same_family(&v4(1, 1, 1, 1)));
    assert!(IpFamily::Dual.accepts_ip(v6(1)) && IpFamily::Dual.accepts_ip(v4(1, 1, 1, 1)));
    assert!(IpFamily::IPv6.accepts_ip(v6(1)) && !IpFamily::IPv6.accepts_ip(v4(1, 1, 1, 1)));
    assert!(!IpFamily::IPv4.accepts_ip(v6(1)) && IpFamily::IPv4.accepts_ip(v4(1, 1, 1, 1)));
}

#[test]
fn addresses_are_split_by_family() {
    let ips = vec![v6(1), v4(1, 1, 1, 1), v6(2), v4(2, 2, 2, 2)];
    let fours = vec![v4(1, 1, 1, 1), v4(2, 2, 2, 2)];
    let sixes = vec![v6(1), v6(2)];
    assert_eq!(by_family(&ips, v4(9, 9, 9, 9)), (fours.clone(), sixes.clone()));
    assert_eq!(by_family(&ips, v6(9)), (sixes, fours));
    assert_eq!(by_family(&vec![], v6(9)), (vec![], vec![]));
}

#[test]
fn demand_keys_are_written() {
    let address = DemandKey::Address(NetworkAddress {
        network: "net".to_string(),
        address: v4(1, 2, 3, 4),
    });
    assert_eq!(address.display("1.2.3.4"), "net/1.2.3.4");
    assert_eq!(DemandKey::Hostname(host("example.com")).display(""), "default/example.com");
    assert_eq!(DemandKey::Uid("uid".to_string()).display(""), "uid");
}

#[test]
fn flow_label_and_scope_of_the_target_are_kept() {
    let state = one_service();
    let demand = DemandProxyState::new(&state, false, 15008);
    let source = workload("source");
    let original = SocketAddress { flowinfo: 7, scope_id: 3, ..to(v6(7), 443) };
    assert_ne!(original, to(v6(7), 443));
    let u = ready(demand.fetch_waypoint(&by_host("host"), &source, original));
    assert_eq!(u.original_target, original);
    assert_eq!(u.hbone_target_destination(), Ok(Some(HboneAddress::SocketAddr(original))));
    let u = ready(demand.fetch_network_gateway(&by_host("host"), &source, original));
    assert_eq!(u.original_target, original);

    // What is connected to has none of its own, also at the address of the target.
    let mut state = ProxyState::new(None);
    state.workloads.insert(Arc::new(Workload { workload_ips: vec![v6(7)], ..workload("a") }));
    let demand = DemandProxyState::new(&state, false, 15008);
    let standard = ServiceResolutionMode::Standard;
    let u = ready(demand.fetch_upstream("".to_string(), &source, original, standard, false));
    assert_eq!(u.original_target, original);
    assert_eq!(u.workload_socket_addr(), Some(to(v6(7), 443)));
}
