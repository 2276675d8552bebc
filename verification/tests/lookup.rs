use std::collections::HashMap;
use std::sync::Arc;

use proxy_state::address::{
    Destination, IpAddress, NamespacedHostname, NetworkAddress, SocketAddress,
};
use proxy_state::demand::{DemandKey, DemandProxyState, Fetch};
use proxy_state::error::Error;
use proxy_state::rbac::{Authorization, RbacAction, RbacScope};
use proxy_state::service::{Endpoint, EndpointSet, Service, StagedService, Waypoints};
use proxy_state::state::{Address, ProxyState, ServiceResolutionMode};
use proxy_state::workload::{HealthStatus, InboundProtocol, Locality, Workload, WorkloadInfo};

fn v4(a: u8, b: u8, c: u8, d: u8) -> IpAddress {
    IpAddress::V4(u32::from_be_bytes([a, b, c, d]))
}

fn workload(uid: &str) -> Workload {
    Workload {
        name: uid.to_string(),
        namespace: "default".to_string(),
        trust_domain: "cluster.local".to_string(),
        service_account: "default".to_string(),
        uid: uid.to_string(),
        cluster_id: "cluster".to_string(),
        network: "".to_string(),
        node: "node".to_string(),
        hostname: "".to_string(),
        locality: Locality::default(),
        workload_ips: vec![v4(127, 0, 0, 1)],
        network_gateway: None,
        waypoint: None,
        application_tunnel: None,
        protocol: InboundProtocol::TCP,
        capacity: 1,
        authorization_policies: vec![],
        services: vec![],
        status: HealthStatus::Healthy,
    }
}

fn service(hostname: &str) -> Service {
    Service {
        name: "svc".to_string(),
        hostname: hostname.to_string(),
        namespace: "default".to_string(),
        vips: vec![],
        ports: HashMap::new(),
        endpoints: EndpointSet::new(),
        subject_alt_names: vec![],
        waypoint: None,
        waypoints: Waypoints::new(),
        load_balancer: None,
        ip_families: None,
    }
}

fn at(ip: IpAddress) -> NetworkAddress {
    NetworkAddress { network: "".to_string(), address: ip }
}

fn name(namespace: &str, hostname: &str) -> NamespacedHostname {
    NamespacedHostname { namespace: namespace.to_string(), hostname: hostname.to_string() }
}

#[test]
fn inserted_workload_replaces_the_one_with_its_uid() {
    let mut state = ProxyState::new(Some("node".to_string()));
    state.workloads.insert(Arc::new(workload("a")));
    state.workloads.insert(Arc::new(workload("b")));
    let moved = Arc::new(Workload { workload_ips: vec![v4(10, 0, 0, 1)], ..workload("a") });
    state.workloads.insert(moved.clone());
    assert_eq!(state.workloads.local_node, Some("node".to_string()));
    assert_eq!(state.workloads.workloads.len(), 2);
    assert_eq!(state.workloads.find_uid(&"a".to_string()), Some(moved.clone()));
    assert_eq!(state.workloads.find_uid(&"b".to_string()), Some(Arc::new(workload("b"))));
    assert_eq!(state.workloads.find_uid(&"c".to_string()), None);
    assert_eq!(state.workloads.find_address(&at(v4(10, 0, 0, 1))), Some(moved));
    assert_eq!(
        state.workloads.find_address(&at(v4(127, 0, 0, 1))),
        Some(Arc::new(workload("b")))
    );
}

#[test]
fn the_newest_workload_has_the_address() {
    let mut state = ProxyState::new(None);
    state.workloads.insert(Arc::new(workload("a")));
    state.workloads.insert(Arc::new(workload("b")));
    assert_eq!(
        state.workloads.find_address(&at(v4(127, 0, 0, 1))),
        Some(Arc::new(workload("b")))
    );
    // in another network it is another address
    let other = NetworkAddress { network: "n".to_string(), address: v4(127, 0, 0, 1) };
    assert_eq!(state.workloads.find_address(&other), None);
}

#[test]
fn an_address_is_a_workload_before_it_is_a_service() {
    let mut state = ProxyState::new(None);
    state.services.insert(Service {
        vips: vec![at(v4(127, 0, 0, 1)), at(v4(10, 0, 0, 1))],
        ..service("host")
    });
    let found = state.find_address(&at(v4(127, 0, 0, 1)));
    assert!(matches!(found, Some(Address::Service(_))));
    state.workloads.insert(Arc::new(workload("a")));
    assert_eq!(
        state.find_address(&at(v4(127, 0, 0, 1))),
        Some(Address::Workload(Arc::new(workload("a"))))
    );
    let found = state.find_destination(&Destination::Address(at(v4(10, 0, 0, 1))));
    assert!(matches!(found, Some(Address::Service(_))));
    assert_eq!(state.find_address(&at(v4(10, 0, 0, 2))), None);
}

#[test]
fn a_hostname_is_a_service_before_it_is_a_workload() {
    let mut state = ProxyState::new(None);
    state.workloads.insert(Arc::new(Workload { hostname: "host".to_string(), ..workload("a") }));
    let found = state.find_hostname(&name("default", "host"));
    assert!(matches!(found, Some(Address::Workload(_))));
    assert_eq!(state.find_hostname(&name("other", "host")), None);
    state.services.insert(service("host"));
    assert_eq!(
        state.find_destination(&Destination::Hostname(name("default", "host"))),
        Some(Address::Service(Arc::new(service("host"))))
    );
}

#[test]
fn an_upstream_is_a_service_before_it_is_a_workload() {
    let mut state = ProxyState::new(None);
    state.workloads.insert(Arc::new(workload("a")));
    let addr = SocketAddress::new(v4(127, 0, 0, 1), 80);
    let standard = ServiceResolutionMode::Standard;
    let source = workload("source");
    assert_eq!(
        state.find_upstream("".to_string(), &source, addr, standard),
        Some((Arc::new(workload("a")), 80, None))
    );
    assert_eq!(state.find_upstream("other".to_string(), &source, addr, standard), None);
    // the service has no such port, and the workload is not fallen back to
    state.services.insert(Service { vips: vec![at(v4(127, 0, 0, 1))], ..service("host") });
    assert_eq!(state.find_upstream("".to_string(), &source, addr, standard), None);
}

#[test]
fn services_are_found_by_hostname() {
    let mut state = ProxyState::new(None);
    state.services.insert(service("host"));
    state.services.insert(service("unrelated"));
    state.services.insert(Service { namespace: "other".to_string(), ..service("host") });
    let found = state.find_service_by_hostname(&"host".to_string()).unwrap();
    assert_eq!(found.len(), 2);
    assert_eq!(found[0].namespace, "default");
    assert_eq!(found[1].namespace, "other");
    assert_eq!(
        state.find_service_by_hostname(&"nothost".to_string()),
        Err(Error::NoHostname("nothost".to_string()))
    );
}

#[test]
fn inserted_service_replaces_the_one_with_its_name() {
    let mut state = ProxyState::new(None);
    state.services.insert(Service { vips: vec![at(v4(10, 0, 0, 1))], ..service("host") });
    state.services.insert(Service { vips: vec![at(v4(10, 0, 0, 2))], ..service("host") });
    assert_eq!(state.services.services.len(), 1);
    assert!(state.services.get_by_vip(&at(v4(10, 0, 0, 1))).is_none());
    assert!(state.services.get_by_vip(&at(v4(10, 0, 0, 2))).is_some());
    // a newer service takes an address over
    state.services.insert(Service { vips: vec![at(v4(10, 0, 0, 2))], ..service("newer") });
    assert_eq!(state.services.get_by_vip(&at(v4(10, 0, 0, 2))).unwrap().hostname, "newer");
}

#[test]
fn services_of_a_workload() {
    let mut state = ProxyState::new(None);
    state.services.insert(service("host"));
    let wl = Workload {
        services: vec![name("default", "unknown"), name("default", "host")],
        ..workload("a")
    };
    let demand = DemandProxyState::new(&state, false, 15008);
    let found = demand.get_services_by_workload(&wl);
    assert_eq!(found, vec![Arc::new(service("host"))]);
}

#[test]
fn workload_information() {
    let mut state = ProxyState::new(None);
    state.workloads.insert(Arc::new(workload("a")));
    let info = WorkloadInfo::new("a".to_string(), "default".to_string(), "default".to_string());
    assert!(info.matches(&workload("a")));
    assert!(!info.matches(&workload("b")));
    assert_eq!(info.display(), "default.default (a)");
    assert_eq!(info.clone(), info);
    let demand = DemandProxyState::new(&state, false, 15008);
    assert_eq!(demand.find_by_info(&info), Some(Arc::new(workload("a"))));
    let other = WorkloadInfo::new("a".to_string(), "default".to_string(), "other".to_string());
    assert_eq!(demand.find_by_info(&other), None);
}

#[test]
fn the_control_plane_is_asked_at_most_once() {
    let state = ProxyState::new(None);
    let demand = DemandProxyState::new(&state, true, 15008);
    assert!(demand.supports_on_demand());
    let addr = at(v4(127, 0, 0, 1));
    let host = name("default", "host");
    assert_eq!(
        demand.fetch_address(&addr, false),
        Fetch::Demand(DemandKey::Address(addr.clone()))
    );
    assert_eq!(demand.fetch_address(&addr, true), Fetch::Done(None));
    assert_eq!(
        demand.fetch_hostname(&host, false),
        Fetch::Demand(DemandKey::Hostname(host.clone()))
    );
    assert_eq!(demand.fetch_hostname(&host, true), Fetch::Done(None));
    assert_eq!(
        demand.fetch_workload_by_address(&addr, false),
        Fetch::Demand(DemandKey::Address(addr.clone()))
    );
    assert_eq!(demand.fetch_workload_by_address(&addr, true), Fetch::Done(None));
    assert_eq!(
        demand.fetch_workload_by_uid(&"a".to_string(), false),
        Fetch::Demand(DemandKey::Uid("a".to_string()))
    );
    assert_eq!(demand.fetch_workload_by_uid(&"a".to_string(), true), Fetch::Done(None));
    assert_eq!(
        demand.fetch_destination(&Destination::Hostname(host.clone()), false),
        Fetch::Demand(DemandKey::Hostname(host))
    );

    // nothing is asked for what is known, or where nobody can be asked
    let mut known = ProxyState::new(None);
    known.workloads.insert(Arc::new(workload("a")));
    let demand = DemandProxyState::new(&known, true, 15008);
    assert_eq!(
        demand.fetch_workload_by_uid(&"a".to_string(), false),
        Fetch::Done(Some(Arc::new(workload("a"))))
    );
    assert_eq!(
        demand.fetch_workload_by_address(&addr, false),
        Fetch::Done(Some(Arc::new(workload("a"))))
    );
    let demand = DemandProxyState::new(&state, false, 15008);
    assert!(!demand.supports_on_demand());
    assert_eq!(demand.fetch_address(&addr, false), Fetch::Done(None));
}

#[test]
fn the_state_is_shown_in_order() {
    let mut state = ProxyState::new(None);
    for uid in ["b", "a", "c", "aa", "B"] {
        state.workloads.insert(Arc::new(workload(uid)));
    }
    state.services.insert(Service { namespace: "z".to_string(), ..service("b") });
    state.services.insert(Service { namespace: "a".to_string(), ..service("b") });
    state.services.insert(service("a"));
    for key in ["y", "x"] {
        let policy = Authorization {
            name: key.to_string(),
            namespace: "default".to_string(),
            scope: RbacScope::Namespace,
            action: RbacAction::Allow,
            rules: vec![],
        };
        state.policies.insert(key.to_string(), policy);
    }
    state.services.staged_services.push(StagedService {
        name: name("default", "staged"),
        endpoints: EndpointSet::new(),
    });
    let shown = state.serializable();
    let uids: Vec<String> = shown.workloads.iter().map(|w| w.uid.clone()).collect();
    assert_eq!(uids, vec!["B", "a", "aa", "b", "c"]);
    let services: Vec<String> =
        shown.services.iter().map(|s| format!("{}/{}", s.hostname, s.namespace)).collect();
    assert_eq!(services, vec!["a/default", "b/z", "b/a"]);
    let policies: Vec<String> = shown.policies.iter().map(|p| p.policy.name.clone()).collect();
    assert_eq!(policies, vec!["x", "y"]);
    assert_eq!(shown.staged_services.len(), 1);
}

#[test]
fn a_set_has_one_endpoint_for_each_workload() {
    let endpoint = |uid: &str, port: u16| Endpoint {
        workload_uid: uid.to_string(),
        port: HashMap::from([(80, port)]),
        status: HealthStatus::Healthy,
    };
    let set = EndpointSet::from_list(vec![endpoint("a", 1), endpoint("b", 2), endpoint("a", 3)]);
    assert_eq!(set.inner.len(), 2);
    assert_eq!(set.inner[0].workload_uid, "b");
    assert_eq!(set.inner[1].workload_uid, "a");
    assert_eq!(set.inner[1].port.get(&80), Some(&3));
}

#[test]
fn states_that_are_alike_are_shown_alike() {
    let shown = |uids: Vec<&str>| {
        let mut state = ProxyState::new(None);
        for uid in uids.iter() {
            state.workloads.insert(Arc::new(workload(uid)));
            state.services.insert(service(uid));
        }
        let shown = state.serializable();
        let uids: Vec<String> = shown.workloads.iter().map(|w| w.uid.clone()).collect();
        let hosts: Vec<String> = shown.services.iter().map(|s| s.hostname.clone()).collect();
        (uids, hosts)
    };
    assert_eq!(shown(vec!["b", "a", "c"]), shown(vec!["c", "b", "a"]));
    assert_ne!(shown(vec!["b", "a", "c"]), shown(vec!["c", "b"]));
}
