use std::collections::HashMap;
use std::sync::Arc;

use proxy_state::address::{
    Destination, IpAddress, NamespacedHostname, NetworkAddress, SocketAddress,
};
use proxy_state::demand::{DemandProxyState, Fetch, ProxyRbacContext, Wait, WaitEvent};
use proxy_state::error::AuthorizationRejectionError;
use proxy_state::identity::Identity;
use proxy_state::rbac::{
    Authorization, Connection, RbacAction, RbacMatch, RbacScope, StringMatch,
};
use proxy_state::service::{
    Endpoint, EndpointSet, LoadBalancer, LoadBalancerHealthPolicy, LoadBalancerMode,
    LoadBalancerScopes, Service, Waypoints,
};
use proxy_state::state::{Address, ProxyState, ServiceResolutionMode};
use proxy_state::workload::{
    ApplicationTunnel, HealthStatus, InboundProtocol, Locality, TunnelProtocol, Workload,
    WorkloadInfo,
};

fn v4(a: u8, b: u8, c: u8, d: u8) -> IpAddress {
    IpAddress::V4(u32::from_be_bytes([a, b, c, d]))
}

fn test_default_workload() -> Workload {
    Workload {
        name: "default".to_string(),
        namespace: "default".to_string(),
        trust_domain: "cluster.local".to_string(),
        service_account: "default".to_string(),
        uid: "cluster1//v1/Pod/default/default".to_string(),
        cluster_id: "Kubernetes".to_string(),
        network: "".to_string(),
        node: "node".to_string(),
        hostname: "".to_string(),
        locality: Locality::default(),
        workload_ips: vec![v4(127, 0, 0, 1)],
        network_gateway: None,
        waypoint: None,
        application_tunnel: None,
        protocol: InboundProtocol::TCP,
        capacity: 1,
        authorization_policies: vec![],
        services: vec![],
        status: HealthStatus::Healthy,
    }
}

fn mock_default_service() -> Service {
    Service {
        name: "default".to_string(),
        hostname: "defaulthost".to_string(),
        namespace: "default".to_string(),
        vips: vec![],
        ports: HashMap::new(),
        endpoints: EndpointSet::new(),
        subject_alt_names: vec![],
        waypoint: None,
        waypoints: Waypoints::new(),
        load_balancer: None,
        ip_families: None,
    }
}

fn demand(state: &ProxyState) -> DemandProxyState<'_> {
    DemandProxyState::new(state, false, 15008)
}

fn info_of(wl: &Workload) -> WorkloadInfo {
    WorkloadInfo {
        name: wl.name.to_string(),
        namespace: wl.namespace.to_string(),
        service_account: wl.service_account.to_string(),
    }
}

#[test]
fn test_wait_for_workload() {
    let mut state = ProxyState::new(None);
    let delayed_wl = Arc::new(test_default_workload());
    state.workloads.insert(delayed_wl.clone());
    let mock_proxy_state = demand(&state);
    let want = info_of(&delayed_wl);
    assert_eq!(
        mock_proxy_state.wait_for_workload(&want, WaitEvent::Started),
        Wait::Done(Some(delayed_wl))
    );
}

#[test]
fn test_wait_for_workload_delay_fails() {
    let state = ProxyState::new(None);
    let mock_proxy_state = demand(&state);
    let want = WorkloadInfo {
        name: "fake".to_string(),
        namespace: "fake".to_string(),
        service_account: "fake".to_string(),
    };
    assert_eq!(mock_proxy_state.wait_for_workload(&want, WaitEvent::Started), Wait::Continue);
    assert_eq!(mock_proxy_state.wait_for_workload(&want, WaitEvent::TimedOut), Wait::Done(None));
}

#[test]
fn test_wait_for_workload_eventually() {
    let mut state = ProxyState::new(None);
    let not_delayed_wl = Arc::new(Workload {
        workload_ips: vec![v4(1, 2, 3, 4)],
        uid: "uid".to_string(),
        name: "n".to_string(),
        namespace: "ns".to_string(),
        ..test_default_workload()
    });
    let delayed_wl = Arc::new(test_default_workload());
    let want = info_of(&delayed_wl);
    assert_eq!(demand(&state).wait_for_workload(&want, WaitEvent::Started), Wait::Continue);
    // Send the wrong workload through
    state.workloads.insert(not_delayed_wl);
    assert_eq!(demand(&state).wait_for_workload(&want, WaitEvent::Changed), Wait::Continue);
    // Send the correct workload through
    state.workloads.insert(delayed_wl.clone());
    assert_eq!(
        demand(&state).wait_for_workload(&want, WaitEvent::Changed),
        Wait::Done(Some(delayed_wl))
    );
}

#[test]
fn lookup_address() {
    let mut state = ProxyState::new(None);
    state.workloads.insert(Arc::new(test_default_workload()));
    state.services.insert(mock_default_service());
    let mock_proxy_state = demand(&state);

    // Some from Address
    let dst = Destination::Address(NetworkAddress {
        network: "".to_string(),
        address: v4(127, 0, 0, 1),
    });
    assert_eq!(
        mock_proxy_state.fetch_destination(&dst, false),
        Fetch::Done(Some(Address::Workload(Arc::new(test_default_workload()))))
    );

    // Some from Hostname
    let dst = Destination::Hostname(NamespacedHostname {
        namespace: "default".to_string(),
        hostname: "defaulthost".to_string(),
    });
    assert_eq!(
        mock_proxy_state.fetch_destination(&dst, false),
        Fetch::Done(Some(Address::Service(Arc::new(mock_default_service()))))
    );

    // None from Address
    let dst = Destination::Address(NetworkAddress {
        network: "".to_string(),
        address: v4(127, 0, 0, 2),
    });
    assert_eq!(mock_proxy_state.fetch_destination(&dst, false), Fetch::Done(None));

    // None from Hostname
    let dst = Destination::Hostname(NamespacedHostname {
        namespace: "default".to_string(),
        hostname: "nothost".to_string(),
    });
    assert_eq!(mock_proxy_state.fetch_destination(&dst, false), Fetch::Done(None));
}

#[derive(Clone, Copy)]
enum PortMappingTestCase {
    EndpointMapping,
    ServiceMapping,
    AppTunnel,
}

impl PortMappingTestCase {
    fn service_mapping(&self) -> HashMap<u16, u16> {
        if let PortMappingTestCase::ServiceMapping = self {
            return HashMap::from([(80, 8080)]);
        }
        HashMap::from([(80, 0)])
    }

    fn endpoint_mapping(&self) -> HashMap<u16, u16> {
        if let PortMappingTestCase::EndpointMapping = self {
            return HashMap::from([(80, 9090)]);
        }
        HashMap::from([])
    }

    fn app_tunnel(&self) -> Option<ApplicationTunnel> {
        if let PortMappingTestCase::AppTunnel = self {
            return Some(ApplicationTunnel {
                protocol: TunnelProtocol::PROXY,
                port: Some(15088),
            });
        }
        None
    }

    fn expected_port(&self) -> u16 {
        match self {
            PortMappingTestCase::ServiceMapping => 8080,
            PortMappingTestCase::EndpointMapping => 9090,
            _ => 80,
        }
    }
}

#[test]
fn find_upstream_port_mappings() {
    for tc in [
        PortMappingTestCase::EndpointMapping,
        PortMappingTestCase::ServiceMapping,
        PortMappingTestCase::AppTunnel,
    ] {
        let wl = Arc::new(Workload {
            uid: "cluster1//v1/Pod/default/ep_no_port_mapping".to_string(),
            name: "ep_no_port_mapping".to_string(),
            namespace: "default".to_string(),
            workload_ips: vec![v4(192, 168, 0, 1)],
            application_tunnel: tc.app_tunnel(),
            ..test_default_workload()
        });
        let svc = Service {
            name: "test-svc".to_string(),
            hostname: "example.com".to_string(),
            namespace: "default".to_string(),
            vips: vec![NetworkAddress {
                address: v4(10, 0, 0, 1),
                network: "".to_string(),
            }],
            endpoints: EndpointSet::from_list(vec![Endpoint {
                workload_uid: "cluster1//v1/Pod/default/ep_no_port_mapping".to_string(),
                port: tc.endpoint_mapping(),
                status: HealthStatus::Healthy,
            }]),
            ports: tc.service_mapping(),
            ..mock_default_service()
        };

        let mut state = ProxyState::new(None);
        state.workloads.insert(wl.clone());
        state.services.insert(svc);

        let mode = match tc {
            PortMappingTestCase::AppTunnel => ServiceResolutionMode::Waypoint,
            _ => ServiceResolutionMode::Standard,
        };

        let addr = SocketAddress::new(v4(10, 0, 0, 1), 80);
        let (_, port, _) = state
            .find_upstream("".to_string(), &wl, addr, mode)
            .expect("upstream to be found");
        assert_eq!(port, tc.expected_port());
    }
}

fn create_workload(dest_uid: u8) -> Workload {
    Workload {
        name: "test".to_string(),
        namespace: format!("ns{dest_uid}"),
        trust_domain: "cluster.local".to_string(),
        service_account: "defaultacct".to_string(),
        workload_ips: vec![v4(192, 168, 0, dest_uid)],
        uid: format!("{dest_uid}"),
        ..test_default_workload()
    }
}

fn get_workload(state: &DemandProxyState, dest_uid: u8) -> Arc<Workload> {
    state.read().workloads.find_uid(&format!("{dest_uid}")).unwrap()
}

fn get_rbac_context(
    state: &DemandProxyState,
    dest_uid: u8,
    src_svc_acct: &str,
) -> ProxyRbacContext {
    let workload = get_workload(state, dest_uid);
    ProxyRbacContext {
        conn: Connection {
            src_identity: Some(Identity::Spiffe {
                trust_domain: "cluster.local".to_string(),
                namespace: "default".to_string(),
                service_account: src_svc_acct.to_string(),
            }),
            src: SocketAddress::new(v4(192, 168, 1, 1), 1234),
            dst_network: "".to_string(),
            dst: SocketAddress::new(workload.workload_ips[0], 8080),
        },
        dest_workload: workload,
    }
}

// 1. If there are any CUSTOM policies that match the request, evaluate and deny the request if the evaluation result is deny.
//    There are none here.
// 2. If there are any DENY policies that match the request, deny the request.
// 3. If there are no ALLOW policies for the workload, allow the request.
// 4. If any of the ALLOW policies match the request, allow the request.
// 5. Deny the request.
#[test]
fn assert_rbac_logic_deny_allow() {
    let mut state = ProxyState::new(None);
    state.workloads.insert(Arc::new(create_workload(1)));
    state.workloads.insert(Arc::new(create_workload(2)));
    state.policies.insert(
        "allow".to_string(),
        Authorization {
            action: RbacAction::Allow,
            namespace: "ns1".to_string(),
            name: "foo".to_string(),
            rules: vec![
                // rule1:
                vec![
                    // from:
                    vec![RbacMatch {
                        principals: vec![StringMatch::Exact(
                            "cluster.local/ns/default/sa/defaultacct".to_string(),
                        )],
                        ..Default::default()
                    }],
                ],
            ],
            scope: RbacScope::Namespace,
        },
    );
    state.policies.insert(
        "deny".to_string(),
        Authorization {
            action: RbacAction::Deny,
            namespace: "ns1".to_string(),
            name: "deny".to_string(),
            rules: vec![
                // rule1:
                vec![
                    // from:
                    vec![RbacMatch {
                        principals: vec![StringMatch::Exact(
                            "cluster.local/ns/default/sa/denyacct".to_string(),
                        )],
                        ..Default::default()
                    }],
                ],
            ],
            scope: RbacScope::Namespace,
        },
    );

    let mock_proxy_state = demand(&state);

    // ns2 doesn't have any policies. this tests:
    // 3. If there are no ALLOW policies for the workload, allow the request.
    assert!(mock_proxy_state
        .assert_rbac(&get_rbac_context(&mock_proxy_state, 2, "not-defaultacct"))
        .is_ok());

    let ctx = get_rbac_context(&mock_proxy_state, 1, "defaultacct");
    // 4. if any allow policies match, allow
    assert!(mock_proxy_state.assert_rbac(&ctx).is_ok());

    {
        // a src workload with unknown svc account. this should fail as there are allow policies,
        // but they don't match.
        // 5. deny the request
        let mut ctx = ctx.clone();
        ctx.conn.src_identity = Some(Identity::Spiffe {
            trust_domain: "cluster.local".to_string(),
            namespace: "default".to_string(),
            service_account: "not-defaultacct".to_string(),
        });

        assert_eq!(
            mock_proxy_state.assert_rbac(&ctx).err().unwrap(),
            AuthorizationRejectionError::NotAllowed
        );
    }
    {
        let mut ctx = ctx.clone();
        ctx.conn.src_identity = Some(Identity::Spiffe {
            trust_domain: "cluster.local".to_string(),
            namespace: "default".to_string(),
            service_account: "denyacct".to_string(),
        });

        // 2. If there are any DENY policies that match the request, deny the request.
        assert_eq!(
            mock_proxy_state.assert_rbac(&ctx).err().unwrap(),
            AuthorizationRejectionError::ExplicitlyDenied("ns1".to_string(), "deny".to_string())
        );
    }
}

#[test]
fn assert_rbac_with_dest_workload_info() {
    let mut state = ProxyState::new(None);
    state.workloads.insert(Arc::new(create_workload(1)));

    let mock_proxy_state = demand(&state);

    let ctx = get_rbac_context(&mock_proxy_state, 1, "defaultacct");
    assert!(mock_proxy_state.assert_rbac(&ctx).is_ok());
}

fn endpoint(uid: &str) -> Endpoint {
    Endpoint {
        workload_uid: uid.to_string(),
        port: HashMap::from([(80u16, 80u16)]),
        status: HealthStatus::Healthy,
    }
}

fn balanced_service(mode: LoadBalancerMode) -> Service {
    Service {
        endpoints: EndpointSet::from_list(vec![
            endpoint("cluster1//v1/Pod/default/ep_almost"),
            endpoint("cluster1//v1/Pod/default/ep_no_match"),
            endpoint("cluster1//v1/Pod/default/wl_match"),
            endpoint("cluster1//v1/Pod/default/wl_empty_ip"),
        ]),
        load_balancer: Some(LoadBalancer {
            mode,
            routing_preferences: vec![
                LoadBalancerScopes::Network,
                LoadBalancerScopes::Region,
                LoadBalancerScopes::Zone,
            ],
            health_policy: LoadBalancerHealthPolicy::OnlyHealthy,
        }),
        ports: HashMap::from([(80u16, 80u16)]),
        ..mock_default_service()
    }
}

#[test]
fn test_load_balance() {
    let mut state = ProxyState::new(None);
    let wl_no_locality = Arc::new(Workload {
        uid: "cluster1//v1/Pod/default/wl_no_locality".to_string(),
        name: "wl_no_locality".to_string(),
        namespace: "default".to_string(),
        trust_domain: "cluster.local".to_string(),
        service_account: "default".to_string(),
        workload_ips: vec![v4(192, 168, 0, 1)],
        ..test_default_workload()
    });
    let wl_match = Arc::new(Workload {
        uid: "cluster1//v1/Pod/default/wl_match".to_string(),
        name: "wl_match".to_string(),
        namespace: "default".to_string(),
        trust_domain: "cluster.local".to_string(),
        service_account: "default".to_string(),
        workload_ips: vec![v4(192, 168, 0, 2)],
        network: "network".to_string(),
        locality: Locality {
            region: "reg".to_string(),
            zone: "zone".to_string(),
            subzone: "".to_string(),
        },
        ..test_default_workload()
    });
    let wl_almost = Arc::new(Workload {
        uid: "cluster1//v1/Pod/default/wl_almost".to_string(),
        name: "wl_almost".to_string(),
        namespace: "default".to_string(),
        trust_domain: "cluster.local".to_string(),
        service_account: "default".to_string(),
        workload_ips: vec![v4(192, 168, 0, 3)],
        network: "network".to_string(),
        locality: Locality {
            region: "reg".to_string(),
            zone: "not-zone".to_string(),
            subzone: "".to_string(),
        },
        ..test_default_workload()
    });
    let wl_empty_ip = Arc::new(Workload {
        uid: "cluster1//v1/Pod/default/wl_empty_ip".to_string(),
        name: "wl_empty_ip".to_string(),
        namespace: "default".to_string(),
        trust_domain: "cluster.local".to_string(),
        service_account: "default".to_string(),
        workload_ips: vec![], // none!
        network: "network".to_string(),
        locality: Locality {
            region: "reg".to_string(),
            zone: "zone".to_string(),
            subzone: "".to_string(),
        },
        ..test_default_workload()
    });
    let strict_svc = balanced_service(LoadBalancerMode::Strict);
    let failover_svc = balanced_service(LoadBalancerMode::Failover);
    state.workloads.insert(wl_no_locality.clone());
    state.workloads.insert(wl_match.clone());
    state.workloads.insert(wl_almost.clone());
    state.workloads.insert(wl_empty_ip.clone());
    state.services.insert(balanced_service(LoadBalancerMode::Strict));
    state.services.insert(balanced_service(LoadBalancerMode::Failover));

    let assert_endpoint = |src: &Workload, svc: &Service, workloads: Vec<&str>, desc: &str| {
        let got = state
            .load_balance(src, svc, 80, ServiceResolutionMode::Standard)
            .map(|(ep, _)| ep.workload_uid.to_string());
        if workloads.is_empty() {
            assert!(got.is_none(), "{}", desc);
        } else {
            let want: Vec<String> = workloads.iter().map(ToString::to_string).collect();
            assert!(want.contains(&got.unwrap()), "{}", desc);
        }
    };
    let assert_not_endpoint =
        |src: &Workload, svc: &Service, uid: &str, tries: usize, desc: &str| {
            for _ in 0..tries {
                let got = state
                    .load_balance(src, svc, 80, ServiceResolutionMode::Standard)
                    .map(|(ep, _)| ep.workload_uid.clone());
                assert!(got != Some(uid.to_string()), "{}", desc);
            }
        };

    assert_endpoint(
        &wl_no_locality,
        &strict_svc,
        vec![],
        "strict no match should not select",
    );
    assert_endpoint(
        &wl_almost,
        &strict_svc,
        vec![],
        "strict no match should not select",
    );
    assert_endpoint(
        &wl_match,
        &strict_svc,
        vec!["cluster1//v1/Pod/default/wl_match"],
        "strict match",
    );

    assert_endpoint(
        &wl_no_locality,
        &failover_svc,
        vec![
            "cluster1//v1/Pod/default/ep_almost",
            "cluster1//v1/Pod/default/ep_no_match",
            "cluster1//v1/Pod/default/wl_match",
        ],
        "failover no match can select any endpoint",
    );
    assert_endpoint(
        &wl_almost,
        &failover_svc,
        vec![
            "cluster1//v1/Pod/default/ep_almost",
            "cluster1//v1/Pod/default/wl_match",
        ],
        "failover almost match can select any close matches",
    );
    assert_endpoint(
        &wl_match,
        &failover_svc,
        vec!["cluster1//v1/Pod/default/wl_match"],
        "failover full match selects closest match",
    );
    assert_not_endpoint(
        &wl_no_locality,
        &failover_svc,
        "cluster1//v1/Pod/default/wl_empty_ip",
        10,
        "failover no match can select any endpoint",
    );
}
