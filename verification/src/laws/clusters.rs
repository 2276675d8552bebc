//! Which candidates a service has in clusters with and without waypoints.

use std::sync::Arc;

use vstd::prelude::*;

use crate::address::{Destination, GatewayAddress, SocketAddress};
use crate::demand::DemandProxyState;
use crate::error::Error;
use crate::multicluster::ServiceSearch;
use crate::picker::Candidate;
use crate::resolve::Resolution;
use crate::service::{ClusterWaypoint, Service};
use crate::state::{Address, ProxyState, ServiceResolutionMode};
use crate::workload::Workload;

verus! {

broadcast use vstd::std_specs::hash::group_hash_axioms;

/// Both gateways have the same address or the same hostname, and the same port.
pub open spec fn same_gateway(g: GatewayAddress, h: GatewayAddress) -> bool {
    &&& g.hbone_mtls_port == h.hbone_mtls_port
    &&& match g.destination {
        Destination::Address(a) => h.destination matches Destination::Address(b) && a.network@
            == b.network@ && a.address == b.address,
        Destination::Hostname(a) => h.destination matches Destination::Hostname(b) && a.namespace@
            == b.namespace@ && a.hostname@ == b.hostname@,
    }
}

/// Gateways are told apart by their address or hostname, and by their port.
pub proof fn law_same_gateway(g: GatewayAddress, h: GatewayAddress)
    ensures
        g.same(h) <==> same_gateway(g, h),
{
}

/// The waypoint of the service in this cluster is the one at this gateway.
pub open spec fn configured(service: &Service, cluster: Seq<char>, gateway: GatewayAddress) -> bool {
    exists|j: int|
        0 <= j < service.waypoints.inner@.len() && (
        #[trigger] service.waypoints.inner@[j]).cluster_id@ == cluster && same_gateway(
            service.waypoints.inner@[j].gateway,
            gateway,
        )
}

/// The service has no waypoint in this cluster.
pub open spec fn without_waypoint(service: &Service, cluster: Seq<char>) -> bool {
    forall|j: int|
        0 <= j < service.waypoints.inner@.len() ==> (
        #[trigger] service.waypoints.inner@[j]).cluster_id@ != cluster
}

/// The workload of the endpoint is known, and can be connected to.
pub open spec fn available(state: ProxyState, source: &Workload, c: Candidate) -> bool {
    &&& state.workloads.workloads@.contains(c.workload)
    &&& c.workload.uid@ == c.endpoint.workload_uid@
    &&& crate::laws::balancing::connectable(source, &c.workload)
}

/// The candidate is an endpoint of the service, in a cluster without a waypoint,
/// that is considered for the port, and goes to the port it should.
pub open spec fn is_direct(
    state: ProxyState,
    source: &Workload,
    service: &Service,
    port: u16,
    c: Candidate,
) -> bool {
    &&& service.endpoints.inner@.contains(c.endpoint)
    &&& available(state, source, c)
    &&& without_waypoint(service, c.workload.cluster_id@)
    &&& crate::laws::balancing::considered(
        ServiceResolutionMode::Standard,
        &c.endpoint,
        &c.workload,
        service,
        port,
    )
    &&& crate::laws::balancing::goes_to(&c.endpoint, &c.workload, service, port, c.port)
    &&& c.waypoint is None
}

/// The candidate is an endpoint of the waypoint, in a cluster for which this
/// gateway is configured, that is considered for the HBONE port, and goes to the
/// port it should.
pub open spec fn is_through(
    state: ProxyState,
    source: &Workload,
    service: &Service,
    gateway: GatewayAddress,
    waypoint: Arc<Service>,
    c: Candidate,
) -> bool {
    &&& waypoint.endpoints.inner@.contains(c.endpoint)
    &&& available(state, source, c)
    &&& configured(service, c.workload.cluster_id@, gateway)
    &&& waypoint.ports@.contains_key(gateway.hbone_mtls_port)
        || c.workload.application_tunnel is Some
    &&& crate::laws::balancing::goes_to(
        &c.endpoint,
        &c.workload,
        &waypoint,
        gateway.hbone_mtls_port,
        c.port,
    )
    &&& c.waypoint == Some(waypoint)
}

proof fn lemma_without_waypoint(service: &Service, cluster: Seq<char>)
    ensures
        service.waypoints.in_cluster(cluster) is None <==> without_waypoint(service, cluster),
{
    crate::laws::lookup::law_cluster(service.waypoints, cluster);
    if service.waypoints.in_cluster(cluster) is Some {
        let i = choose|i: int|
            0 <= i < service.waypoints.inner@.len() && (
            #[trigger] service.waypoints.inner@[i]).cluster_id@ == cluster
                && service.waypoints.inner@[i].gateway == service.waypoints.in_cluster(cluster)->0;
        assert(!without_waypoint(service, cluster));
    }
}

proof fn lemma_configured(service: &Service, cluster: Seq<char>, gateway: GatewayAddress)
    requires
        service.waypoints.wf(),
    ensures
        (service.waypoints.in_cluster(cluster) matches Some(g) && g.same(gateway)) <==> configured(
            service,
            cluster,
            gateway,
        ),
{
    crate::laws::lookup::law_cluster(service.waypoints, cluster);
    let all = service.waypoints.inner@;
    if service.waypoints.in_cluster(cluster) is Some {
        let g = service.waypoints.in_cluster(cluster)->0;
        let i = choose|i: int|
            0 <= i < all.len() && (#[trigger] all[i]).cluster_id@ == cluster && all[i].gateway == g;
        if configured(service, cluster, gateway) {
            let j = choose|j: int|
                0 <= j < all.len() && (#[trigger] all[j]).cluster_id@ == cluster && same_gateway(
                    all[j].gateway,
                    gateway,
                );
            assert(i == j);
        }
        if g.same(gateway) {
            assert(same_gateway(all[i].gateway, gateway));
        }
    }
}

proof fn lemma_available(state: ProxyState, c: Candidate)
    requires
        state.workloads.wf(),
    ensures
        state.workloads.by_uid(c.endpoint.workload_uid@) == Some(c.workload) <==> (
        state.workloads.workloads@.contains(c.workload) && c.workload.uid@
            == c.endpoint.workload_uid@),
{
    crate::laws::lookup::law_uid(state.workloads, c.endpoint.workload_uid@);
    if state.workloads.workloads@.contains(c.workload) {
        let k = choose|k: int|
            0 <= k < state.workloads.workloads@.len() && state.workloads.workloads@[k]
                == c.workload;
        assert(state.workloads.workloads@[k].uid@ == c.workload.uid@);
    }
}

/// The candidates of the service itself are exactly its endpoints that are known,
/// can be connected to, are in a cluster without a waypoint, and have a port.
pub proof fn law_direct(
    state: ProxyState,
    source: Workload,
    service: &Service,
    port: u16,
    c: Candidate,
)
    requires
        state.workloads.wf(),
    ensures
        crate::multicluster::direct_candidates(state, source, *service, port).contains(c)
            <==> is_direct(state, &source, service, port, c),
{
    let f = crate::multicluster::direct_candidate(state, source, *service, port);
    let endpoints = service.endpoints.inner@;
    lemma_available(state, c);
    lemma_without_waypoint(service, c.workload.cluster_id@);
    if crate::multicluster::direct_candidates(state, source, *service, port).contains(c) {
        endpoints.lemma_filter_map_contains(f, c);
    }
    if is_direct(state, &source, service, port, c) {
        let i = choose|i: int| 0 <= i < endpoints.len() && endpoints[i] == c.endpoint;
        assert(f(endpoints[i]) == Some(c));
        crate::search::lemma_filter_map_has(endpoints, f, i);
    }
}

/// The candidates of a waypoint are exactly its endpoints that are known, can be
/// connected to, are in a cluster for which it is configured, and have a port.
pub proof fn law_through(
    state: ProxyState,
    source: Workload,
    service: &Service,
    gateway: GatewayAddress,
    waypoint: Arc<Service>,
    c: Candidate,
)
    requires
        state.workloads.wf(),
        service.waypoints.wf(),
    ensures
        crate::multicluster::waypoint_candidates(
            state,
            source,
            *service,
            gateway,
            Some(Address::Service(waypoint)),
        ).contains(c) <==> is_through(state, &source, service, gateway, waypoint, c),
{
    let f = crate::multicluster::waypoint_candidate(state, source, *service, gateway, waypoint);
    let endpoints = waypoint.endpoints.inner@;
    lemma_available(state, c);
    lemma_configured(service, c.workload.cluster_id@, gateway);
    if crate::multicluster::waypoint_candidates(
        state,
        source,
        *service,
        gateway,
        Some(Address::Service(waypoint)),
    ).contains(c) {
        endpoints.lemma_filter_map_contains(f, c);
    }
    if is_through(state, &source, service, gateway, waypoint, c) {
        let i = choose|i: int| 0 <= i < endpoints.len() && endpoints[i] == c.endpoint;
        assert(f(endpoints[i]) == Some(c));
        crate::search::lemma_filter_map_has(endpoints, f, i);
    }
}

/// Only services are waypoints: what is no service gives no candidates.
pub proof fn law_no_service(
    state: ProxyState,
    source: Workload,
    service: Service,
    gateway: GatewayAddress,
    fetched: Option<Address>,
)
    requires
        !(fetched matches Some(Address::Service(_))),
    ensures
        crate::multicluster::waypoint_candidates(state, source, service, gateway, fetched).len()
            == 0,
{
}

/// One of the gateways is this one.
pub open spec fn is_among(gs: Seq<GatewayAddress>, g: GatewayAddress) -> bool {
    exists|j: int| 0 <= j < gs.len() && same_gateway(#[trigger] gs[j], g)
}

/// Each gateway that is configured in some cluster is looked at once, and no
/// other one is.
pub proof fn law_gateways(ws: Seq<ClusterWaypoint>)
    ensures
        ({
            let gs = crate::multicluster::gateways_of(ws);
            &&& forall|i: int| 0 <= i < ws.len() ==> is_among(gs, (#[trigger] ws[i]).gateway)
            &&& forall|i: int, j: int|
                0 <= i < j < gs.len() ==> !same_gateway(#[trigger] gs[i], #[trigger] gs[j])
            &&& forall|j: int|
                0 <= j < gs.len() ==> exists|i: int|
                    0 <= i < ws.len() && (#[trigger] ws[i]).gateway == #[trigger] gs[j]
        }),
{
    let gs = crate::multicluster::gateways_of(ws);
    crate::multicluster::lemma_gateways(ws);
    assert forall|i: int| 0 <= i < ws.len() implies is_among(gs, (#[trigger] ws[i]).gateway) by {
        assert(crate::multicluster::has_gateway(gs, ws[i].gateway));
        let j = choose|j: int| 0 <= j < gs.len() && (#[trigger] gs[j]).same(ws[i].gateway);
        law_same_gateway(gs[j], ws[i].gateway);
        assert(same_gateway(gs[j], ws[i].gateway));
    }
    assert forall|i: int, j: int| 0 <= i < j < gs.len() implies !same_gateway(
        #[trigger] gs[i],
        #[trigger] gs[j],
    ) by {
        assert(!gs[i].same(gs[j]));
        law_same_gateway(gs[i], gs[j]);
    }
}

/// Every gateway's candidates are among those of all gateways, and no others.
proof fn lemma_of_gateways(
    state: ProxyState,
    source: Workload,
    service: Service,
    gateways: Seq<GatewayAddress>,
    c: Candidate,
)
    ensures
        crate::multicluster::gateway_candidates(state, source, service, gateways).contains(c)
            <==> exists|i: int|
            0 <= i < gateways.len() && crate::multicluster::waypoint_candidates(
                state,
                source,
                service,
                #[trigger] gateways[i],
                state.at_destination(gateways[i].destination),
            ).contains(c),
    decreases gateways.len(),
{
    if gateways.len() > 0 {
        let end = gateways.len() - 1;
        let rest = gateways.drop_last();
        let a = crate::multicluster::gateway_candidates(state, source, service, rest);
        let b = crate::multicluster::waypoint_candidates(
            state,
            source,
            service,
            gateways[end],
            state.at_destination(gateways[end].destination),
        );
        lemma_of_gateways(state, source, service, rest, c);
        crate::search::lemma_add_contains(a, b, c);
        assert forall|i: int| 0 <= i < rest.len() implies #[trigger] rest[i] == gateways[i] by {}
        if exists|i: int|
            0 <= i < rest.len() && crate::multicluster::waypoint_candidates(
                state,
                source,
                service,
                #[trigger] rest[i],
                state.at_destination(rest[i].destination),
            ).contains(c) {
            let i = choose|i: int|
                0 <= i < rest.len() && crate::multicluster::waypoint_candidates(
                    state,
                    source,
                    service,
                    #[trigger] rest[i],
                    state.at_destination(rest[i].destination),
                ).contains(c);
            assert(gateways[i] == rest[i]);
        }
        if exists|i: int|
            0 <= i < gateways.len() && crate::multicluster::waypoint_candidates(
                state,
                source,
                service,
                #[trigger] gateways[i],
                state.at_destination(gateways[i].destination),
            ).contains(c) {
            let i = choose|i: int|
                0 <= i < gateways.len() && crate::multicluster::waypoint_candidates(
                    state,
                    source,
                    service,
                    #[trigger] gateways[i],
                    state.at_destination(gateways[i].destination),
                ).contains(c);
            if i < end {
                assert(rest[i] == gateways[i]);
            }
        }
    }
}

/// The candidates of a service are exactly its own in the clusters without a
/// waypoint, and those of its waypoints in the clusters with one.
pub proof fn law_service_candidates(
    state: ProxyState,
    source: Workload,
    service: &Service,
    port: u16,
    c: Candidate,
)
    requires
        state.workloads.wf(),
        service.waypoints.wf(),
    ensures
        ({
            let gateways = crate::multicluster::gateways_of(service.waypoints.inner@);
            crate::multicluster::service_candidates(state, source, *service, port).contains(c) <==> {
                ||| is_direct(state, &source, service, port, c)
                ||| exists|i: int|
                    0 <= i < gateways.len() && (state.at_destination(
                        (#[trigger] gateways[i]).destination,
                    ) matches Some(Address::Service(waypoint)) && is_through(
                        state,
                        &source,
                        service,
                        gateways[i],
                        waypoint,
                        c,
                    ))
            }
        }),
{
    let gateways = crate::multicluster::gateways_of(service.waypoints.inner@);
    let a = crate::multicluster::direct_candidates(state, source, *service, port);
    let b = crate::multicluster::gateway_candidates(state, source, *service, gateways);
    law_direct(state, source, service, port, c);
    lemma_of_gateways(state, source, *service, gateways, c);
    assert forall|i: int| 0 <= i < gateways.len() implies (
    crate::multicluster::waypoint_candidates(
        state,
        source,
        *service,
        #[trigger] gateways[i],
        state.at_destination(gateways[i].destination),
    ).contains(c) <==> (state.at_destination(gateways[i].destination) matches Some(
        Address::Service(waypoint),
    ) && is_through(state, &source, service, gateways[i], waypoint, c))) by {
        let fetched = state.at_destination(gateways[i].destination);
        if fetched is Some && fetched->0 is Service {
            law_through(state, source, service, gateways[i], fetched->0->Service_0, c);
        }
    }
    crate::search::lemma_add_contains(a, b, c);
}

/// A search begins with the endpoints of the service in clusters without a
/// waypoint, and no others, before any gateway.
pub proof fn law_begun(
    demand: DemandProxyState,
    service: Arc<Service>,
    source: Workload,
    target: SocketAddress,
    r: ServiceSearch,
    c: Candidate,
)
    requires
        demand.state.workloads.wf(),
        demand.begins(service, source, target, r),
    ensures
        r.picker.offered@.contains(c) <==> is_direct(
            *demand.state,
            &source,
            &service,
            target.port,
            c,
        ),
        r.next == 0,
        r.target == target,
        *r.service == service,
        r.gateways@ == crate::multicluster::gateways_of(service.waypoints.inner@),
{
    law_direct(*demand.state, source, &service, target.port, c);
}

/// A step of a search adds the endpoints of the service at the gateway that comes
/// next, in clusters for which that gateway is configured, and no others; and
/// nothing where no service is there.
pub proof fn law_added(
    demand: DemandProxyState,
    s: ServiceSearch,
    fetched: Option<Address>,
    r: ServiceSearch,
    c: Candidate,
)
    requires
        demand.state.workloads.wf(),
        s.service.waypoints.wf(),
        demand.adds(s, fetched, r),
    ensures
        r.picker.offered@.contains(c) <==> s.picker.offered@.contains(c) || (fetched matches Some(
            Address::Service(waypoint),
        ) && is_through(
            *demand.state,
            s.picker.source_workload,
            s.service,
            s.gateways@[s.next as int],
            waypoint,
            c,
        )),
        r.next == s.next + 1,
        r.target == s.target,
        r.service == s.service,
{
    let gateway = s.gateways@[s.next as int];
    let a = s.picker.offered@;
    let b = lemma_added(
        *demand.state,
        s.picker.source_workload,
        s.service,
        gateway,
        fetched,
        c,
    );
    crate::search::lemma_add_contains(a, b, c);
}

proof fn lemma_added(
    state: ProxyState,
    source: &Workload,
    service: &Service,
    gateway: GatewayAddress,
    fetched: Option<Address>,
    c: Candidate,
) -> (b: Seq<Candidate>)
    requires
        state.workloads.wf(),
        service.waypoints.wf(),
    ensures
        b == crate::multicluster::waypoint_candidates(state, *source, *service, gateway, fetched),
        b.contains(c) <==> (fetched matches Some(Address::Service(waypoint)) && is_through(
            state,
            source,
            service,
            gateway,
            waypoint,
            c,
        )),
{
    if fetched is Some && fetched->0 is Service {
        law_through(state, *source, service, gateway, fetched->0->Service_0, c);
    }
    crate::multicluster::waypoint_candidates(state, *source, *service, gateway, fetched)
}

/// A search ends with what may be picked among the candidates that were offered.
/// A candidate becomes an upstream for the target, of its own workload and port;
/// of the waypoint, and through it, if it is of one; of the service, and through
/// none, otherwise.
pub proof fn law_finished(
    demand: DemandProxyState,
    search: ServiceSearch,
    r: Result<Resolution, Error>,
)
    requires
        demand.may_finish(search, r),
    ensures
        exists|picked: Option<Candidate>|
            #[trigger] search.picker.ranking().may_pick(search.picker.offered@, picked)
                && match picked {
                None => r == Ok::<Resolution, Error>(Resolution::Nothing),
                Some(c) => match c.waypoint {
                    Some(w) => demand.finalizes(
                        search.target,
                        Some((c.workload, c.port, Some(w))),
                        search.target,
                        true,
                        r,
                    ),
                    None => demand.finalizes(
                        search.target,
                        Some((c.workload, c.port, Some(*search.service))),
                        search.target,
                        false,
                        r,
                    ),
                },
            },
{
    let picked = choose|picked: Option<Candidate>|
        #[trigger] search.picker.ranking().may_pick(search.picker.offered@, picked)
            && demand.finalizes(
            search.target,
            crate::multicluster::found_of(*search.service, picked),
            search.target,
            crate::multicluster::is_waypoint(picked),
            r,
        );
    assert(search.picker.ranking().may_pick(search.picker.offered@, picked));
}

/// A search on one state ends with an upstream wherever the service has a
/// candidate, of its own or of a waypoint, that fits the load balancing policy,
/// if the workloads that are known have capacity. This holds of a candidate in
/// another network too, which has no address but a gateway.
pub proof fn law_search_owed(
    demand: DemandProxyState,
    service: Arc<Service>,
    source: Workload,
    target: SocketAddress,
    steps: Seq<ServiceSearch>,
    c: Candidate,
    r: Result<Resolution, Error>,
)
    requires
        demand.state.workloads.wf(),
        service.waypoints.wf(),
        steps.len() > 0,
        demand.begins(service, source, target, steps[0]),
        forall|i: int, j: int|
            0 <= i < j < steps.len() && j == i + 1 ==> demand.adds(
                #[trigger] steps[i],
                demand.known_next(steps[i]),
                #[trigger] steps[j],
            ),
        steps.last().next == steps.last().gateways.len(),
        demand.may_finish(steps.last(), r),
        is_direct(*demand.state, &source, &service, target.port, c) || exists|i: int|
            0 <= i < crate::multicluster::gateways_of(service.waypoints.inner@).len() && (
            demand.state.at_destination(
                (#[trigger] crate::multicluster::gateways_of(
                    service.waypoints.inner@,
                )[i]).destination,
            ) matches Some(Address::Service(waypoint)) && is_through(
                *demand.state,
                &source,
                &service,
                crate::multicluster::gateways_of(service.waypoints.inner@)[i],
                waypoint,
                c,
            )),
        steps.last().picker.ranking().rank(&c.workload) is Some,
        steps.last().picker.offered@.len() <= u32::MAX,
        forall|v: Arc<Workload>|
            #[trigger] demand.state.workloads.workloads@.contains(v) ==> v.capacity > 0,
    ensures
        !(r matches Ok(Resolution::Nothing)),
{
    let offered = steps.last().picker.offered@;
    let ranking = steps.last().picker.ranking();
    demand.lemma_offered(service, source, target, steps);
    lemma_offered_here(*demand.state, source, &service, target.port, c, offered);
    let k = choose|k: int| 0 <= k < offered.len() && offered[k] == c;
    assert(ranking.rank(&offered[k].workload) is Some);
    let f = ranking.finalists(offered);
    assert(f == steps.last().picker.finalists());
    assert forall|i: int| 0 <= i < steps.last().picker.finalists().len() implies (
    #[trigger] steps.last().picker.finalists()[i]).workload.capacity > 0 by {
        assert(f.contains(f[i]));
        offered.lemma_filter_contains_rev(ranking.ranked(ranking.best(offered)), f[i]);
        lemma_offered_known(*demand.state, source, &service, target.port, f[i], offered);
    }
    demand.lemma_finish_owed(steps.last(), r);
}

proof fn lemma_offered_here(
    state: ProxyState,
    source: Workload,
    service: &Service,
    port: u16,
    c: Candidate,
    offered: Seq<Candidate>,
)
    requires
        state.workloads.wf(),
        service.waypoints.wf(),
        offered == crate::multicluster::service_candidates(state, source, *service, port),
        is_direct(state, &source, service, port, c) || exists|i: int|
            0 <= i < crate::multicluster::gateways_of(service.waypoints.inner@).len() && (
            state.at_destination(
                (#[trigger] crate::multicluster::gateways_of(
                    service.waypoints.inner@,
                )[i]).destination,
            ) matches Some(Address::Service(waypoint)) && is_through(
                state,
                &source,
                service,
                crate::multicluster::gateways_of(service.waypoints.inner@)[i],
                waypoint,
                c,
            )),
    ensures
        offered.contains(c),
{
    law_service_candidates(state, source, service, port, c);
}

proof fn lemma_offered_known(
    state: ProxyState,
    source: Workload,
    service: &Service,
    port: u16,
    c: Candidate,
    offered: Seq<Candidate>,
)
    requires
        state.workloads.wf(),
        service.waypoints.wf(),
        offered == crate::multicluster::service_candidates(state, source, *service, port),
        offered.contains(c),
    ensures
        state.workloads.workloads@.contains(c.workload),
{
    law_service_candidates(state, source, service, port, c);
}

} // verus!
