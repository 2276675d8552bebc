//! Resolving a service that may have a waypoint in some clusters, and another
//! one, or none, in others.
//!
//! All candidates are balanced over together: in a cluster without a waypoint
//! the endpoints of the service, in a cluster with one the endpoints of that
//! waypoint. Each endpoint of each service is looked at only once.

use std::sync::Arc;

use vstd::prelude::*;

use crate::address::{GatewayAddress, SocketAddress};
use crate::demand::DemandProxyState;
use crate::error::Error;
use crate::picker::{Candidate, EndpointPicker};
use crate::resolve::{Found, Resolution};
use crate::service::{ClusterWaypoint, Endpoint, Service};
use crate::state::{is_reachable, translate_port, Address, ProxyState, ServiceResolutionMode};
use crate::upstream::Upstream;
use crate::workload::Workload;

verus! {

broadcast use vstd::std_specs::hash::group_hash_axioms;

/// Some gateway of `gs` is the same as `g`.
pub open spec fn has_gateway(gs: Seq<GatewayAddress>, g: GatewayAddress) -> bool {
    exists|i: int| 0 <= i < gs.len() && (#[trigger] gs[i]).same(g)
}

/// The gateways of the waypoints, each once, in the order in which they come up.
pub open spec fn gateways_of(ws: Seq<ClusterWaypoint>) -> Seq<GatewayAddress>
    decreases ws.len(),
{
    if ws.len() == 0 {
        Seq::empty()
    } else {
        let gs = gateways_of(ws.drop_last());
        if has_gateway(gs, ws.last().gateway) {
            gs
        } else {
            gs.push(ws.last().gateway)
        }
    }
}

/// Every waypoint's gateway is among the gateways, which are all different.
pub proof fn lemma_gateways(ws: Seq<ClusterWaypoint>)
    ensures
        forall|i: int|
            0 <= i < ws.len() ==> has_gateway(gateways_of(ws), (#[trigger] ws[i]).gateway),
        forall|i: int, j: int|
            0 <= i < j < gateways_of(ws).len() ==> !(#[trigger] gateways_of(ws)[i]).same(
                #[trigger] gateways_of(ws)[j],
            ),
        forall|i: int|
            0 <= i < gateways_of(ws).len() ==> exists|j: int|
                0 <= j < ws.len() && (#[trigger] ws[j]).gateway == #[trigger] gateways_of(ws)[i],
    decreases ws.len(),
{
    if ws.len() > 0 {
        let vs = ws.drop_last();
        let fs = gateways_of(vs);
        let gs = gateways_of(ws);
        lemma_gateways(vs);
        assert forall|i: int| 0 <= i < ws.len() implies has_gateway(
            gs,
            (#[trigger] ws[i]).gateway,
        ) by {
            if i < vs.len() {
                assert(vs[i] == ws[i]);
                let k = choose|k: int| 0 <= k < fs.len() && (#[trigger] fs[k]).same(vs[i].gateway);
                assert(gs[k].same(ws[i].gateway));
            } else if !has_gateway(fs, ws[i].gateway) {
                assert(gs[fs.len() as int].same(ws[i].gateway));
            }
        }
        assert forall|i: int, j: int| 0 <= i < j < gs.len() implies !(#[trigger] gs[i]).same(
            #[trigger] gs[j],
        ) by {
            if j == fs.len() {
                assert(!fs[i].same(ws.last().gateway));
            }
        }
        assert forall|i: int| 0 <= i < gs.len() implies exists|j: int|
            0 <= j < ws.len() && (#[trigger] ws[j]).gateway == #[trigger] gs[i] by {
            if i < fs.len() {
                let j = choose|j: int| 0 <= j < vs.len() && (#[trigger] vs[j]).gateway == fs[i];
                assert(ws[j].gateway == gs[i]);
            } else {
                assert(ws[ws.len() - 1].gateway == gs[i]);
            }
        }
    }
}

/// The search for the endpoint that a connection to a service goes to.
pub struct ServiceSearch<'b> {
    pub service: &'b Arc<Service>,
    /// The address that is connected to.
    pub target: SocketAddress,
    pub picker: EndpointPicker<'b>,
    /// The gateways of the service's waypoints, each once.
    pub gateways: Vec<GatewayAddress>,
    /// The first gateway that was not looked at yet.
    pub next: usize,
}

impl<'b> ServiceSearch<'b> {
    pub open spec fn wf(self) -> bool {
        &&& self.picker.wf()
        &&& *self.picker.target_service == **self.service
        &&& self.gateways@ == gateways_of(self.service.waypoints.inner@)
        &&& self.next <= self.gateways.len()
    }

    /// The gateway that has to be fetched next; nothing where all were looked at.
    pub fn next_gateway(&self) -> (r: Option<&GatewayAddress>)
        requires
            self.wf(),
        ensures
            match r {
                Some(g) => self.next < self.gateways.len() && *g == self.gateways@[self.next as int],
                None => self.next == self.gateways.len(),
            },
    {
        if self.next < self.gateways.len() {
            Some(&self.gateways[self.next])
        } else {
            None
        }
    }
}

/// The candidate that an endpoint of the service gives in a cluster without a
/// waypoint.
pub open spec fn direct_candidate(
    state: ProxyState,
    source: Workload,
    service: Service,
    port: u16,
) -> spec_fn(Arc<Endpoint>) -> Option<Candidate> {
    |ep: Arc<Endpoint>|
        match state.workloads.by_uid(ep.workload_uid@) {
            Some(wl) => if crate::state::reachable(source, *wl) && service.waypoints.in_cluster(
                wl.cluster_id@,
            ) is None && ProxyState::port_fits(
                service,
                port,
                ServiceResolutionMode::Standard,
                *ep,
                *wl,
            ) {
                match crate::state::translated_port(*ep, *wl, service, port) {
                    Some(p) => Some(
                        Candidate { workload: wl, waypoint: None, endpoint: ep, port: p },
                    ),
                    None => None,
                }
            } else {
                None
            },
            None => None,
        }
}

/// The candidates of the service in the clusters without a waypoint. A service
/// that does not have the port has none.
pub open spec fn direct_candidates(
    state: ProxyState,
    source: Workload,
    service: Service,
    port: u16,
) -> Seq<Candidate> {
    if service.target_port(port) is None {
        Seq::empty()
    } else {
        service.endpoints.inner@.filter_map(direct_candidate(state, source, service, port))
    }
}

/// The candidate that an endpoint of a waypoint service gives, in a cluster for
/// which that waypoint is configured.
pub open spec fn waypoint_candidate(
    state: ProxyState,
    source: Workload,
    service: Service,
    gateway: GatewayAddress,
    waypoint: Arc<Service>,
) -> spec_fn(Arc<Endpoint>) -> Option<Candidate> {
    |ep: Arc<Endpoint>|
        match state.workloads.by_uid(ep.workload_uid@) {
            Some(wl) => if crate::state::reachable(source, *wl) && ProxyState::port_fits(
                *waypoint,
                gateway.hbone_mtls_port,
                ServiceResolutionMode::Waypoint,
                *ep,
                *wl,
            ) && (service.waypoints.in_cluster(wl.cluster_id@) matches Some(g) && g.same(gateway)) {
                match crate::state::translated_port(*ep, *wl, *waypoint, gateway.hbone_mtls_port) {
                    Some(p) => Some(
                        Candidate { workload: wl, waypoint: Some(waypoint), endpoint: ep, port: p },
                    ),
                    None => None,
                }
            } else {
                None
            },
            None => None,
        }
}

/// The candidates of a waypoint, where `fetched` is what was found at its
/// gateway. Only services can be waypoints here.
pub open spec fn waypoint_candidates(
    state: ProxyState,
    source: Workload,
    service: Service,
    gateway: GatewayAddress,
    fetched: Option<Address>,
) -> Seq<Candidate> {
    match fetched {
        Some(Address::Service(waypoint)) => waypoint.endpoints.inner@.filter_map(
            waypoint_candidate(state, source, service, gateway, waypoint),
        ),
        _ => Seq::empty(),
    }
}

/// The candidates of the waypoints at these gateways, in the order of the
/// gateways, where each is what is known at its gateway.
pub open spec fn gateway_candidates(
    state: ProxyState,
    source: Workload,
    service: Service,
    gateways: Seq<GatewayAddress>,
) -> Seq<Candidate>
    decreases gateways.len(),
{
    if gateways.len() == 0 {
        Seq::empty()
    } else {
        gateway_candidates(state, source, service, gateways.drop_last()) + waypoint_candidates(
            state,
            source,
            service,
            gateways.last(),
            state.at_destination(gateways.last().destination),
        )
    }
}

/// All candidates of a service: its own in the clusters without a waypoint,
/// followed by those of the waypoints, each gateway being looked at once.
pub open spec fn service_candidates(
    state: ProxyState,
    source: Workload,
    service: Service,
    port: u16,
) -> Seq<Candidate> {
    direct_candidates(state, source, service, port) + gateway_candidates(
        state,
        source,
        service,
        gateways_of(service.waypoints.inner@),
    )
}

/// A direct candidate comes of an endpoint of the service, can be reached, and
/// is in a cluster without a waypoint.
pub proof fn lemma_direct(
    state: ProxyState,
    source: Workload,
    service: Service,
    port: u16,
    c: Candidate,
)
    requires
        direct_candidates(state, source, service, port).contains(c),
    ensures
        service.endpoints.inner@.contains(c.endpoint),
        state.workloads.by_uid(c.endpoint.workload_uid@) == Some(c.workload),
        c.waypoint is None,
        service.waypoints.in_cluster(c.workload.cluster_id@) is None,
        crate::state::reachable(source, *c.workload),
        crate::state::translated_port(*c.endpoint, *c.workload, service, port) == Some(c.port),
{
    service.endpoints.inner@.lemma_filter_map_contains(
        direct_candidate(state, source, service, port),
        c,
    );
}

/// A candidate of a waypoint comes of an endpoint of the waypoint, can be
/// reached, and is in a cluster for which that waypoint is configured.
pub proof fn lemma_waypoint(
    state: ProxyState,
    source: Workload,
    service: Service,
    gateway: GatewayAddress,
    waypoint: Arc<Service>,
    c: Candidate,
)
    requires
        waypoint_candidates(
            state,
            source,
            service,
            gateway,
            Some(Address::Service(waypoint)),
        ).contains(c),
    ensures
        waypoint.endpoints.inner@.contains(c.endpoint),
        state.workloads.by_uid(c.endpoint.workload_uid@) == Some(c.workload),
        c.waypoint == Some(waypoint),
        service.waypoints.in_cluster(c.workload.cluster_id@) matches Some(g) && g.same(gateway),
        crate::state::reachable(source, *c.workload),
        crate::state::translated_port(
            *c.endpoint,
            *c.workload,
            *waypoint,
            gateway.hbone_mtls_port,
        ) == Some(c.port),
{
    waypoint.endpoints.inner@.lemma_filter_map_contains(
        waypoint_candidate(state, source, service, gateway, waypoint),
        c,
    );
}

/// No cluster gives candidates both of the service and of a waypoint, or of two
/// waypoints, whatever is known when each of them is looked at.
pub proof fn lemma_apart(
    before: ProxyState,
    after: ProxyState,
    source: Workload,
    service: Service,
    port: u16,
    gateway: GatewayAddress,
    other: GatewayAddress,
    fetched: Option<Address>,
    others: Option<Address>,
)
    requires
        !gateway.same(other),
    ensures
        forall|c: Candidate, d: Candidate|
            direct_candidates(before, source, service, port).contains(c) && waypoint_candidates(
                after,
                source,
                service,
                gateway,
                fetched,
            ).contains(d) ==> #[trigger] c.workload.cluster_id@ != #[trigger] d.workload.cluster_id@,
        forall|c: Candidate, d: Candidate|
            waypoint_candidates(before, source, service, gateway, fetched).contains(c)
                && waypoint_candidates(after, source, service, other, others).contains(d)
                ==> #[trigger] c.workload.cluster_id@ != #[trigger] d.workload.cluster_id@,
{
    assert forall|c: Candidate, d: Candidate|
        direct_candidates(before, source, service, port).contains(c) && waypoint_candidates(
            after,
            source,
            service,
            gateway,
            fetched,
        ).contains(d) implies #[trigger] c.workload.cluster_id@
        != #[trigger] d.workload.cluster_id@ by {
        lemma_direct(before, source, service, port, c);
        lemma_waypoint(after, source, service, gateway, fetched->0->Service_0, d);
    }
    assert forall|c: Candidate, d: Candidate|
        waypoint_candidates(before, source, service, gateway, fetched).contains(c)
            && waypoint_candidates(after, source, service, other, others).contains(
            d,
        ) implies #[trigger] c.workload.cluster_id@ != #[trigger] d.workload.cluster_id@ by {
        lemma_waypoint(before, source, service, gateway, fetched->0->Service_0, c);
        lemma_waypoint(after, source, service, other, others->0->Service_0, d);
    }
}

/// What comes of distinct endpoints are candidates of distinct workloads.
proof fn lemma_distinct(
    endpoints: Seq<Arc<Endpoint>>,
    f: spec_fn(Arc<Endpoint>) -> Option<Candidate>,
)
    requires
        forall|i: int, j: int|
            0 <= i < j < endpoints.len() ==> (#[trigger] endpoints[i]).workload_uid@ != (
            #[trigger] endpoints[j]).workload_uid@,
        forall|ep: Arc<Endpoint>|
            (#[trigger] f(ep)) matches Some(c) ==> c.workload.uid@ == ep.workload_uid@,
    ensures
        Candidate::distinct(endpoints.filter_map(f)),
    decreases endpoints.len(),
{
    if endpoints.len() > 0 {
        let rest = endpoints.drop_last();
        let before = rest.filter_map(f);
        let all = endpoints.filter_map(f);
        lemma_distinct(rest, f);
        assert forall|i: int, j: int| 0 <= i < j < all.len() implies (
        #[trigger] all[i]).workload.uid@ != (#[trigger] all[j]).workload.uid@ by {
            assert(all[i] == before[i]);
            if j < before.len() {
                assert(all[j] == before[j]);
            } else {
                assert(before.contains(before[i]));
                rest.lemma_filter_map_contains(f, before[i]);
                let t = choose|t: Arc<Endpoint>|
                    #[trigger] rest.contains(t) && f(t) == Some(before[i]);
                let k = choose|k: int| 0 <= k < rest.len() && rest[k] == t;
                assert(endpoints[k] == t);
                assert(endpoints[endpoints.len() - 1] == endpoints.last());
            }
        }
    }
}

/// A service offers each workload at most once.
pub proof fn lemma_direct_once(state: ProxyState, source: Workload, service: Service, port: u16)
    requires
        service.endpoints.wf(),
    ensures
        Candidate::distinct(direct_candidates(state, source, service, port)),
{
    let f = direct_candidate(state, source, service, port);
    assert forall|ep: Arc<Endpoint>| (#[trigger] f(ep)) matches Some(
        c,
    ) implies f(ep)->0.workload.uid@ == ep.workload_uid@ by {
        crate::search::lemma_first_is(
            state.workloads.workloads@,
            crate::workload::WorkloadStore::uid_is(ep.workload_uid@),
        );
    }
    lemma_distinct(service.endpoints.inner@, f);
}

/// A waypoint offers each workload at most once.
pub proof fn lemma_waypoint_once(
    state: ProxyState,
    source: Workload,
    service: Service,
    gateway: GatewayAddress,
    waypoint: Arc<Service>,
)
    requires
        waypoint.endpoints.wf(),
    ensures
        Candidate::distinct(
            waypoint_candidates(
                state,
                source,
                service,
                gateway,
                Some(Address::Service(waypoint)),
            ),
        ),
{
    let f = waypoint_candidate(state, source, service, gateway, waypoint);
    assert forall|ep: Arc<Endpoint>| (#[trigger] f(ep)) matches Some(
        c,
    ) implies f(ep)->0.workload.uid@ == ep.workload_uid@ by {
        crate::search::lemma_first_is(
            state.workloads.workloads@,
            crate::workload::WorkloadStore::uid_is(ep.workload_uid@),
        );
    }
    lemma_distinct(waypoint.endpoints.inner@, f);
}

/// A candidate of the gateways is one of some gateway of theirs.
proof fn lemma_of_gateway(
    state: ProxyState,
    source: Workload,
    service: Service,
    gateways: Seq<GatewayAddress>,
    c: Candidate,
)
    requires
        gateway_candidates(state, source, service, gateways).contains(c),
    ensures
        exists|i: int|
            0 <= i < gateways.len() && waypoint_candidates(
                state,
                source,
                service,
                #[trigger] gateways[i],
                state.at_destination(gateways[i].destination),
            ).contains(c),
    decreases gateways.len(),
{
    if gateways.len() > 0 {
        let end = gateways.len() - 1;
        let before = gateway_candidates(state, source, service, gateways.drop_last());
        let here = waypoint_candidates(
            state,
            source,
            service,
            gateways[end],
            state.at_destination(gateways[end].destination),
        );
        let k = choose|k: int| 0 <= k < (before + here).len() && (before + here)[k] == c;
        if k < before.len() {
            assert(before[k] == c);
            lemma_of_gateway(state, source, service, gateways.drop_last(), c);
            let i = choose|i: int|
                0 <= i < end && waypoint_candidates(
                    state,
                    source,
                    service,
                    #[trigger] gateways.drop_last()[i],
                    state.at_destination(gateways.drop_last()[i].destination),
                ).contains(c);
            assert(gateways[i] == gateways.drop_last()[i]);
        } else {
            assert(here[k - before.len()] == c);
            assert(here.contains(c));
        }
    }
}

/// Candidates of one state whose clusters differ are of different workloads.
proof fn lemma_joined(state: ProxyState, a: Seq<Candidate>, b: Seq<Candidate>)
    requires
        Candidate::distinct(a),
        Candidate::distinct(b),
        forall|c: Candidate|
            #[trigger] a.contains(c) ==> state.workloads.by_uid(c.workload.uid@) == Some(c.workload),
        forall|c: Candidate|
            #[trigger] b.contains(c) ==> state.workloads.by_uid(c.workload.uid@) == Some(c.workload),
        forall|c: Candidate, d: Candidate|
            #[trigger] a.contains(c) && #[trigger] b.contains(d) ==> c.workload.cluster_id@
                != d.workload.cluster_id@,
    ensures
        Candidate::distinct(a + b),
{
    let cs = a + b;
    assert forall|i: int, j: int| 0 <= i < j < cs.len() implies (#[trigger] cs[i]).workload.uid@
        != (#[trigger] cs[j]).workload.uid@ by {
        if i < a.len() && j >= a.len() {
            assert(a.contains(a[i]));
            assert(b.contains(b[j - a.len()]));
        }
    }
}

/// The workload of an endpoint is known by its own UID.
proof fn lemma_uid(state: ProxyState, ep: Arc<Endpoint>, c: Candidate)
    requires
        state.workloads.by_uid(ep.workload_uid@) == Some(c.workload),
    ensures
        state.workloads.by_uid(c.workload.uid@) == Some(c.workload),
{
    crate::search::lemma_first_is(
        state.workloads.workloads@,
        crate::workload::WorkloadStore::uid_is(ep.workload_uid@),
    );
}

/// The waypoints at different gateways offer each workload at most once.
proof fn lemma_gateways_once(
    state: ProxyState,
    source: Workload,
    service: Service,
    gateways: Seq<GatewayAddress>,
)
    requires
        forall|i: int, j: int|
            0 <= i < j < gateways.len() ==> !(#[trigger] gateways[i]).same(#[trigger] gateways[j]),
        forall|i: int|
            0 <= i < gateways.len() ==> (state.at_destination(
                (#[trigger] gateways[i]).destination,
            ) matches Some(Address::Service(w)) ==> w.endpoints.wf()),
    ensures
        Candidate::distinct(gateway_candidates(state, source, service, gateways)),
    decreases gateways.len(),
{
    if gateways.len() > 0 {
        let end = gateways.len() - 1;
        let rest = gateways.drop_last();
        let fetched = state.at_destination(gateways[end].destination);
        let a = gateway_candidates(state, source, service, rest);
        let b = waypoint_candidates(state, source, service, gateways[end], fetched);
        assert forall|i: int| 0 <= i < rest.len() implies #[trigger] rest[i] == gateways[i] by {}
        lemma_gateways_once(state, source, service, rest);
        if fetched is Some && fetched->0 is Service {
            lemma_waypoint_once(state, source, service, gateways[end], fetched->0->Service_0);
        }
        assert forall|c: Candidate| #[trigger] a.contains(c) implies state.workloads.by_uid(
            c.workload.uid@,
        ) == Some(c.workload) by {
            lemma_of_gateway(state, source, service, rest, c);
            let i = choose|i: int|
                0 <= i < rest.len() && waypoint_candidates(
                    state,
                    source,
                    service,
                    #[trigger] rest[i],
                    state.at_destination(rest[i].destination),
                ).contains(c);
            let found = state.at_destination(rest[i].destination);
            lemma_waypoint(state, source, service, rest[i], found->0->Service_0, c);
            lemma_uid(state, c.endpoint, c);
        }
        assert forall|c: Candidate| #[trigger] b.contains(c) implies state.workloads.by_uid(
            c.workload.uid@,
        ) == Some(c.workload) by {
            lemma_waypoint(state, source, service, gateways[end], fetched->0->Service_0, c);
            lemma_uid(state, c.endpoint, c);
        }
        assert forall|c: Candidate, d: Candidate| #[trigger] a.contains(c) && #[trigger] b.contains(
            d,
        ) implies c.workload.cluster_id@ != d.workload.cluster_id@ by {
            lemma_of_gateway(state, source, service, rest, c);
            let i = choose|i: int|
                0 <= i < rest.len() && waypoint_candidates(
                    state,
                    source,
                    service,
                    #[trigger] rest[i],
                    state.at_destination(rest[i].destination),
                ).contains(c);
            let found = state.at_destination(rest[i].destination);
            lemma_waypoint(state, source, service, rest[i], found->0->Service_0, c);
            lemma_waypoint(state, source, service, gateways[end], fetched->0->Service_0, d);
            assert(!gateways[i].same(gateways[end]));
        }
        lemma_joined(state, a, b);
    }
}

/// A service and its waypoints together offer each workload at most once.
pub proof fn lemma_once(state: ProxyState, source: Workload, service: Service, port: u16)
    requires
        service.endpoints.wf(),
        forall|i: int|
            0 <= i < service.waypoints.inner@.len() ==> (state.at_destination(
                (#[trigger] service.waypoints.inner@[i]).gateway.destination,
            ) matches Some(Address::Service(w)) ==> w.endpoints.wf()),
    ensures
        Candidate::distinct(service_candidates(state, source, service, port)),
{
    let ws = service.waypoints.inner@;
    let gateways = gateways_of(ws);
    let a = direct_candidates(state, source, service, port);
    let b = gateway_candidates(state, source, service, gateways);
    lemma_gateways(ws);
    assert forall|i: int| 0 <= i < gateways.len() implies (state.at_destination(
        (#[trigger] gateways[i]).destination,
    ) matches Some(Address::Service(w)) ==> w.endpoints.wf()) by {
        let j = choose|j: int| 0 <= j < ws.len() && (#[trigger] ws[j]).gateway == gateways[i];
        assert(ws[j].gateway.destination == gateways[i].destination);
    }
    lemma_direct_once(state, source, service, port);
    lemma_gateways_once(state, source, service, gateways);
    assert forall|c: Candidate| #[trigger] a.contains(c) implies state.workloads.by_uid(
        c.workload.uid@,
    ) == Some(c.workload) by {
        lemma_direct(state, source, service, port, c);
        lemma_uid(state, c.endpoint, c);
    }
    assert forall|c: Candidate| #[trigger] b.contains(c) implies state.workloads.by_uid(
        c.workload.uid@,
    ) == Some(c.workload) && service.waypoints.in_cluster(c.workload.cluster_id@) is Some by {
        lemma_of_gateway(state, source, service, gateways, c);
        let i = choose|i: int|
            0 <= i < gateways.len() && waypoint_candidates(
                state,
                source,
                service,
                #[trigger] gateways[i],
                state.at_destination(gateways[i].destination),
            ).contains(c);
        let found = state.at_destination(gateways[i].destination);
        lemma_waypoint(state, source, service, gateways[i], found->0->Service_0, c);
        lemma_uid(state, c.endpoint, c);
    }
    assert forall|c: Candidate, d: Candidate| #[trigger] a.contains(c) && #[trigger] b.contains(
        d,
    ) implies c.workload.cluster_id@ != d.workload.cluster_id@ by {
        lemma_direct(state, source, service, port, c);
    }
    lemma_joined(state, a, b);
}

/// The candidate with the port that it is connected to at.
pub open spec fn at_port(service: Service, port: u16) -> spec_fn(Candidate) -> Candidate {
    |c: Candidate|
        Candidate {
            port: crate::state::translated_port(*c.endpoint, *c.workload, service, port)->0,
            ..c
        }
}

/// Where no cluster has a waypoint the candidates are those that a service has
/// in standard mode, each with its port.
pub proof fn lemma_without_waypoints(
    state: ProxyState,
    source: Workload,
    service: Service,
    port: u16,
)
    requires
        service.waypoints.inner@.len() == 0,
    ensures
        direct_candidates(state, source, service, port) == state.candidates(
            source,
            service,
            port,
            ServiceResolutionMode::Standard,
        ).map_values(at_port(service, port)),
{
    if service.target_port(port) is None {
        assert(direct_candidates(state, source, service, port) =~= state.candidates(
            source,
            service,
            port,
            ServiceResolutionMode::Standard,
        ).map_values(at_port(service, port)));
    } else {
        lemma_same_candidates(state, source, service, port, service.endpoints.inner@);
    }
}

proof fn lemma_same_candidates(
    state: ProxyState,
    source: Workload,
    service: Service,
    port: u16,
    endpoints: Seq<Arc<Endpoint>>,
)
    requires
        service.waypoints.inner@.len() == 0,
    ensures
        endpoints.filter_map(direct_candidate(state, source, service, port))
            == endpoints.filter_map(
            state.candidate(source, service, port, ServiceResolutionMode::Standard),
        ).map_values(at_port(service, port)),
    decreases endpoints.len(),
{
    let f = direct_candidate(state, source, service, port);
    let g = state.candidate(source, service, port, ServiceResolutionMode::Standard);
    let h = at_port(service, port);
    if endpoints.len() > 0 {
        lemma_same_candidates(state, source, service, port, endpoints.drop_last());
    }
    assert(endpoints.filter_map(f) =~= endpoints.filter_map(g).map_values(h));
}

/// What a candidate of the service stands for: its workload and port, with the
/// waypoint that it belongs to, or else the service itself.
pub open spec fn found_of(service: Arc<Service>, picked: Option<Candidate>) -> Option<Found> {
    match picked {
        Some(c) => Some(
            (
                c.workload,
                c.port,
                match c.waypoint {
                    Some(w) => Some(w),
                    None => Some(service),
                },
            ),
        ),
        None => None,
    }
}

pub open spec fn is_waypoint(picked: Option<Candidate>) -> bool {
    picked matches Some(c) && c.waypoint is Some
}

impl<'a> DemandProxyState<'a> {
    /// `r` is a search in which the endpoints of the service itself were looked
    /// at, and no gateway yet.
    pub open spec fn begins(
        self,
        service: Arc<Service>,
        source: Workload,
        target: SocketAddress,
        r: ServiceSearch,
    ) -> bool {
        &&& r.wf()
        &&& *r.service == service
        &&& r.target == target
        &&& *r.picker.source_workload == source
        &&& r.picker.offered@ == direct_candidates(*self.state, source, *service, target.port)
        &&& r.next == 0
    }

    /// `r` is the search `s`, in which the next gateway was looked at, and
    /// `fetched` was found there.
    pub open spec fn adds(self, s: ServiceSearch, fetched: Option<Address>, r: ServiceSearch) -> bool {
        &&& r.wf()
        &&& r.service == s.service
        &&& r.target == s.target
        &&& r.picker.source_workload == s.picker.source_workload
        &&& r.next == s.next + 1
        &&& r.picker.offered@ == s.picker.offered@ + waypoint_candidates(
            *self.state,
            *s.picker.source_workload,
            **s.service,
            s.gateways@[s.next as int],
            fetched,
        )
    }

    /// What is known at the gateway that comes next.
    pub open spec fn known_next(self, s: ServiceSearch) -> Option<Address> {
        self.state.at_destination(s.gateways@[s.next as int].destination)
    }

    /// A search whose steps are all taken on one state offers the candidates of
    /// the service in the clusters without a waypoint, followed by those of each
    /// gateway; no others.
    pub proof fn lemma_offered(
        self,
        service: Arc<Service>,
        source: Workload,
        target: SocketAddress,
        steps: Seq<ServiceSearch>,
    )
        requires
            steps.len() > 0,
            self.begins(service, source, target, steps[0]),
            forall|i: int, j: int|
                0 <= i < j < steps.len() && j == i + 1 ==> self.adds(
                    #[trigger] steps[i],
                    self.known_next(steps[i]),
                    #[trigger] steps[j],
                ),
            steps.last().next == steps.last().gateways.len(),
        ensures
            steps.last().picker.offered@ == service_candidates(
                *self.state,
                source,
                *service,
                target.port,
            ),
    {
        self.lemma_steps(service, source, target, steps);
        let gateways = gateways_of(service.waypoints.inner@);
        assert(gateways.take(gateways.len() as int) =~= gateways);
    }

    /// After some steps the gateways up to there were looked at.
    proof fn lemma_steps(
        self,
        service: Arc<Service>,
        source: Workload,
        target: SocketAddress,
        steps: Seq<ServiceSearch>,
    )
        requires
            steps.len() > 0,
            self.begins(service, source, target, steps[0]),
            forall|i: int, j: int|
                0 <= i < j < steps.len() && j == i + 1 ==> self.adds(
                    #[trigger] steps[i],
                    self.known_next(steps[i]),
                    #[trigger] steps[j],
                ),
        ensures
            ({
                let r = steps.last();
                &&& r.wf()
                &&& *r.service == service
                &&& *r.picker.source_workload == source
                &&& r.next == steps.len() - 1
                &&& r.picker.offered@ == direct_candidates(
                    *self.state,
                    source,
                    *service,
                    target.port,
                ) + gateway_candidates(
                    *self.state,
                    source,
                    *service,
                    gateways_of(service.waypoints.inner@).take(r.next as int),
                )
            }),
        decreases steps.len(),
    {
        let end = steps.len() - 1;
        let gateways = gateways_of(service.waypoints.inner@);
        if end == 0 {
            assert(gateways.take(0).len() == 0);
            assert(steps[0].picker.offered@ =~= steps[0].picker.offered@
                + Seq::<Candidate>::empty());
        } else {
            let rest = steps.drop_last();
            assert forall|i: int| 0 <= i < rest.len() implies #[trigger] rest[i] == steps[i] by {}
            self.lemma_steps(service, source, target, rest);
            assert(rest.last() == steps[end - 1]);
            assert(self.adds(steps[end - 1], self.known_next(steps[end - 1]), steps[end]));
            assert(gateways.take(end).drop_last() =~= gateways.take(end - 1));
            assert(gateways.take(end).last() == gateways[end - 1]);
            assert(steps.last().picker.offered@ =~= direct_candidates(
                *self.state,
                source,
                *service,
                target.port,
            ) + gateway_candidates(*self.state, source, *service, gateways.take(end)));
        }
    }

    /// Begins the search for the endpoint that a connection to a service goes to:
    /// looks at the endpoints of the service itself, and leaves out those in
    /// clusters with a waypoint.
    pub fn fetch_service_upstream<'b>(
        &self,
        service: &'b Arc<Service>,
        source: &'b Workload,
        target: SocketAddress,
    ) -> (r: ServiceSearch<'b>)
        ensures
            self.begins(*service, *source, target, r),
    {
        let port: u16 = target.port;
        let mut picker = EndpointPicker::new(source, service);
        let target_port: Option<u16> = service.get_target_port(port);
        if target_port.is_some() {
            let known = match target_port {
                Some(p) => p != 0,
                None => false,
            };
            let endpoints = &service.endpoints.inner;
            let resolved: &Service = service;
            let ghost f = direct_candidate(*self.state, *source, *resolved, port);
            let mut i: usize = 0;
            while i < endpoints.len()
                invariant
                    i <= endpoints.len(),
                    endpoints@ == service.endpoints.inner@,
                    known == (service.target_port(port) matches Some(p) && p != 0),
                    *resolved == **service,
                    f == direct_candidate(*self.state, *source, *resolved, port),
                    picker.wf(),
                    *picker.source_workload == *source,
                    *picker.target_service == **service,
                    picker.offered@ == endpoints@.take(i as int).filter_map(f),
                decreases endpoints.len() - i,
            {
                proof {
                    endpoints@.lemma_filter_map_take_succ(f, i as int);
                }
                let ep = &endpoints[i];
                i = i + 1;
                let wl = match self.state.workloads.find_uid(&ep.workload_uid) {
                    Some(wl) => wl,
                    None => continue,
                };
                if !is_reachable(source, &wl) {
                    continue;
                }
                if service.waypoints.get(&wl.cluster_id).is_some() {
                    continue;
                }
                if !known && !ep.port.contains_key(&port) {
                    continue;
                }
                if let Some(p) = translate_port(ep, &wl, service, port) {
                    picker.add_direct_endpoint(wl, ep.clone(), p);
                    proof {
                        assert(picker.offered@ =~= endpoints@.take(i as int).filter_map(f));
                    }
                }
            }
            proof {
                assert(endpoints@.take(i as int) =~= endpoints@);
            }
        }
        let gateways = distinct_gateways(&service.waypoints.inner);
        ServiceSearch { service, target, picker, gateways, next: 0 }
    }

    /// Goes on with a search, where `fetched` is what was found at the gateway
    /// that came next: looks at the endpoints of that waypoint, for all clusters
    /// at once, and leaves out those in clusters for which it is not configured.
    pub fn add_waypoint<'b>(&self, search: &mut ServiceSearch<'b>, fetched: Option<Address>)
        requires
            old(search).wf(),
            old(search).next < old(search).gateways.len(),
        ensures
            self.adds(*old(search), fetched, *final(search)),
    {
        let next: usize = search.next;
        let gateway = search.gateways[next].clone();
        search.next = next + 1;
        let waypoint = match fetched {
            Some(Address::Service(waypoint)) => waypoint,
            _ => {
                proof {
                    assert(search.picker.offered@ =~= search.picker.offered@ + Seq::empty());
                }
                return;
            },
        };
        let source = search.picker.source_workload;
        let service = search.service;
        let ghost before = search.picker.offered@;
        let port: u16 = gateway.hbone_mtls_port;
        let target_port: Option<u16> = waypoint.get_target_port(port);
        let endpoints = &waypoint.endpoints.inner;
        let resolved: &Service = service;
        let ghost f = waypoint_candidate(*self.state, *source, *resolved, gateway, waypoint);
        let mut i: usize = 0;
        proof {
            assert(endpoints@.take(0).filter_map(f) =~= Seq::<Candidate>::empty());
            assert(before =~= before + Seq::<Candidate>::empty());
        }
        while i < endpoints.len()
            invariant
                i <= endpoints.len(),
                endpoints@ == waypoint.endpoints.inner@,
                target_port == waypoint.target_port(port),
                port == gateway.hbone_mtls_port,
                *resolved == **service,
                f == waypoint_candidate(*self.state, *source, *resolved, gateway, waypoint),
                search.wf(),
                search.service == service,
                search.service == old(search).service,
                search.target == old(search).target,
                search.picker.source_workload == source,
                search.next == old(search).next + 1,
                search.picker.offered@ == before + endpoints@.take(i as int).filter_map(f),
            decreases endpoints.len() - i,
        {
            proof {
                endpoints@.lemma_filter_map_take_succ(f, i as int);
            }
            let ep = &endpoints[i];
            i = i + 1;
            let wl = match self.state.workloads.find_uid(&ep.workload_uid) {
                Some(wl) => wl,
                None => continue,
            };
            if !is_reachable(source, &wl) {
                continue;
            }
            if target_port.is_none() && wl.application_tunnel.is_none() {
                continue;
            }
            // Where the cluster of this workload has no waypoint, or a different
            // one, the workload is not the right candidate.
            let configured = match service.waypoints.get(&wl.cluster_id) {
                Some(g) => *g == gateway,
                None => false,
            };
            if !configured {
                continue;
            }
            if let Some(p) = translate_port(ep, &wl, &waypoint, port) {
                search.picker.add_waypoint_endpoint(wl, waypoint.clone(), ep.clone(), p);
                proof {
                    assert(search.picker.offered@ =~= before + endpoints@.take(
                        i as int,
                    ).filter_map(f));
                }
            }
        }
        proof {
            assert(endpoints@.take(i as int) =~= endpoints@);
        }
    }

    /// The upstream of a candidate of the service. The target address tells which
    /// IP family the request came over.
    pub fn finalize_candidate(
        &self,
        service: &Arc<Service>,
        target: SocketAddress,
        picked: Option<&Candidate>,
    ) -> (r: Result<Resolution, Error>)
        ensures
            ({
                let c = match picked {
                    Some(c) => Some(*c),
                    None => None,
                };
                self.finalizes(target, found_of(*service, c), target, is_waypoint(c), r)
            }),
    {
        match picked {
            Some(c) => {
                let from = match &c.waypoint {
                    Some(w) => Some(w.clone()),
                    None => Some(service.clone()),
                };
                self.finalize_upstream(
                    target,
                    Some((c.workload.clone(), c.port, from)),
                    target,
                    c.waypoint.is_some(),
                )
            },
            None => self.finalize_upstream(target, None, target, false),
        }
    }

    /// `r` may come out of a search: the upstream of a candidate that may be
    /// picked among those that were offered.
    pub open spec fn may_finish(self, search: ServiceSearch, r: Result<Resolution, Error>) -> bool {
        exists|picked: Option<Candidate>|
            #[trigger] search.picker.ranking().may_pick(search.picker.offered@, picked)
                && self.finalizes(
                search.target,
                found_of(*search.service, picked),
                search.target,
                is_waypoint(picked),
                r,
            )
    }

    /// `u` is an upstream of the candidate `c`.
    pub open spec fn is_of(search: ServiceSearch, u: Upstream, c: Candidate) -> bool {
        &&& u.workload == c.workload
        &&& u.port == c.port
        &&& u.original_target == search.target
        &&& u.through_waypoint == c.waypoint is Some
        &&& u.destination_service matches Some(d) && match c.waypoint {
            Some(w) => d.describes(*w),
            None => d.describes(**search.service),
        }
    }

    /// Whatever comes out of a search is an upstream of a candidate that was
    /// offered, and that no other one goes before. It goes through a waypoint
    /// exactly where the candidate is one, and keeps the original target.
    /// Nothing comes out only where nothing could be picked.
    pub proof fn lemma_finished(self, search: ServiceSearch, r: Result<Resolution, Error>)
        requires
            self.may_finish(search, r),
        ensures
            match r {
                Ok(Resolution::Ready(u)) => exists|c: Candidate|
                    #[trigger] search.picker.offered@.contains(c) && Self::is_of(search, u, c)
                        && search.picker.ranking().rank(&c.workload) == Some(
                        search.picker.ranking().best(search.picker.offered@),
                    ),
                Ok(Resolution::Resolve(p)) => exists|c: Candidate|
                    #[trigger] search.picker.offered@.contains(c) && Self::is_of(
                        search,
                        p.upstream,
                        c,
                    ) && search.picker.ranking().rank(&c.workload) == Some(
                        search.picker.ranking().best(search.picker.offered@),
                    ),
                Ok(Resolution::Nothing) => search.picker.ranking().may_pick(
                    search.picker.offered@,
                    None,
                ),
                Ok(Resolution::Demand(_)) => false,
                Err(e) => e is NoValidDestination,
            },
    {
        let picked = choose|picked: Option<Candidate>|
            #[trigger] search.picker.ranking().may_pick(search.picker.offered@, picked)
                && self.finalizes(
                search.target,
                found_of(*search.service, picked),
                search.target,
                is_waypoint(picked),
                r,
            );
        if picked is Some {
            search.picker.ranking().lemma_picked(search.picker.offered@, picked->0);
        }
    }

    /// Something comes out of a search wherever a candidate that has a rank was
    /// offered, if those of the highest rank all have capacity, and are not more
    /// than 32 bits count.
    pub proof fn lemma_finish_owed(self, search: ServiceSearch, r: Result<Resolution, Error>)
        requires
            self.may_finish(search, r),
            exists|i: int|
                0 <= i < search.picker.offered@.len() && search.picker.ranking().rank(
                    &(#[trigger] search.picker.offered@[i]).workload,
                ) is Some,
            forall|i: int|
                0 <= i < search.picker.finalists().len() ==> (
                #[trigger] search.picker.finalists()[i]).workload.capacity > 0,
            search.picker.offered@.len() <= u32::MAX,
        ensures
            !(r matches Ok(Resolution::Nothing)),
    {
        self.lemma_finished(search, r);
        let finalists = search.picker.ranking().finalists(search.picker.offered@);
        assert(finalists == search.picker.finalists());
        search.picker.ranking().lemma_pick_owed(search.picker.offered@);
    }

    /// Ends a search in which every gateway was looked at: picks a candidate, and
    /// gives its upstream.
    pub fn finish_service_upstream(&self, search: &ServiceSearch) -> (r: Result<Resolution, Error>)
        requires
            search.wf(),
            search.next == search.gateways.len(),
        ensures
            self.may_finish(*search, r),
    {
        let picked = search.picker.pick_candidate();
        self.finalize_candidate(search.service, search.target, picked)
    }
}

/// The gateways of the waypoints, each once.
fn distinct_gateways(ws: &Vec<ClusterWaypoint>) -> (r: Vec<GatewayAddress>)
    ensures
        r@ == gateways_of(ws@),
{
    let mut r: Vec<GatewayAddress> = Vec::new();
    let mut i: usize = 0;
    while i < ws.len()
        invariant
            i <= ws.len(),
            r@ == gateways_of(ws@.take(i as int)),
        decreases ws.len() - i,
    {
        proof {
            assert(ws@.take(i + 1).drop_last() =~= ws@.take(i as int));
        }
        if !visited(&r, &ws[i].gateway) {
            r.push(ws[i].gateway.clone());
        }
        i = i + 1;
    }
    proof {
        assert(ws@.take(i as int) =~= ws@);
    }
    r
}

/// Whether some gateway of `gs` is the same as `g`.
fn visited(gs: &Vec<GatewayAddress>, g: &GatewayAddress) -> (r: bool)
    ensures
        r == has_gateway(gs@, *g),
{
    let mut i: usize = 0;
    while i < gs.len()
        invariant
            i <= gs.len(),
            forall|j: int| 0 <= j < i ==> !(#[trigger] gs@[j]).same(*g),
        decreases gs.len() - i,
    {
        if gs[i] == *g {
            return true;
        }
        i = i + 1;
    }
    false
}

} // verus!
