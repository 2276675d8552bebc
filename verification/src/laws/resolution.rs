//! What an address, a service or a gateway is resolved to.

use std::sync::Arc;

use vstd::prelude::*;

use crate::address::{
    Destination, GatewayAddress, IpAddress, IpFamily, NetworkAddress, SocketAddress,
};
use crate::demand::{DemandKey, DemandProxyState, WorkloadIp};
use crate::error::{Error, MissingGateway};
use crate::picker::Ranking;
use crate::resolve::{Found, GatewayKind, GatewayTarget, PendingUpstream, Resolution};
use crate::service::Service;
use crate::state::{Address, ProxyState, ServiceResolutionMode};
use crate::upstream::{HboneAddress, Upstream};
use crate::workload::{InboundProtocol, Workload};

verus! {

broadcast use vstd::std_specs::hash::group_hash_axioms;

/// The restriction allows the address.
pub open spec fn allows(restriction: Option<IpFamily>, ip: IpAddress) -> bool {
    match restriction {
        Some(IpFamily::IPv4) => ip is V4,
        Some(IpFamily::IPv6) => ip is V6,
        _ => true,
    }
}

/// What comes first of those that are kept.
proof fn lemma_first_kept<T>(
    s: Seq<T>,
    keep: spec_fn(T) -> bool,
    p: spec_fn(T) -> bool,
    both: spec_fn(T) -> bool,
)
    requires
        forall|x: T| #[trigger] both(x) <==> keep(x) && p(x),
    ensures
        crate::search::first(s.filter(keep), p) == crate::search::first(s, both),
    decreases s.len(),
{
    reveal(Seq::filter);
    if s.len() > 0 {
        let rest = s.drop_last();
        assert(s =~= rest.push(s.last()));
        lemma_first_kept(rest, keep, p, both);
        crate::search::lemma_first_push(rest, s.last(), both);
        crate::search::lemma_first_push(rest.filter(keep), s.last(), p);
    }
}

/// A connection to a workload is made at the target itself, if that is one of its
/// IPs. Otherwise it is made at the first of its IPs that the service allows and
/// that is of the family of the target; or else at the first that the service
/// allows; or else at what its hostname resolves to; or else through its gateway;
/// and where there is nothing of this it cannot be made.
pub proof fn law_workload_ip(
    dst: Arc<Workload>,
    target: SocketAddress,
    restriction: Option<IpFamily>,
)
    ensures
        ({
            let ips = dst.workload_ips@;
            let r = crate::demand::workload_ip(dst, target, restriction);
            if ips.contains(target.ip) {
                r == Ok::<WorkloadIp, Error>(WorkloadIp::Ip(target.ip))
            } else if exists|i: int| 0 <= i < ips.len() && allows(restriction, #[trigger] ips[i]) {
                &&& r matches Ok(WorkloadIp::Ip(ip))
                &&& exists|i: int|
                    {
                        &&& 0 <= i < ips.len()
                        &&& #[trigger] ips[i] == ip
                        &&& allows(restriction, ip)
                        &&& if ip is V6 == target.ip is V6 {
                            forall|j: int|
                                0 <= j < i ==> !(allows(restriction, #[trigger] ips[j])
                                    && ips[j] is V6 == target.ip is V6)
                        } else {
                            &&& forall|j: int|
                                0 <= j < ips.len() ==> !(allows(restriction, #[trigger] ips[j])
                                    && ips[j] is V6 == target.ip is V6)
                            &&& forall|j: int|
                                0 <= j < i ==> !allows(restriction, #[trigger] ips[j])
                        }
                    }
            } else if dst.hostname@.len() > 0 {
                r == Ok::<WorkloadIp, Error>(WorkloadIp::Resolve)
            } else if dst.network_gateway is Some {
                r == Ok::<WorkloadIp, Error>(WorkloadIp::ThroughGateway)
            } else {
                r == Err::<WorkloadIp, Error>(Error::NoValidDestination(dst))
            }
        }),
{
    let ips = dst.workload_ips@;
    let keep = crate::demand::accepted_by(restriction);
    let like = crate::order::family_is(target.ip);
    let accepted = ips.filter(keep);
    let both = |ip: IpAddress| allows(restriction, ip) && ip is V6 == target.ip is V6;
    let any = |ip: IpAddress| true;
    let allowed = |ip: IpAddress| allows(restriction, ip);
    lemma_first_kept(ips, keep, like, both);
    lemma_first_kept(ips, keep, any, allowed);
    crate::search::lemma_first_index(ips, both);
    crate::search::lemma_first_index(ips, allowed);
    assert(accepted.len() > 0 ==> crate::search::first(accepted, any) == Some(accepted[0]));
    assert(accepted.len() == 0 ==> crate::search::first(accepted, any) is None);
    if !ips.contains(target.ip) {
        if crate::search::first(ips, both) is Some {
            let ip = crate::search::first(ips, both)->0;
            let i = choose|i: int|
                0 <= i < ips.len() && #[trigger] ips[i] == ip && both(ip) && (forall|j: int|
                    0 <= j < i ==> !both(#[trigger] ips[j]));
            assert forall|j: int| 0 <= j < i implies !(allows(restriction, #[trigger] ips[j])
                && ips[j] is V6 == target.ip is V6) by {
                assert(!both(ips[j]));
            }
            assert(allows(restriction, ips[i]));
        } else if crate::search::first(ips, allowed) is Some {
            let ip = crate::search::first(ips, allowed)->0;
            let i = choose|i: int|
                0 <= i < ips.len() && #[trigger] ips[i] == ip && allowed(ip) && (forall|j: int|
                    0 <= j < i ==> !allowed(#[trigger] ips[j]));
            assert(allows(restriction, ips[i]));
            assert(!both(ips[i]));
            assert forall|j: int| 0 <= j < ips.len() implies !(allows(
                restriction,
                #[trigger] ips[j],
            ) && ips[j] is V6 == target.ip is V6) by {
                assert(!both(ips[j]));
            }
            assert forall|j: int| 0 <= j < i implies !allows(restriction, #[trigger] ips[j]) by {
                assert(!allowed(ips[j]));
            }
        } else {
            assert forall|j: int| 0 <= j < ips.len() implies !allows(
                restriction,
                #[trigger] ips[j],
            ) by {
                assert(!allowed(ips[j]));
            }
        }
    }
}

/// A hostname resolves to any address of the answer that is of the family of the
/// target, and to others only where none is; without an answer, or with an empty
/// one, it does not resolve, and the UID of the workload is told.
pub proof fn law_resolve(
    workload: Workload,
    target: SocketAddress,
    answer: Option<Seq<IpAddress>>,
    r: Result<IpAddress, Error>,
)
    ensures
        crate::demand::may_resolve(workload, target, answer, r) <==> match r {
            Ok(ip) => {
                &&& answer matches Some(ips)
                &&& ips.contains(ip)
                &&& ip is V6 == target.ip is V6 || forall|i: int|
                    0 <= i < ips.len() ==> (#[trigger] ips[i]) is V6 != target.ip is V6
            },
            Err(Error::NoResolvedAddresses(uid)) => answer is None && uid == workload.uid,
            Err(Error::EmptyResolvedAddresses(uid)) => (answer matches Some(ips) && ips.len() == 0)
                && uid == workload.uid,
            Err(_) => false,
        },
{
    if answer is Some {
        let ips = answer->0;
        assert(crate::demand::has_family(ips, target.ip) <==> !(forall|i: int|
            0 <= i < ips.len() ==> (#[trigger] ips[i]) is V6 != target.ip is V6));
        if r is Ok {
            if ips.contains(r->Ok_0) {
                let k = choose|k: int| 0 <= k < ips.len() && ips[k] == r->Ok_0;
                assert(ips[k] == r->Ok_0);
            }
        }
    }
}

/// An upstream whose hostname is resolved keeps all but its address, and gets one
/// that the hostname resolves to.
pub proof fn law_pending(
    p: PendingUpstream,
    answer: Option<Seq<IpAddress>>,
    r: Result<Upstream, Error>,
)
    requires
        p.may_become(answer, r),
    ensures
        match r {
            Ok(u) => {
                &&& u.selected_workload_ip is Some
                &&& answer matches Some(ips) && ips.contains(u.selected_workload_ip->0)
                &&& u.workload == p.upstream.workload
                &&& u.port == p.upstream.port
                &&& u.service_sans == p.upstream.service_sans
                &&& u.destination_service == p.upstream.destination_service
                &&& u.original_target == p.upstream.original_target
                &&& u.through_waypoint == p.upstream.through_waypoint
                &&& u.hbone_port == p.upstream.hbone_port
            },
            Err(Error::NoResolvedAddresses(uid)) => answer is None && uid
                == p.upstream.workload.uid,
            Err(Error::EmptyResolvedAddresses(uid)) => (answer matches Some(ips) && ips.len() == 0)
                && uid == p.upstream.workload.uid,
            Err(_) => false,
        },
        answer matches Some(ips) && ips.len() > 0 ==> r is Ok,
        r is Ok && (exists|i: int|
            0 <= i < answer->0.len() && (#[trigger] answer->0[i]) is V6 == p.target.ip is V6)
            ==> r->Ok_0.selected_workload_ip->0 is V6 == p.target.ip is V6,
{
    match r {
        Ok(u) => lemma_resolve(
            &p.upstream.workload,
            p.target,
            answer,
            Ok(u.selected_workload_ip->0),
        ),
        Err(e) => lemma_resolve(&p.upstream.workload, p.target, answer, Err(e)),
    }
}

proof fn lemma_resolve(
    workload: &Workload,
    target: SocketAddress,
    answer: Option<Seq<IpAddress>>,
    r: Result<IpAddress, Error>,
)
    requires
        crate::demand::may_resolve(*workload, target, answer, r),
    ensures
        match r {
            Ok(ip) => {
                &&& answer matches Some(ips)
                &&& ips.contains(ip)
                &&& ip is V6 == target.ip is V6 || forall|i: int|
                    0 <= i < ips.len() ==> (#[trigger] ips[i]) is V6 != target.ip is V6
            },
            Err(Error::NoResolvedAddresses(uid)) => answer is None && uid == workload.uid,
            Err(Error::EmptyResolvedAddresses(uid)) => (answer matches Some(ips) && ips.len() == 0)
                && uid == workload.uid,
            Err(_) => false,
        },
        answer matches Some(ips) && ips.len() > 0 ==> r is Ok,
{
    law_resolve(*workload, target, answer, r);
}

/// `u` is made of what was found: the workload, its port, and the SANs and the
/// names of the service.
pub open spec fn made_of(u: Upstream, found: Found) -> bool {
    &&& u.workload == found.0
    &&& u.port == found.1
    &&& match found.2 {
        Some(s) => {
            &&& u.service_sans@ == s.subject_alt_names@
            &&& u.destination_service matches Some(d) && d.hostname == s.hostname && d.name
                == s.name && d.namespace == s.namespace
        },
        None => u.service_sans@.len() == 0 && u.destination_service is None,
    }
}

/// What was found becomes an upstream for the original target, at the address
/// that the workload is connected to under the restriction of the service, if any.
/// Nothing comes of nothing, and an error of a workload that cannot be connected
/// to.
pub proof fn law_finalized(
    demand: DemandProxyState,
    target: SocketAddress,
    found: Option<Found>,
    original: SocketAddress,
    through_waypoint: bool,
    r: Result<Resolution, Error>,
)
    requires
        demand.finalizes(target, found, original, through_waypoint, r),
    ensures
        found is None ==> r == Ok::<Resolution, Error>(Resolution::Nothing),
        found matches Some(f) ==> {
            let restriction = match f.2 {
                Some(s) => s.ip_families,
                None => None,
            };
            match crate::demand::workload_ip(f.0, target, restriction) {
                Err(e) => r == Err::<Resolution, Error>(e),
                Ok(WorkloadIp::Ip(ip)) => {
                    &&& r matches Ok(Resolution::Ready(u))
                    &&& made_of(u, f)
                    &&& u.selected_workload_ip == Some(ip)
                    &&& u.original_target == original
                    &&& u.through_waypoint == through_waypoint
                    &&& u.hbone_port == demand.hbone_port
                },
                Ok(WorkloadIp::ThroughGateway) => {
                    &&& r matches Ok(Resolution::Ready(u))
                    &&& made_of(u, f)
                    &&& u.selected_workload_ip is None
                    &&& u.original_target == original
                    &&& u.through_waypoint == through_waypoint
                    &&& u.hbone_port == demand.hbone_port
                },
                Ok(WorkloadIp::Resolve) => {
                    &&& r matches Ok(Resolution::Resolve(p))
                    &&& made_of(p.upstream, f)
                    &&& p.target == target
                    &&& p.upstream.selected_workload_ip is None
                    &&& p.upstream.original_target == original
                    &&& p.upstream.through_waypoint == through_waypoint
                    &&& p.upstream.hbone_port == demand.hbone_port
                },
            }
        },
{
}

/// An address that a service serves is resolved through the newest such service;
/// one that none serves is resolved to the newest workload at it, at the port
/// that was asked for; and to nothing only where there is none.
pub proof fn law_find_upstream(
    state: ProxyState,
    network: String,
    source: Workload,
    addr: SocketAddress,
    mode: ServiceResolutionMode,
    r: Option<Found>,
)
    requires
        state.may_find(network, source, addr, mode, r),
    ensures
        ({
            let a = NetworkAddress { network, address: addr.ip };
            let services = state.services.services@;
            let workloads = state.workloads.workloads@;
            if exists|i: int|
                0 <= i < services.len() && crate::laws::lookup::serves(&#[trigger] services[i], a) {
                exists|i: int|
                    {
                        &&& 0 <= i < services.len()
                        &&& crate::laws::lookup::serves(&#[trigger] services[i], a)
                        &&& forall|j: int|
                            i < j < services.len() ==> !crate::laws::lookup::serves(
                                &#[trigger] services[j],
                                a,
                            )
                        &&& state.may_find_from_service(source, addr.port, mode, services[i], r)
                    }
            } else {
                match r {
                    Some(f) => {
                        &&& f.1 == addr.port
                        &&& f.2 is None
                        &&& exists|i: int|
                            {
                                &&& 0 <= i < workloads.len()
                                &&& #[trigger] workloads[i] == f.0
                                &&& crate::laws::lookup::is_at(&f.0, a)
                                &&& forall|j: int|
                                    i < j < workloads.len() ==> !crate::laws::lookup::is_at(
                                        &#[trigger] workloads[j],
                                        a,
                                    )
                            }
                    },
                    None => forall|j: int|
                        0 <= j < workloads.len() ==> !crate::laws::lookup::is_at(
                            &#[trigger] workloads[j],
                            a,
                        ),
                }
            }
        }),
{
    let a = NetworkAddress { network, address: addr.ip };
    let services = state.services.services@;
    let workloads = state.workloads.workloads@;
    crate::laws::lookup::law_vip(state.services, a);
    crate::laws::lookup::law_address(state.workloads, a);
    if state.services.by_vip(a) is Some {
        let s = state.services.by_vip(a)->0;
        let i = choose|i: int|
            {
                &&& 0 <= i < services.len()
                &&& #[trigger] services[i] == s
                &&& crate::laws::lookup::serves(&s, a)
                &&& forall|j: int|
                    i < j < services.len() ==> !crate::laws::lookup::serves(
                        &#[trigger] services[j],
                        a,
                    )
            };
        assert(crate::laws::lookup::serves(&services[i], a));
        assert(state.may_find_from_service(source, addr.port, mode, services[i], r));
    }
}

/// The control plane is asked about an address exactly where neither a workload
/// nor a service is known at it, it can be asked, and was not yet. Otherwise the
/// address is resolved as it is known, for itself as the target, and through no
/// waypoint.
pub proof fn law_fetch_upstream(
    demand: DemandProxyState,
    network: String,
    source: Workload,
    addr: SocketAddress,
    mode: ServiceResolutionMode,
    asked: bool,
    r: Result<Resolution, Error>,
)
    requires
        demand.may_step_to_upstream(network, source, addr, mode, asked, r),
    ensures
        ({
            let a = NetworkAddress { network, address: addr.ip };
            let services = demand.state.services.services@;
            let workloads = demand.state.workloads.workloads@;
            let known = (exists|i: int|
                0 <= i < services.len() && crate::laws::lookup::serves(&#[trigger] services[i], a))
                || (exists|i: int|
                0 <= i < workloads.len() && crate::laws::lookup::is_at(&#[trigger] workloads[i], a));
            if !known && demand.on_demand && !asked {
                r == Ok::<Resolution, Error>(Resolution::Demand(DemandKey::Address(a)))
            } else {
                exists|found: Option<Found>|
                    #[trigger] demand.state.may_find(network, source, addr, mode, found)
                        && demand.finalizes(addr, found, addr, false, r)
            }
        }),
        r matches Ok(Resolution::Ready(u)) ==> u.original_target == addr && !u.through_waypoint,
        r matches Ok(Resolution::Resolve(p)) ==> p.upstream.original_target == addr
            && !p.upstream.through_waypoint,
{
    let a = NetworkAddress { network, address: addr.ip };
    lemma_known(demand, a);
    if !(demand.fetch(Destination::Address(a), asked) is Demand) {
        demand.lemma_upstream(network, source, addr, mode, r);
    }
}

proof fn lemma_known(demand: DemandProxyState, a: NetworkAddress)
    ensures
        ({
            let services = demand.state.services.services@;
            let workloads = demand.state.workloads.workloads@;
            demand.state.at_destination(Destination::Address(a)) is Some <==> (exists|i: int|
                0 <= i < services.len() && crate::laws::lookup::serves(&#[trigger] services[i], a))
                || (exists|i: int|
                0 <= i < workloads.len() && crate::laws::lookup::is_at(&#[trigger] workloads[i], a))
        }),
{
    let services = demand.state.services.services@;
    let workloads = demand.state.workloads.workloads@;
    crate::laws::lookup::law_vip(demand.state.services, a);
    crate::laws::lookup::law_address(demand.state.workloads, a);
    if demand.state.services.by_vip(a) is Some {
        let i = choose|i: int|
            {
                &&& 0 <= i < services.len()
                &&& #[trigger] services[i] == demand.state.services.by_vip(a)->0
                &&& crate::laws::lookup::serves(&demand.state.services.by_vip(a)->0, a)
            };
        assert(crate::laws::lookup::serves(&services[i], a));
    }
    if demand.state.workloads.by_address(a) is Some {
        let i = choose|i: int|
            {
                &&& 0 <= i < workloads.len()
                &&& #[trigger] workloads[i] == demand.state.workloads.by_address(a)->0
                &&& crate::laws::lookup::is_at(&demand.state.workloads.by_address(a)->0, a)
            };
        assert(crate::laws::lookup::is_at(&workloads[i], a));
    }
}

/// What is told where a gateway of this kind is not found.
pub open spec fn is_unknown(kind: GatewayKind, missing: MissingGateway, e: Error) -> bool {
    match kind {
        GatewayKind::Network => e == Error::UnknownNetworkGateway(missing),
        GatewayKind::Waypoint => e == Error::UnknownWaypoint(missing),
    }
}

/// A network gateway is a service that is addressed; a waypoint is not, and need
/// not have the port.
pub open spec fn mode_of(kind: GatewayKind) -> ServiceResolutionMode {
    if kind is Waypoint {
        ServiceResolutionMode::Waypoint
    } else {
        ServiceResolutionMode::Standard
    }
}

/// The address with a port, and nothing else.
pub open spec fn at_port(ip: IpAddress, port: u16) -> SocketAddress {
    SocketAddress { ip, port, flowinfo: 0, scope_id: 0 }
}

/// What was found of a gateway becomes an upstream for the original target, at
/// the address it is connected to at, and through a waypoint exactly where it is
/// one. Where nothing was found, the gateway is told as missing; where nothing is
/// known by its hostname, the hostname is.
pub proof fn law_finalized_gateway(
    demand: DemandProxyState,
    gateway: GatewayAddress,
    original: SocketAddress,
    kind: GatewayKind,
    found: GatewayTarget,
    r: Result<Resolution, Error>,
)
    requires
        demand.finalizes_gateway(gateway, original, kind, found, r),
    ensures
        match found {
            GatewayTarget::Known(Some(f), target) => demand.finalizes(
                target,
                Some(f),
                original,
                kind is Waypoint,
                r,
            ),
            GatewayTarget::Known(None, _) => r matches Err(e) && is_unknown(
                kind,
                MissingGateway::Gateway(gateway),
                e,
            ),
            GatewayTarget::Unknown(hostname) => r matches Err(e) && is_unknown(
                kind,
                MissingGateway::Hostname(hostname),
                e,
            ),
        },
{
}

/// A gateway with a hostname is the service with it, or else the workload with
/// it, connected to in the family of the caller. One with an address is what is
/// at that address, connected to in the family of that address. It is reached at
/// its HBONE port, for the original target, and through a waypoint exactly where
/// it is one. Where it leads to nothing, that is an error.
pub proof fn law_gateway(
    demand: DemandProxyState,
    gateway: GatewayAddress,
    source: Workload,
    original: SocketAddress,
    kind: GatewayKind,
    r: Result<Resolution, Error>,
)
    requires
        demand.may_fetch_gateway(gateway, source, original, kind, r),
    ensures
        match gateway.destination {
            Destination::Hostname(name) => match demand.state.at_destination(
                Destination::Hostname(name),
            ) {
                None => r matches Err(e) && is_unknown(
                    kind,
                    MissingGateway::Hostname(name.hostname),
                    e,
                ),
                Some(Address::Workload(w)) => demand.finalizes(
                    original,
                    Some((w, gateway.hbone_mtls_port, None::<Arc<Service>>)),
                    original,
                    kind is Waypoint,
                    r,
                ),
                Some(Address::Service(s)) => exists|found: Option<Found>|
                    {
                        &&& #[trigger] demand.state.may_find_from_service(
                            source,
                            gateway.hbone_mtls_port,
                            mode_of(kind),
                            s,
                            found,
                        )
                        &&& found is Some ==> demand.finalizes(
                            original,
                            found,
                            original,
                            kind is Waypoint,
                            r,
                        )
                        &&& found is None ==> (r matches Err(e) && is_unknown(
                            kind,
                            MissingGateway::Gateway(gateway),
                            e,
                        ))
                    },
            },
            Destination::Address(a) => exists|found: Option<Found>|
                {
                    &&& #[trigger] demand.state.may_find(
                        a.network,
                        source,
                        at_port(a.address, gateway.hbone_mtls_port),
                        mode_of(kind),
                        found,
                    )
                    &&& found is Some ==> demand.finalizes(
                        at_port(a.address, gateway.hbone_mtls_port),
                        found,
                        original,
                        kind is Waypoint,
                        r,
                    )
                    &&& found is None ==> (r matches Err(e) && is_unknown(
                        kind,
                        MissingGateway::Gateway(gateway),
                        e,
                    ))
                },
        },
{
    let found = choose|found: GatewayTarget|
        #[trigger] demand.may_find_gateway(gateway, source, original, kind.mode(), found)
            && demand.finalizes_gateway(gateway, original, kind, found, r);
    assert(kind.mode() == mode_of(kind));
    match gateway.destination {
        Destination::Hostname(name) => {
            if demand.state.at_hostname(name) is Some && demand.state.at_hostname(
                name,
            )->0 is Service {
                let s = demand.state.at_hostname(name)->0->Service_0;
                assert(demand.state.may_find_from_service(
                    source,
                    gateway.hbone_mtls_port,
                    mode_of(kind),
                    s,
                    found->Known_0,
                ));
            }
        },
        Destination::Address(a) => {
            let addr = at_port(a.address, gateway.hbone_mtls_port);
            assert(demand.state.may_find(a.network, source, addr, mode_of(kind), found->Known_0));
        },
    }
}

/// The gateway refers to this service.
pub open spec fn refers_to(state: ProxyState, gateway: GatewayAddress, s: Arc<Service>) -> bool {
    match gateway.destination {
        Destination::Hostname(name) => state.at_destination(gateway.destination) == Some(
            Address::Service(s),
        ),
        Destination::Address(a) => state.services.by_vip(a) == Some(s),
    }
}

/// A waypoint is found wherever its service has an endpoint whose workload is
/// known, can be connected to and fits the policy, if its HBONE port is one of
/// the service, or the workload has an application tunnel; given that the
/// workloads of the service have capacity, and a port to go to.
pub proof fn law_waypoint_owed(
    demand: DemandProxyState,
    gateway: GatewayAddress,
    source: Workload,
    original: SocketAddress,
    s: Arc<Service>,
    i: int,
    w: Arc<Workload>,
    r: Result<Resolution, Error>,
)
    requires
        demand.may_fetch_gateway(gateway, source, original, GatewayKind::Waypoint, r),
        demand.state.workloads.wf(),
        refers_to(*demand.state, gateway, s),
        0 <= i < s.endpoints.inner@.len() <= u32::MAX,
        demand.state.workloads.workloads@.contains(w),
        w.uid@ == s.endpoints.inner@[i].workload_uid@,
        crate::laws::balancing::connectable(&source, &w),
        s.ports@.contains_key(gateway.hbone_mtls_port) || w.application_tunnel is Some,
        (Ranking { source, service: *s }).rank(&w) is Some,
        forall|j: int, v: Arc<Workload>|
            0 <= j < s.endpoints.inner@.len()
                && #[trigger] demand.state.workloads.workloads@.contains(v) && v.uid@ == (
            #[trigger] s.endpoints.inner@[j]).workload_uid@ ==> v.capacity > 0 && exists|p: u16|
                crate::laws::balancing::goes_to(
                    &s.endpoints.inner@[j],
                    &v,
                    &s,
                    gateway.hbone_mtls_port,
                    p,
                ),
    ensures
        !(r matches Err(Error::UnknownWaypoint(_))),
        !(r matches Ok(Resolution::Nothing)),
        r matches Ok(Resolution::Ready(u)) ==> u.through_waypoint && u.original_target == original,
        r matches Ok(Resolution::Resolve(p)) ==> p.upstream.through_waypoint
            && p.upstream.original_target == original,
{
    law_gateway(demand, gateway, source, original, GatewayKind::Waypoint, r);
    demand.lemma_gateway(gateway, source, original, GatewayKind::Waypoint, r);
    crate::laws::balancing::law_resolved_owed(
        *demand.state,
        source,
        gateway.hbone_mtls_port,
        ServiceResolutionMode::Waypoint,
        s,
        i,
        w,
    );
}

/// A network gateway is not found where its service does not have the HBONE port,
/// whatever its endpoints say.
pub proof fn law_network_gateway_port(
    demand: DemandProxyState,
    gateway: GatewayAddress,
    source: Workload,
    original: SocketAddress,
    s: Arc<Service>,
    r: Result<Resolution, Error>,
)
    requires
        demand.may_fetch_gateway(gateway, source, original, GatewayKind::Network, r),
        demand.state.workloads.wf(),
        refers_to(*demand.state, gateway, s),
        !s.ports@.contains_key(gateway.hbone_mtls_port),
    ensures
        r == Err::<Resolution, Error>(
            Error::UnknownNetworkGateway(MissingGateway::Gateway(gateway)),
        ),
{
    law_gateway(demand, gateway, source, original, GatewayKind::Network, r);
    let port = gateway.hbone_mtls_port;
    let standard = ServiceResolutionMode::Standard;
    assert forall|found: Option<Found>| #[trigger]
        demand.state.may_find_from_service(source, port, standard, s, found) implies found is None by {
        crate::laws::balancing::law_unknown_port(*demand.state, source, port, s, found);
    }
}

/// Where no waypoint is configured there is nothing to resolve; where one is, it
/// is resolved as a waypoint.
pub proof fn law_configured_waypoint(
    demand: DemandProxyState,
    waypoint: Option<GatewayAddress>,
    source: Workload,
    original: SocketAddress,
    r: Result<Resolution, Error>,
)
    requires
        demand.may_fetch_waypoint(waypoint, source, original, r),
    ensures
        waypoint is None <==> r == Ok::<Resolution, Error>(Resolution::Nothing),
        waypoint is Some ==> demand.may_fetch_gateway(
            waypoint->0,
            source,
            original,
            GatewayKind::Waypoint,
            r,
        ),
{
    if waypoint is Some {
        demand.lemma_gateway(waypoint->0, source, original, GatewayKind::Waypoint, r);
    }
}

/// An address of a service is resolved to something wherever one of the endpoints
/// of the service has a workload that is known, can be connected to, and fits the
/// policy, if the service has the port, and tells where it goes, or the endpoint
/// does; given that the workloads of the service have capacity.
pub proof fn law_upstream_owed(
    demand: DemandProxyState,
    network: String,
    source: Workload,
    addr: SocketAddress,
    asked: bool,
    s: Arc<Service>,
    i: int,
    w: Arc<Workload>,
    r: Result<Resolution, Error>,
)
    requires
        demand.may_step_to_upstream(
            network,
            source,
            addr,
            ServiceResolutionMode::Standard,
            asked,
            r,
        ),
        demand.state.workloads.wf(),
        demand.state.services.by_vip(NetworkAddress { network, address: addr.ip }) == Some(s),
        0 <= i < s.endpoints.inner@.len() <= u32::MAX,
        demand.state.workloads.workloads@.contains(w),
        w.uid@ == s.endpoints.inner@[i].workload_uid@,
        crate::laws::balancing::connectable(&source, &w),
        s.ports@.contains_key(addr.port),
        s.ports@[addr.port] != 0 || s.endpoints.inner@[i].port@.contains_key(addr.port),
        (Ranking { source, service: *s }).rank(&w) is Some,
        forall|j: int, v: Arc<Workload>|
            0 <= j < s.endpoints.inner@.len()
                && #[trigger] demand.state.workloads.workloads@.contains(v) && v.uid@ == (
            #[trigger] s.endpoints.inner@[j]).workload_uid@ ==> v.capacity > 0,
    ensures
        match r {
            Ok(Resolution::Ready(u)) => u.destination_service is Some,
            Ok(Resolution::Resolve(p)) => p.upstream.destination_service is Some,
            Ok(_) => false,
            Err(e) => e is NoValidDestination,
        },
{
    let standard = ServiceResolutionMode::Standard;
    let a = NetworkAddress { network, address: addr.ip };
    crate::laws::balancing::law_resolved_owed(
        *demand.state,
        source,
        addr.port,
        standard,
        s,
        i,
        w,
    );
    let found = choose|found: Option<Found>|
        #[trigger] demand.state.may_find(network, source, addr, standard, found)
            && demand.finalizes(addr, found, addr, false, r);
    assert(demand.state.may_find_from_service(source, addr.port, standard, s, found));
    crate::laws::balancing::law_resolved(
        *demand.state,
        source,
        addr.port,
        standard,
        s,
        found->0,
    );
    demand.lemma_upstream(network, source, addr, standard, r);
}

/// A connection goes to the IP that was selected, and nowhere where none was. It
/// goes to the HBONE port exactly where it goes to another proxy: over HBONE, and
/// through no waypoint.
pub proof fn law_connects_to(u: Upstream)
    ensures
        u.selected_workload_ip is None <==> u.connects_to() is None,
        u.connects_to() matches Some(a) ==> {
            &&& Some(a.ip) == u.selected_workload_ip
            &&& a.flowinfo == 0 && a.scope_id == 0
            &&& u.workload.protocol == InboundProtocol::HBONE && !u.through_waypoint ==> a.port
                == u.hbone_port
            &&& u.workload.protocol == InboundProtocol::TCP || u.through_waypoint ==> a.port
                == u.port
        },
{
}

/// Through a waypoint the original target is asked for. Otherwise a workload that
/// takes HBONE is asked for by its own address and port, which has to be known;
/// one that takes TCP is not asked for by HBONE at all.
pub proof fn law_hbone_target(u: Upstream)
    ensures
        u.through_waypoint ==> u.hbone_target() == Ok::<Option<HboneAddress>, Error>(
            Some(HboneAddress::SocketAddr(u.original_target)),
        ),
        !u.through_waypoint && u.workload.protocol == InboundProtocol::TCP ==> u.hbone_target()
            == Ok::<Option<HboneAddress>, Error>(None),
        !u.through_waypoint && u.workload.protocol == InboundProtocol::HBONE ==> match u.hbone_target() {
            Ok(Some(HboneAddress::SocketAddr(a))) => Some(a.ip) == u.selected_workload_ip && a.port
                == u.port && a.flowinfo == 0 && a.scope_id == 0,
            Ok(None) => false,
            Err(e) => u.selected_workload_ip is None && e == Error::NoValidDestination(u.workload),
        },
{
}

} // verus!
