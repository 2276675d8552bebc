//! Resolving addresses, services and gateways to upstreams.

use std::sync::Arc;

use vstd::prelude::*;

use crate::address::{network_addr, Destination, GatewayAddress, IpAddress, IpFamily, SocketAddress};
use crate::demand::{resolve_dns, DemandKey, DemandProxyState, Fetch, WorkloadIp};
use crate::error::{Error, MissingGateway};
use crate::service::{Service, ServiceDescription};
use crate::state::{Address, ServiceResolutionMode};
use crate::text::clone_strings;
use crate::upstream::Upstream;
use crate::workload::Workload;

verus! {

/// What an address or a service was resolved to: a workload, its port, and the
/// service it was resolved from.
pub type Found = (Arc<Workload>, u16, Option<Arc<Service>>);

/// An upstream that lacks the address its workload's hostname resolves to.
#[derive(Debug, PartialEq, Eq)]
pub struct PendingUpstream {
    /// The upstream, without an address.
    pub upstream: Upstream,
    /// The address whose family is preferred.
    pub target: SocketAddress,
}

impl PendingUpstream {
    /// `r` may come out of resolving the hostname of the workload: the upstream
    /// at an address that may be picked out of the answer.
    pub open spec fn may_become(
        self,
        answer: Option<Seq<IpAddress>>,
        r: Result<Upstream, Error>,
    ) -> bool {
        let w = *self.upstream.workload;
        match r {
            Ok(u) => {
                &&& u.selected_workload_ip matches Some(ip)
                &&& crate::demand::may_resolve(w, self.target, answer, Ok(ip))
                &&& u == (Upstream { selected_workload_ip: Some(ip), ..self.upstream })
            },
            Err(e) => crate::demand::may_resolve(w, self.target, answer, Err(e)),
        }
    }

    /// The upstream at an address that the hostname of its workload resolved to;
    /// no answer means that resolving failed.
    pub fn resolve(self, answer: Option<Vec<IpAddress>>) -> (r: Result<Upstream, Error>)
        ensures
            self.may_become(crate::demand::addresses(answer), r),
    {
        match resolve_dns(&self.upstream.workload, self.target, answer) {
            Ok(ip) => {
                let mut upstream = self.upstream;
                upstream.selected_workload_ip = Some(ip);
                Ok(upstream)
            },
            Err(e) => Err(e),
        }
    }
}

/// A step in resolving an upstream.
#[derive(Debug, PartialEq, Eq)]
pub enum Resolution {
    /// The control plane has to be asked first, and the step repeated when it
    /// has answered.
    Demand(DemandKey),
    /// There is none.
    Nothing,
    Ready(Upstream),
    /// The hostname of the workload has to be resolved.
    Resolve(PendingUpstream),
}

/// The family restriction of the service that something was resolved from.
pub open spec fn restriction_of(found: Found) -> Option<IpFamily> {
    match found.2 {
        Some(s) => s.ip_families,
        None => None,
    }
}

/// What a gateway refers to.
#[derive(Debug, PartialEq, Eq)]
pub enum GatewayTarget {
    /// Nothing is known by this hostname.
    Unknown(String),
    /// What the gateway was resolved to, and the address it is connected to at.
    Known(Option<Found>, SocketAddress),
}

/// What kind of gateway is looked for.
#[derive(Clone, Copy, Debug, PartialEq, Eq, Structural)]
pub enum GatewayKind {
    Network,
    Waypoint,
}

impl GatewayKind {
    pub open spec fn mode(self) -> ServiceResolutionMode {
        match self {
            GatewayKind::Network => ServiceResolutionMode::Standard,
            GatewayKind::Waypoint => ServiceResolutionMode::Waypoint,
        }
    }

    pub open spec fn unknown(self, missing: MissingGateway) -> Error {
        match self {
            GatewayKind::Network => Error::UnknownNetworkGateway(missing),
            GatewayKind::Waypoint => Error::UnknownWaypoint(missing),
        }
    }

    fn error(self, missing: MissingGateway) -> (r: Error)
        ensures
            r == self.unknown(missing),
    {
        match self {
            GatewayKind::Network => Error::UnknownNetworkGateway(missing),
            GatewayKind::Waypoint => Error::UnknownWaypoint(missing),
        }
    }
}

impl<'a> DemandProxyState<'a> {
    /// `u` is the upstream of what was found, at the address `ip`.
    pub open spec fn is_upstream(
        self,
        u: Upstream,
        found: Found,
        ip: Option<IpAddress>,
        original_target: SocketAddress,
        through_waypoint: bool,
    ) -> bool {
        &&& u.workload == found.0
        &&& u.selected_workload_ip == ip
        &&& u.port == found.1
        &&& match found.2 {
            Some(s) => {
                &&& u.service_sans@ == s.subject_alt_names@
                &&& u.destination_service matches Some(d) && d.describes(*s)
            },
            None => u.service_sans@.len() == 0 && u.destination_service is None,
        }
        &&& u.original_target == original_target
        &&& u.through_waypoint == through_waypoint
        &&& u.hbone_port == self.hbone_port
    }

    /// `r` comes out of finalizing what was found, for a connection to `target`.
    pub open spec fn finalizes(
        self,
        target: SocketAddress,
        found: Option<Found>,
        original_target: SocketAddress,
        through_waypoint: bool,
        r: Result<Resolution, Error>,
    ) -> bool {
        match found {
            None => r == Ok::<Resolution, Error>(Resolution::Nothing),
            Some(f) => match crate::demand::workload_ip(f.0, target, restriction_of(f)) {
                Err(e) => r == Err::<Resolution, Error>(e),
                Ok(WorkloadIp::Ip(ip)) => r matches Ok(Resolution::Ready(u)) && self.is_upstream(
                    u,
                    f,
                    Some(ip),
                    original_target,
                    through_waypoint,
                ),
                Ok(WorkloadIp::ThroughGateway) => r matches Ok(Resolution::Ready(u))
                    && self.is_upstream(u, f, None, original_target, through_waypoint),
                Ok(WorkloadIp::Resolve) => r matches Ok(Resolution::Resolve(p)) && p.target
                    == target && self.is_upstream(
                    p.upstream,
                    f,
                    None,
                    original_target,
                    through_waypoint,
                ),
            },
        }
    }

    /// The upstream of what was found, for a connection to `target`.
    pub fn finalize_upstream(
        &self,
        target: SocketAddress,
        found: Option<Found>,
        original_target: SocketAddress,
        through_waypoint: bool,
    ) -> (r: Result<Resolution, Error>)
        ensures
            self.finalizes(target, found, original_target, through_waypoint, r),
    {
        let (workload, port, service) = match found {
            Some(found) => found,
            None => return Ok(Resolution::Nothing),
        };
        let restriction: Option<IpFamily> = match &service {
            Some(s) => s.ip_families,
            None => None,
        };
        let ip = match self.pick_workload_destination_or_resolve(&workload, target, restriction) {
            Ok(ip) => ip,
            Err(e) => return Err(e),
        };
        let mut service_sans: Vec<String> = Vec::new();
        let mut destination_service: Option<ServiceDescription> = None;
        if let Some(s) = &service {
            destination_service = Some(ServiceDescription::of(s));
            service_sans = clone_strings(&s.subject_alt_names);
        }
        let mut upstream = Upstream {
            workload,
            selected_workload_ip: None,
            port,
            service_sans,
            destination_service,
            original_target,
            through_waypoint,
            hbone_port: self.hbone_port,
        };
        match ip {
            WorkloadIp::Ip(ip) => {
                upstream.selected_workload_ip = Some(ip);
                Ok(Resolution::Ready(upstream))
            },
            WorkloadIp::ThroughGateway => Ok(Resolution::Ready(upstream)),
            WorkloadIp::Resolve => Ok(Resolution::Resolve(PendingUpstream { upstream, target })),
        }
    }

    /// `r` may come out of resolving an address to an upstream.
    pub open spec fn may_fetch_upstream(
        self,
        network: String,
        source: Workload,
        addr: SocketAddress,
        mode: ServiceResolutionMode,
        r: Result<Resolution, Error>,
    ) -> bool {
        exists|found: Option<Found>|
            #[trigger] self.state.may_find(network, source, addr, mode, found) && self.finalizes(
                addr,
                found,
                addr,
                false,
                r,
            )
    }

    /// `r` may come out of a step in resolving an address to an upstream.
    pub open spec fn may_step_to_upstream(
        self,
        network: String,
        source: Workload,
        addr: SocketAddress,
        mode: ServiceResolutionMode,
        asked: bool,
        r: Result<Resolution, Error>,
    ) -> bool {
        match self.fetch(
            Destination::Address(
                crate::address::NetworkAddress { network, address: addr.ip },
            ),
            asked,
        ) {
            Fetch::Demand(key) => r == Ok::<Resolution, Error>(Resolution::Demand(key)),
            Fetch::Done(_) => self.may_fetch_upstream(network, source, addr, mode, r),
        }
    }

    /// Resolves an address to an upstream. Where nothing is known at the address
    /// the control plane is asked first; `asked` tells whether it was already.
    pub fn fetch_upstream(
        &self,
        network: String,
        source: &Workload,
        addr: SocketAddress,
        mode: ServiceResolutionMode,
        asked: bool,
    ) -> (r: Result<Resolution, Error>)
        ensures
            self.may_step_to_upstream(network, *source, addr, mode, asked, r),
            match self.fetch(
                Destination::Address(
                    (crate::address::NetworkAddress { network, address: addr.ip }),
                ),
                asked,
            ) {
                Fetch::Demand(key) => r == Ok::<Resolution, Error>(Resolution::Demand(key)),
                Fetch::Done(_) => self.may_fetch_upstream(network, *source, addr, mode, r),
            },
    {
        let at = network_addr(network.clone(), addr.ip);
        if let Fetch::Demand(key) = self.fetch_address(&at, asked) {
            return Ok(Resolution::Demand(key));
        }
        let found = self.state.find_upstream(network, source, addr, mode);
        self.finalize_upstream(addr, found, addr, false)
    }

    /// `r` may come out of looking for a gateway.
    pub open spec fn may_find_gateway(
        self,
        gateway: GatewayAddress,
        source: Workload,
        original: SocketAddress,
        mode: ServiceResolutionMode,
        r: GatewayTarget,
    ) -> bool {
        match gateway.destination {
            Destination::Address(a) => {
                let addr = SocketAddress::plain(a.address, gateway.hbone_mtls_port);
                &&& r matches GatewayTarget::Known(found, target)
                &&& target == addr
                &&& self.state.may_find(a.network, source, addr, mode, found)
            },
            Destination::Hostname(name) => match self.state.at_hostname(name) {
                Some(Address::Service(s)) => {
                    &&& r matches GatewayTarget::Known(found, target)
                    &&& target == original
                    &&& self.state.may_find_from_service(
                        source,
                        gateway.hbone_mtls_port,
                        mode,
                        s,
                        found,
                    )
                },
                Some(Address::Workload(w)) => {
                    &&& r matches GatewayTarget::Known(found, target)
                    &&& target == original
                    &&& found == Some((w, gateway.hbone_mtls_port, None::<Arc<Service>>))
                },
                None => r == GatewayTarget::Unknown(name.hostname),
            },
        }
    }

    /// Looks for a gateway. It can be referred to by an IP or by a hostname. An
    /// IP is the destination, also where the request came over the other
    /// family; with a hostname, which is preferred, the family of the caller can
    /// be kept.
    fn find_gateway(
        &self,
        gateway: &GatewayAddress,
        source: &Workload,
        original: SocketAddress,
        mode: ServiceResolutionMode,
    ) -> (r: GatewayTarget)
        ensures
            self.may_find_gateway(*gateway, *source, original, mode, r),
    {
        match &gateway.destination {
            Destination::Address(a) => {
                let addr = SocketAddress::new(a.address, gateway.hbone_mtls_port);
                let found = self.state.find_upstream(a.network.clone(), source, addr, mode);
                GatewayTarget::Known(found, addr)
            },
            Destination::Hostname(name) => match self.state.find_hostname(name) {
                Some(Address::Service(s)) => {
                    let found = self.state.find_upstream_from_service(
                        source,
                        gateway.hbone_mtls_port,
                        mode,
                        s,
                    );
                    GatewayTarget::Known(found, original)
                },
                Some(Address::Workload(w)) => GatewayTarget::Known(
                    Some((w, gateway.hbone_mtls_port, None)),
                    original,
                ),
                None => GatewayTarget::Unknown(name.hostname.clone()),
            },
        }
    }

    /// `r` comes out of what was found of a gateway: its upstream, or an error
    /// where there is none.
    pub open spec fn finalizes_gateway(
        self,
        gateway: GatewayAddress,
        original: SocketAddress,
        kind: GatewayKind,
        found: GatewayTarget,
        r: Result<Resolution, Error>,
    ) -> bool {
        match found {
            GatewayTarget::Known(Some(f), target) => self.finalizes(
                target,
                Some(f),
                original,
                kind == GatewayKind::Waypoint,
                r,
            ),
            GatewayTarget::Known(None, _) => r == Err::<Resolution, Error>(
                kind.unknown(MissingGateway::Gateway(gateway)),
            ),
            GatewayTarget::Unknown(hostname) => r == Err::<Resolution, Error>(
                kind.unknown(MissingGateway::Hostname(hostname)),
            ),
        }
    }

    /// The upstream of what was found of a gateway.
    pub fn finalize_gateway(
        &self,
        gateway: &GatewayAddress,
        original: SocketAddress,
        kind: GatewayKind,
        found: GatewayTarget,
    ) -> (r: Result<Resolution, Error>)
        ensures
            self.finalizes_gateway(*gateway, original, kind, found, r),
    {
        match found {
            GatewayTarget::Known(Some(f), target) => self.finalize_upstream(
                target,
                Some(f),
                original,
                kind == GatewayKind::Waypoint,
            ),
            GatewayTarget::Known(None, _) => Err(kind.error(MissingGateway::Gateway(gateway.clone()))),
            GatewayTarget::Unknown(hostname) => Err(
                kind.error(MissingGateway::Hostname(hostname)),
            ),
        }
    }

    /// `r` may come out of resolving a gateway of this kind.
    pub open spec fn may_fetch_gateway(
        self,
        gateway: GatewayAddress,
        source: Workload,
        original: SocketAddress,
        kind: GatewayKind,
        r: Result<Resolution, Error>,
    ) -> bool {
        exists|found: GatewayTarget|
            #[trigger] self.may_find_gateway(gateway, source, original, kind.mode(), found)
                && self.finalizes_gateway(gateway, original, kind, found, r)
    }

    /// Whatever a gateway is resolved to keeps the original target, and is
    /// through a waypoint exactly where a waypoint was looked for. A gateway
    /// that cannot be resolved is an error.
    pub proof fn lemma_gateway(
        self,
        gateway: GatewayAddress,
        source: Workload,
        original: SocketAddress,
        kind: GatewayKind,
        r: Result<Resolution, Error>,
    )
        requires
            self.may_fetch_gateway(gateway, source, original, kind, r),
        ensures
            match r {
                Ok(Resolution::Ready(u)) => u.original_target == original && u.through_waypoint == (
                kind == GatewayKind::Waypoint) && u.hbone_port == self.hbone_port,
                Ok(Resolution::Resolve(p)) => p.upstream.original_target == original
                    && p.upstream.through_waypoint == (kind == GatewayKind::Waypoint)
                    && p.upstream.hbone_port == self.hbone_port,
                Ok(_) => false,
                Err(e) => e is NoValidDestination || e == kind.unknown(
                    MissingGateway::Gateway(gateway),
                ) || (gateway.destination matches Destination::Hostname(name) && e == kind.unknown(
                    MissingGateway::Hostname(name.hostname),
                )),
            },
    {
    }

    /// Whatever an address is resolved to keeps that address as its target, and
    /// is through no waypoint.
    pub proof fn lemma_upstream(
        self,
        network: String,
        source: Workload,
        addr: SocketAddress,
        mode: ServiceResolutionMode,
        r: Result<Resolution, Error>,
    )
        requires
            self.may_fetch_upstream(network, source, addr, mode, r),
        ensures
            match r {
                Ok(Resolution::Ready(u)) => u.original_target == addr && !u.through_waypoint,
                Ok(Resolution::Resolve(p)) => p.upstream.original_target == addr
                    && !p.upstream.through_waypoint,
                Ok(Resolution::Nothing) => true,
                Ok(Resolution::Demand(_)) => false,
                Err(e) => e is NoValidDestination,
            },
    {
    }

    /// The upstream for connecting to a remote workload through a network
    /// gateway.
    pub fn fetch_network_gateway(
        &self,
        gateway: &GatewayAddress,
        source: &Workload,
        original: SocketAddress,
    ) -> (r: Result<Resolution, Error>)
        ensures
            self.may_fetch_gateway(*gateway, *source, original, GatewayKind::Network, r),
    {
        let found = self.find_gateway(gateway, source, original, ServiceResolutionMode::Standard);
        self.finalize_gateway(gateway, original, GatewayKind::Network, found)
    }

    /// The upstream for connecting through a waypoint.
    pub fn fetch_waypoint(
        &self,
        gateway: &GatewayAddress,
        source: &Workload,
        original: SocketAddress,
    ) -> (r: Result<Resolution, Error>)
        ensures
            self.may_fetch_gateway(*gateway, *source, original, GatewayKind::Waypoint, r),
    {
        let found = self.find_gateway(gateway, source, original, ServiceResolutionMode::Waypoint);
        self.finalize_gateway(gateway, original, GatewayKind::Waypoint, found)
    }

    /// `r` may come out of resolving a waypoint, where one is configured.
    pub open spec fn may_fetch_waypoint(
        self,
        waypoint: Option<GatewayAddress>,
        source: Workload,
        original: SocketAddress,
        r: Result<Resolution, Error>,
    ) -> bool {
        match waypoint {
            Some(gateway) => self.may_fetch_gateway(
                gateway,
                source,
                original,
                GatewayKind::Waypoint,
                r,
            ),
            None => r == Ok::<Resolution, Error>(Resolution::Nothing),
        }
    }

    /// The upstream for connecting through the waypoint of a service, where it
    /// has one.
    pub fn fetch_service_waypoint(
        &self,
        service: &Service,
        source: &Workload,
        original: SocketAddress,
    ) -> (r: Result<Resolution, Error>)
        ensures
            self.may_fetch_waypoint(service.waypoint, *source, original, r),
            match service.waypoint {
                Some(gateway) => self.may_fetch_gateway(
                    gateway,
                    *source,
                    original,
                    GatewayKind::Waypoint,
                    r,
                ),
                None => r == Ok::<Resolution, Error>(Resolution::Nothing),
            },
    {
        match &service.waypoint {
            Some(gateway) => self.fetch_waypoint(gateway, source, original),
            None => Ok(Resolution::Nothing),
        }
    }

    /// The upstream for connecting through the waypoint of a workload, where it
    /// has one.
    pub fn fetch_workload_waypoint(
        &self,
        workload: &Workload,
        source: &Workload,
        original: SocketAddress,
    ) -> (r: Result<Resolution, Error>)
        ensures
            self.may_fetch_waypoint(workload.waypoint, *source, original, r),
            match workload.waypoint {
                Some(gateway) => self.may_fetch_gateway(
                    gateway,
                    *source,
                    original,
                    GatewayKind::Waypoint,
                    r,
                ),
                None => r == Ok::<Resolution, Error>(Resolution::Nothing),
            },
    {
        match &workload.waypoint {
            Some(gateway) => self.fetch_waypoint(gateway, source, original),
            None => Ok(Resolution::Nothing),
        }
    }
}

} // verus!
