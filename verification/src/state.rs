//! What the proxy knows, and what can be looked up in it.

use std::sync::Arc;

use vstd::prelude::*;

use crate::address::{network_addr, Destination, NamespacedHostname, NetworkAddress, SocketAddress};
use crate::error::Error;
use crate::picker::{Candidate, EndpointPicker, Ranking};
use crate::policy::PolicyStore;
use crate::service::{Endpoint, Service, ServiceStore};
use crate::workload::{Workload, WorkloadStore};

verus! {

broadcast use vstd::std_specs::hash::group_hash_axioms;

/// What an address or a name stands for.
#[derive(Debug, PartialEq, Eq)]
pub enum Address {
    Workload(Arc<Workload>),
    Service(Arc<Service>),
}

/// What a service is resolved for.
#[derive(Clone, Copy, Debug, PartialEq, Eq, Structural)]
pub enum ServiceResolutionMode {
    /// A normal service is resolved.
    Standard,
    /// A waypoint proxy is resolved.
    Waypoint,
}

/// The current state information for this proxy.
#[derive(Debug)]
pub struct ProxyState {
    pub workloads: WorkloadStore,
    pub services: ServiceStore,
    pub policies: PolicyStore,
}

/// The port of `workload` that serves `port` of `service`: the one that the
/// endpoint maps it to; or else the one that the service maps it to, unless that
/// is zero; or else, where the workload has an application tunnel with a port,
/// the service port itself.
pub open spec fn translated_port(
    endpoint: Endpoint,
    workload: Workload,
    service: Service,
    port: u16,
) -> Option<u16> {
    if endpoint.port@.contains_key(port) {
        Some(endpoint.port@[port])
    } else if service.ports@.contains_key(port) && service.ports@[port] > 0 {
        Some(service.ports@[port])
    } else if workload.application_tunnel matches Some(t) && t.port is Some {
        Some(port)
    } else {
        None
    }
}

/// `workload` can be reached from `source`: it has an address, or a gateway
/// leads to it. A gateway is never used within one network.
pub open spec fn reachable(source: Workload, workload: Workload) -> bool {
    workload.has_any_address() || (workload.network@ != source.network@
        && workload.network_gateway is Some)
}

/// Whether `workload` can be reached from `source`.
pub fn is_reachable(source: &Workload, workload: &Workload) -> (r: bool)
    ensures
        r == reachable(*source, *workload),
{
    let in_network = workload.network == source.network;
    let has_network_gateway = workload.network_gateway.is_some();
    let has_address = workload.workload_ips.len() > 0 || !workload.hostname.as_str().is_empty();
    has_address || (!in_network && has_network_gateway)
}

/// The port of `workload` that serves `port` of `service`.
pub fn translate_port(
    endpoint: &Endpoint,
    workload: &Workload,
    service: &Service,
    port: u16,
) -> (r: Option<u16>)
    ensures
        r == translated_port(*endpoint, *workload, *service, port),
{
    if let Some(p) = endpoint.port.get(&port) {
        return Some(*p);
    }
    let service_target_port: u16 = match service.get_target_port(port) {
        Some(p) => p,
        None => 0,
    };
    if service_target_port > 0 {
        return Some(service_target_port);
    }
    match &workload.application_tunnel {
        Some(t) => if t.port.is_some() {
            Some(port)
        } else {
            None
        },
        None => None,
    }
}

/// In standard mode an endpoint that fits always has a port to go to.
pub proof fn lemma_standard_port(
    endpoint: Endpoint,
    workload: Workload,
    service: Service,
    port: u16,
)
    requires
        ProxyState::port_fits(service, port, ServiceResolutionMode::Standard, endpoint, workload),
    ensures
        translated_port(endpoint, workload, service, port) is Some,
{
}

/// An endpoint that fits as a waypoint has a port to go to, unless the endpoint
/// does not tell one, and the service leaves it to the endpoint or does not have
/// the port, and the application tunnel, if there is one, has no port.
pub proof fn lemma_waypoint_port(
    endpoint: Endpoint,
    workload: Workload,
    service: Service,
    port: u16,
)
    requires
        ProxyState::port_fits(service, port, ServiceResolutionMode::Waypoint, endpoint, workload),
    ensures
        translated_port(endpoint, workload, service, port) is None <==> {
            &&& !endpoint.port@.contains_key(port)
            &&& workload.application_tunnel matches Some(t) ==> t.port is None
            &&& match service.target_port(port) {
                Some(p) => p == 0,
                None => workload.application_tunnel is Some,
            }
        },
{
}

impl ProxyState {
    pub open spec fn wf(self) -> bool {
        self.workloads.wf() && self.services.wf() && self.policies.wf()
    }

    /// What is known at an address: a workload, or else a service.
    pub open spec fn at_address(self, a: NetworkAddress) -> Option<Address> {
        match self.workloads.by_address(a) {
            Some(w) => Some(Address::Workload(w)),
            None => match self.services.by_vip(a) {
                Some(s) => Some(Address::Service(s)),
                None => None,
            },
        }
    }

    /// What is known by a hostname: a service, or else a workload.
    pub open spec fn at_hostname(self, name: NamespacedHostname) -> Option<Address> {
        match self.services.by_name(name) {
            Some(s) => Some(Address::Service(s)),
            None => match self.workloads.by_host(name) {
                Some(w) => Some(Address::Workload(w)),
                None => None,
            },
        }
    }

    /// What is known at a destination.
    pub open spec fn at_destination(self, dest: Destination) -> Option<Address> {
        match dest {
            Destination::Address(a) => self.at_address(a),
            Destination::Hostname(name) => self.at_hostname(name),
        }
    }

    /// The endpoint has a port for `port` of the service, as far as the mode
    /// asks for one. For a waypoint the port need not be on the service where
    /// the workload has an application tunnel.
    pub open spec fn port_fits(
        service: Service,
        port: u16,
        mode: ServiceResolutionMode,
        endpoint: Endpoint,
        workload: Workload,
    ) -> bool {
        match mode {
            ServiceResolutionMode::Standard => endpoint.port@.contains_key(port) || (
            service.target_port(port) matches Some(p) && p != 0),
            ServiceResolutionMode::Waypoint => service.target_port(port) is Some
                || workload.application_tunnel is Some,
        }
    }

    /// The candidate that an endpoint of the service gives, where its workload is
    /// known, can be reached, and has a port.
    pub open spec fn candidate(
        self,
        source: Workload,
        service: Service,
        port: u16,
        mode: ServiceResolutionMode,
    ) -> spec_fn(Arc<Endpoint>) -> Option<Candidate> {
        |ep: Arc<Endpoint>|
            match self.workloads.by_uid(ep.workload_uid@) {
                Some(wl) => if reachable(source, *wl) && Self::port_fits(
                    service,
                    port,
                    mode,
                    *ep,
                    *wl,
                ) {
                    Some(Candidate { workload: wl, waypoint: None, endpoint: ep, port: 0 })
                } else {
                    None
                },
                None => None,
            }
    }

    /// The candidates of a service, in the order of its endpoints. A service
    /// that does not have the port has none.
    pub open spec fn candidates(
        self,
        source: Workload,
        service: Service,
        port: u16,
        mode: ServiceResolutionMode,
    ) -> Seq<Candidate> {
        if mode == ServiceResolutionMode::Standard && service.target_port(port) is None {
            Seq::empty()
        } else {
            service.endpoints.inner@.filter_map(self.candidate(source, service, port, mode))
        }
    }

    /// `r` may come out of balancing the load over the candidates of a service.
    pub open spec fn may_balance(
        self,
        source: Workload,
        service: Service,
        port: u16,
        mode: ServiceResolutionMode,
        r: Option<(Arc<Endpoint>, Arc<Workload>)>,
    ) -> bool {
        (Ranking { source, service }).may_pick(
            self.candidates(source, service, port, mode),
            match r {
                Some((endpoint, workload)) => Some(
                    Candidate { workload, waypoint: None, endpoint, port: 0 },
                ),
                None => None,
            },
        )
    }

    /// The upstream that an endpoint of the service gives.
    pub open spec fn upstream(
        service: Arc<Service>,
        port: u16,
        picked: Option<(Arc<Endpoint>, Arc<Workload>)>,
    ) -> Option<(Arc<Workload>, u16, Option<Arc<Service>>)> {
        match picked {
            Some((endpoint, workload)) => match translated_port(
                *endpoint,
                *workload,
                *service,
                port,
            ) {
                Some(p) => Some((workload, p, Some(service))),
                None => None,
            },
            None => None,
        }
    }

    /// `r` may come out of resolving a port of a service.
    pub open spec fn may_find_from_service(
        self,
        source: Workload,
        port: u16,
        mode: ServiceResolutionMode,
        service: Arc<Service>,
        r: Option<(Arc<Workload>, u16, Option<Arc<Service>>)>,
    ) -> bool {
        exists|picked: Option<(Arc<Endpoint>, Arc<Workload>)>|
            #[trigger] self.may_balance(source, *service, port, mode, picked) && r
                == Self::upstream(service, port, picked)
    }

    /// `r` may come out of resolving an address: from the service with that
    /// address; or else it is the workload with that address.
    pub open spec fn may_find(
        self,
        network: String,
        source: Workload,
        addr: SocketAddress,
        mode: ServiceResolutionMode,
        r: Option<(Arc<Workload>, u16, Option<Arc<Service>>)>,
    ) -> bool {
        let a = NetworkAddress { network, address: addr.ip };
        match self.services.by_vip(a) {
            Some(service) => self.may_find_from_service(source, addr.port, mode, service, r),
            None => r == match self.workloads.by_address(a) {
                Some(wl) => Some((wl, addr.port, None::<Arc<Service>>)),
                None => None,
            },
        }
    }

    /// At an address a workload goes before a service; by a hostname a service
    /// goes before a workload.
    pub proof fn lemma_precedence(self, a: NetworkAddress, name: NamespacedHostname)
        ensures
            self.workloads.by_address(a) is Some ==> self.at_address(a) == Some(
                Address::Workload(self.workloads.by_address(a)->0),
            ),
            self.services.by_name(name) is Some ==> self.at_hostname(name) == Some(
                Address::Service(self.services.by_name(name)->0),
            ),
            self.at_address(a) is None <==> self.workloads.by_address(a) is None
                && self.services.by_vip(a) is None,
            self.at_hostname(name) is None <==> self.services.by_name(name) is None
                && self.workloads.by_host(name) is None,
    {
    }

    /// What a service is resolved to is the workload of one of its endpoints,
    /// which is known, has capacity, and can be reached from the source. Where
    /// it has no address of its own it is in another network, and a gateway
    /// leads there.
    pub proof fn lemma_found_from_service(
        self,
        source: Workload,
        port: u16,
        mode: ServiceResolutionMode,
        service: Arc<Service>,
        found: (Arc<Workload>, u16, Option<Arc<Service>>),
    )
        requires
            self.may_find_from_service(source, port, mode, service, Some(found)),
        ensures
            found.2 == Some(service),
            found.0.capacity > 0,
            !found.0.has_any_address() ==> found.0.network@ != source.network@
                && found.0.network_gateway is Some,
            exists|ep: Arc<Endpoint>|
                {
                    &&& #[trigger] service.endpoints.inner@.contains(ep)
                    &&& self.workloads.by_uid(ep.workload_uid@) == Some(found.0)
                    &&& Self::port_fits(*service, port, mode, *ep, *found.0)
                    &&& translated_port(*ep, *found.0, *service, port) == Some(found.1)
                },
            mode == ServiceResolutionMode::Standard ==> service.target_port(port) is Some,
    {
        let picked = choose|picked: Option<(Arc<Endpoint>, Arc<Workload>)>|
            #[trigger] self.may_balance(source, *service, port, mode, picked) && Some(found)
                == Self::upstream(service, port, picked);
        let c = Candidate {
            workload: (picked->0).1,
            waypoint: None,
            endpoint: (picked->0).0,
            port: 0,
        };
        self.lemma_balanced(source, &service, port, mode, c);
        assert(service.endpoints.inner@.contains(c.endpoint));
    }

    /// An endpoint that is picked is one of the service, gives the candidate, and
    /// its workload has capacity.
    pub proof fn lemma_balanced(
        self,
        source: Workload,
        service: &Service,
        port: u16,
        mode: ServiceResolutionMode,
        c: Candidate,
    )
        requires
            (Ranking { source, service: *service }).may_pick(
                self.candidates(source, *service, port, mode),
                Some(c),
            ),
        ensures
            service.endpoints.inner@.contains(c.endpoint),
            self.candidate(source, *service, port, mode)(c.endpoint) == Some(c),
            c.workload.capacity > 0,
            mode == ServiceResolutionMode::Standard ==> service.target_port(port) is Some,
    {
        let offered = self.candidates(source, *service, port, mode);
        let f = self.candidate(source, *service, port, mode);
        (Ranking { source, service: *service }).lemma_picked(offered, c);
        service.endpoints.inner@.lemma_filter_map_contains(f, c);
    }

    /// In standard mode nothing comes of a service only where no endpoint was
    /// picked: one that was picked always has a port to go to.
    pub proof fn lemma_nothing_from_service(self, source: Workload, port: u16, service: Arc<Service>)
        requires
            self.may_find_from_service(
                source,
                port,
                ServiceResolutionMode::Standard,
                service,
                None,
            ),
        ensures
            self.may_balance(source, *service, port, ServiceResolutionMode::Standard, None),
    {
        let mode = ServiceResolutionMode::Standard;
        let picked = choose|picked: Option<(Arc<Endpoint>, Arc<Workload>)>|
            #[trigger] self.may_balance(source, *service, port, mode, picked)
                && None::<(Arc<Workload>, u16, Option<Arc<Service>>)> == Self::upstream(
                service,
                port,
                picked,
            );
        if picked is Some {
            let c = Candidate {
                workload: (picked->0).1,
                waypoint: None,
                endpoint: (picked->0).0,
                port: 0,
            };
            self.lemma_balanced(source, &service, port, mode, c);
        }
    }

    /// Something comes of a service that has the port wherever one of its
    /// endpoints is of a workload that is known, can be reached, fits the load
    /// balancing policy, and has a port, if the workloads of the service have
    /// capacity, and are not more than 32 bits count.
    pub proof fn lemma_found_owed(
        self,
        source: Workload,
        port: u16,
        service: Arc<Service>,
        i: int,
        workload: Arc<Workload>,
    )
        requires
            0 <= i < service.endpoints.inner@.len() <= u32::MAX,
            self.workloads.by_uid(service.endpoints.inner@[i].workload_uid@) == Some(workload),
            reachable(source, *workload),
            service.target_port(port) is Some,
            Self::port_fits(
                *service,
                port,
                ServiceResolutionMode::Standard,
                *service.endpoints.inner@[i],
                *workload,
            ),
            (Ranking { source, service: *service }).rank(&workload) is Some,
            forall|j: int|
                0 <= j < service.endpoints.inner@.len() ==> (self.workloads.by_uid(
                    (#[trigger] service.endpoints.inner@[j]).workload_uid@,
                ) matches Some(w) ==> w.capacity > 0),
        ensures
            !self.may_find_from_service(
                source,
                port,
                ServiceResolutionMode::Standard,
                service,
                None,
            ),
    {
        let mode = ServiceResolutionMode::Standard;
        if self.may_find_from_service(source, port, mode, service, None) {
            self.lemma_nothing_from_service(source, port, service);
            self.lemma_balanced_owed(source, &service, port, mode, i);
        }
    }

    /// An endpoint of a service is picked if and only if those of the highest
    /// rank have capacity, and not too much to sum up.
    pub proof fn lemma_balanced_exactly(
        self,
        source: Workload,
        service: &Service,
        port: u16,
        mode: ServiceResolutionMode,
        r: Option<(Arc<Endpoint>, Arc<Workload>)>,
    )
        requires
            self.may_balance(source, *service, port, mode, r),
        ensures
            r is Some <==> Candidate::drawable(
                Candidate::newest(
                    (Ranking { source, service: *service }).finalists(
                        self.candidates(source, *service, port, mode),
                    ),
                ),
            ),
    {
        let ranking = Ranking { source, service: *service };
        let offered = self.candidates(source, *service, port, mode);
        let f = self.candidate(source, *service, port, mode);
        assert forall|c: Candidate| #[trigger] offered.contains(c) implies c.waypoint is None by {
            service.endpoints.inner@.lemma_filter_map_contains(f, c);
        }
        ranking.lemma_direct_only(offered);
    }

    /// An endpoint of a service is picked, in either mode, wherever one of them
    /// gives a candidate that fits the load balancing policy, if the workloads of
    /// the service have capacity, and are not more than 32 bits count.
    pub proof fn lemma_balanced_owed(
        self,
        source: Workload,
        service: &Service,
        port: u16,
        mode: ServiceResolutionMode,
        i: int,
    )
        requires
            0 <= i < service.endpoints.inner@.len() <= u32::MAX,
            mode == ServiceResolutionMode::Standard ==> service.target_port(port) is Some,
            self.candidate(source, *service, port, mode)(service.endpoints.inner@[i]) matches Some(
                c,
            ) && (Ranking { source, service: *service }).rank(&c.workload) is Some,
            forall|j: int|
                0 <= j < service.endpoints.inner@.len() ==> (self.workloads.by_uid(
                    (#[trigger] service.endpoints.inner@[j]).workload_uid@,
                ) matches Some(w) ==> w.capacity > 0),
        ensures
            !self.may_balance(source, *service, port, mode, None),
    {
        let ranking = Ranking { source, service: *service };
        let f = self.candidate(source, *service, port, mode);
        let endpoints = service.endpoints.inner@;
        let offered = self.candidates(source, *service, port, mode);
        crate::search::lemma_filter_map_has(endpoints, f, i);
        crate::search::lemma_filter_map_len(endpoints, f);
        let c = f(endpoints[i])->0;
        let k = choose|k: int| 0 <= k < offered.len() && offered[k] == c;
        assert(ranking.rank(&offered[k].workload) is Some);
        let finalists = ranking.finalists(offered);
        assert forall|j: int| 0 <= j < finalists.len() implies (
        #[trigger] finalists[j]).workload.capacity > 0 by {
            let d = finalists[j];
            assert(finalists.contains(d));
            offered.lemma_filter_contains_rev(ranking.ranked(ranking.best(offered)), d);
            endpoints.lemma_filter_map_contains(f, d);
            let ep = choose|ep: Arc<Endpoint>| #[trigger] endpoints.contains(ep) && f(ep) == Some(d);
            let l = choose|l: int| 0 <= l < endpoints.len() && endpoints[l] == ep;
            assert(self.workloads.by_uid(endpoints[l].workload_uid@) == Some(d.workload));
        }
        ranking.lemma_pick_owed(offered);
    }

    /// Where a service has an address, the address is resolved to that service,
    /// also if a workload claims it. Where none has it, it is resolved to the
    /// workload that has it, at the port that was asked for.
    pub proof fn lemma_found(
        self,
        network: String,
        source: Workload,
        addr: SocketAddress,
        mode: ServiceResolutionMode,
        found: (Arc<Workload>, u16, Option<Arc<Service>>),
    )
        requires
            self.may_find(network, source, addr, mode, Some(found)),
        ensures
            found.2 == self.services.by_vip(NetworkAddress { network, address: addr.ip }),
            found.2 is None ==> found.1 == addr.port && self.workloads.by_address(
                (NetworkAddress { network, address: addr.ip }),
            ) == Some(found.0),
    {
        let a = NetworkAddress { network, address: addr.ip };
        if self.services.by_vip(a) is Some {
            self.lemma_found_from_service(
                source,
                addr.port,
                mode,
                self.services.by_vip(a)->0,
                found,
            );
        }
    }

    /// A state in which nothing is known.
    pub fn new(local_node: Option<String>) -> (r: ProxyState)
        ensures
            r.wf(),
            r.workloads.local_node == local_node,
            r.workloads.workloads@.len() == 0,
            r.services.services@.len() == 0,
            r.services.staged_services@.len() == 0,
            r.policies.policies@.len() == 0,
    {
        ProxyState {
            workloads: WorkloadStore::new(local_node),
            services: ServiceStore::new(),
            policies: PolicyStore::new(),
        }
    }

    /// Find either a workload or service by the destination.
    pub fn find_destination(&self, dest: &Destination) -> (r: Option<Address>)
        ensures
            r == self.at_destination(*dest),
    {
        match dest {
            Destination::Address(addr) => self.find_address(addr),
            Destination::Hostname(hostname) => self.find_hostname(hostname),
        }
    }

    /// Find either a workload or a service by address.
    pub fn find_address(&self, network_addr: &NetworkAddress) -> (r: Option<Address>)
        ensures
            r == self.at_address(*network_addr),
    {
        match self.workloads.find_address(network_addr) {
            None => match self.services.get_by_vip(network_addr) {
                Some(svc) => Some(Address::Service(svc)),
                None => None,
            },
            Some(wl) => Some(Address::Workload(wl)),
        }
    }

    /// Find either a workload or a service by hostname. Hostnames of services
    /// are more common, so these are looked up first.
    pub fn find_hostname(&self, name: &NamespacedHostname) -> (r: Option<Address>)
        ensures
            r == self.at_hostname(*name),
    {
        match self.services.get_by_namespaced_host(name) {
            Some(svc) => Some(Address::Service(svc)),
            None => match self.workloads.find_host(name) {
                Some(wl) => Some(Address::Workload(wl)),
                None => None,
            },
        }
    }

    /// `r` is what is found by a hostname: the services that have it, or an error
    /// where none does.
    pub open spec fn is_found_by_hostname(
        self,
        hostname: String,
        r: Result<Seq<Arc<Service>>, Error>,
    ) -> bool {
        match r {
            Ok(found) => found.len() > 0 && found == self.services.by_hostname(hostname@),
            Err(e) => self.services.by_hostname(hostname@).len() == 0 && e == Error::NoHostname(
                hostname,
            ),
        }
    }

    /// Find services by hostname.
    pub fn find_service_by_hostname(&self, hostname: &String) -> (r: Result<
        Vec<Arc<Service>>,
        Error,
    >)
        ensures
            self.is_found_by_hostname(
                *hostname,
                match r {
                    Ok(found) => Ok(found@),
                    Err(e) => Err(e),
                },
            ),
            match r {
                Ok(found) => found@.len() > 0 && found@ == self.services.by_hostname(hostname@),
                Err(e) => self.services.by_hostname(hostname@).len() == 0 && e
                    == Error::NoHostname(*hostname),
            },
    {
        match self.services.get_by_host(hostname) {
            Some(found) => Ok(found),
            None => Err(Error::NoHostname(hostname.clone())),
        }
    }

    /// The candidates that a service offers at a port.
    pub fn offer<'a>(
        &self,
        source: &'a Workload,
        service: &'a Service,
        port: u16,
        mode: ServiceResolutionMode,
    ) -> (r: EndpointPicker<'a>)
        ensures
            r.wf(),
            *r.source_workload == *source,
            *r.target_service == *service,
            r.offered@ == self.candidates(*source, *service, port, mode),
    {
        let target_port: Option<u16> = service.get_target_port(port);
        let mut picker = EndpointPicker::new(source, service);
        if mode == ServiceResolutionMode::Standard && target_port.is_none() {
            // The port does not exist on the service at all.
            return picker;
        }
        let endpoints = &service.endpoints.inner;
        let ghost f = self.candidate(*source, *service, port, mode);
        let mut i: usize = 0;
        while i < endpoints.len()
            invariant
                i <= endpoints.len(),
                endpoints@ == service.endpoints.inner@,
                target_port == service.target_port(port),
                f == self.candidate(*source, *service, port, mode),
                picker.wf(),
                *picker.source_workload == *source,
                *picker.target_service == *service,
                picker.offered@ == endpoints@.take(i as int).filter_map(f),
            decreases endpoints.len() - i,
        {
            proof {
                endpoints@.lemma_filter_map_take_succ(f, i as int);
            }
            let ep = &endpoints[i];
            i = i + 1;
            let wl = match self.workloads.find_uid(&ep.workload_uid) {
                Some(wl) => wl,
                None => continue,
            };
            if !is_reachable(source, &wl) {
                continue;
            }
            let fits = match mode {
                ServiceResolutionMode::Standard => {
                    let known = match target_port {
                        Some(p) => p != 0,
                        None => false,
                    };
                    known || ep.port.contains_key(&port)
                },
                ServiceResolutionMode::Waypoint => target_port.is_some()
                    || wl.application_tunnel.is_some(),
            };
            if !fits {
                continue;
            }
            // The caller figures out the right port.
            picker.add_direct_endpoint(wl, ep.clone(), 0);
            proof {
                assert(picker.offered@ =~= endpoints@.take(i as int).filter_map(f));
            }
        }
        proof {
            assert(endpoints@.take(i as int) =~= endpoints@);
        }
        picker
    }

    /// Picks an endpoint of a service for one of its ports.
    pub fn load_balance(
        &self,
        source: &Workload,
        service: &Service,
        port: u16,
        mode: ServiceResolutionMode,
    ) -> (r: Option<(Arc<Endpoint>, Arc<Workload>)>)
        ensures
            self.may_balance(*source, *service, port, mode, r),
    {
        let picker = self.offer(source, service, port, mode);
        match picker.pick_candidate() {
            Some(candidate) => {
                proof {
                    picker.ranking().lemma_picked(picker.offered@, *candidate);
                    service.endpoints.inner@.lemma_filter_map_contains(
                        self.candidate(*source, *service, port, mode),
                        *candidate,
                    );
                }
                Some((candidate.endpoint.clone(), candidate.workload.clone()))
            },
            None => None,
        }
    }

    /// The upstream that an endpoint of the service gives for one of its ports;
    /// nothing where none was picked, or where the port is known neither to the
    /// endpoint nor to the service, and no application tunnel makes up for it.
    pub fn upstream_of(
        service: Arc<Service>,
        port: u16,
        picked: Option<(Arc<Endpoint>, Arc<Workload>)>,
    ) -> (r: Option<(Arc<Workload>, u16, Option<Arc<Service>>)>)
        ensures
            r == Self::upstream(service, port, picked),
    {
        match picked {
            Some((endpoint, workload)) => match translate_port(
                &endpoint,
                &workload,
                &service,
                port,
            ) {
                Some(target_port) => Some((workload, target_port, Some(service))),
                None => None,
            },
            None => None,
        }
    }

    /// Resolves a port of a service to one of its workloads.
    pub fn find_upstream_from_service(
        &self,
        source: &Workload,
        port: u16,
        mode: ServiceResolutionMode,
        service: Arc<Service>,
    ) -> (r: Option<(Arc<Workload>, u16, Option<Arc<Service>>)>)
        ensures
            self.may_find_from_service(*source, port, mode, service, r),
    {
        let picked = self.load_balance(source, &service, port, mode);
        Self::upstream_of(service, port, picked)
    }

    /// Resolves an address: to a workload of the service with that address, or
    /// else to the workload with that address.
    pub fn find_upstream(
        &self,
        network: String,
        source: &Workload,
        addr: SocketAddress,
        mode: ServiceResolutionMode,
    ) -> (r: Option<(Arc<Workload>, u16, Option<Arc<Service>>)>)
        ensures
            self.may_find(network, *source, addr, mode, r),
    {
        let at = network_addr(network, addr.ip);
        if let Some(svc) = self.services.get_by_vip(&at) {
            return self.find_upstream_from_service(source, addr.port, mode, svc);
        }
        match self.workloads.find_address(&at) {
            Some(wl) => Some((wl, addr.port, None)),
            None => None,
        }
    }
}

} // verus!
