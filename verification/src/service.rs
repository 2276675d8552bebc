//! Services, their endpoints, and the store of those that are known.

use std::collections::HashMap;
use std::sync::Arc;

use vstd::prelude::*;

use crate::address::{GatewayAddress, IpFamily, NamespacedHostname, NetworkAddress};
use crate::workload::{HealthStatus, Workload};

verus! {

broadcast use vstd::std_specs::hash::group_hash_axioms;

/// A workload that serves a service, with the ports it maps service ports to.
#[derive(Debug, PartialEq, Eq)]
pub struct Endpoint {
    pub workload_uid: String,
    pub port: HashMap<u16, u16>,
    pub status: HealthStatus,
}

/// The endpoints of a service.
#[derive(Debug, PartialEq, Eq)]
pub struct EndpointSet {
    pub inner: Vec<Arc<Endpoint>>,
}

impl EndpointSet {
    /// No two endpoints are of one workload.
    pub open spec fn wf(self) -> bool {
        forall|i: int, j: int|
            0 <= i < j < self.inner@.len() ==> (#[trigger] self.inner@[i]).workload_uid@ != (
            #[trigger] self.inner@[j]).workload_uid@
    }

    pub open spec fn uid_is_not(uid: Seq<char>) -> spec_fn(Arc<Endpoint>) -> bool {
        |e: Arc<Endpoint>| e.workload_uid@ != uid
    }

    /// The endpoints of a list, of which a later one stands in place of an
    /// earlier one of the same workload.
    pub open spec fn of_list(list: Seq<Endpoint>) -> Seq<Arc<Endpoint>>
        decreases list.len(),
    {
        if list.len() == 0 {
            Seq::empty()
        } else {
            let e = Arc::new(list.last());
            Self::of_list(list.drop_last()).filter(Self::uid_is_not(e.workload_uid@)).push(e)
        }
    }

    /// A set without endpoints.
    pub fn new() -> (r: Self)
        ensures
            r.wf(),
            r.inner@.len() == 0,
    {
        EndpointSet { inner: Vec::new() }
    }

    /// The endpoints of a list, of which a later one stands in place of an
    /// earlier one of the same workload.
    pub fn from_list(list: Vec<Endpoint>) -> (r: Self)
        ensures
            r.wf(),
            r.inner@ == Self::of_list(list@),
    {
        let ghost whole = list@;
        let mut r = EndpointSet::new();
        for e in it: list
            invariant
                r.wf(),
                it.seq() == whole,
                r.inner@ == Self::of_list(whole.take(it.index())),
        {
            let ghost i = it.index();
            proof {
                assert(whole.take(i + 1).drop_last() =~= whole.take(i));
            }
            r.insert(e);
        }
        proof {
            assert(whole.take(whole.len() as int) =~= whole);
        }
        r
    }

    /// `after` is this set with the endpoint added, in place of the one of its
    /// workload if there is one.
    pub open spec fn gains(self, endpoint: Endpoint, after: Self) -> bool {
        after.inner@ == self.inner@.filter(Self::uid_is_not(endpoint.workload_uid@)).push(
            Arc::new(endpoint),
        )
    }

    /// Adds an endpoint, in place of the one of its workload if there is one.
    pub fn insert(&mut self, endpoint: Endpoint)
        requires
            old(self).wf(),
        ensures
            old(self).gains(endpoint, *final(self)),
            final(self).wf(),
            final(self).inner@ == old(self).inner@.filter(
                Self::uid_is_not(endpoint.workload_uid@),
            ).push(Arc::new(endpoint)),
    {
        let ghost p = Self::uid_is_not(endpoint.workload_uid@);
        match self.position(&endpoint.workload_uid) {
            Some(i) => {
                proof {
                    crate::search::lemma_filter_but(self.inner@, p, i as int);
                }
                self.inner.remove(i);
            },
            None => {
                proof {
                    crate::search::lemma_filter_all(self.inner@, p);
                }
            },
        }
        self.inner.push(Arc::new(endpoint));
    }

    /// Where the endpoint of the workload with this UID stands.
    fn position(&self, uid: &String) -> (r: Option<usize>)
        ensures
            match r {
                Some(i) => i < self.inner@.len() && self.inner@[i as int].workload_uid@ == uid@,
                None => forall|j: int|
                    0 <= j < self.inner@.len() ==> (#[trigger] self.inner@[j]).workload_uid@ != uid@,
            },
    {
        let mut i: usize = 0;
        while i < self.inner.len()
            invariant
                i <= self.inner.len(),
                forall|j: int| 0 <= j < i ==> (#[trigger] self.inner@[j]).workload_uid@ != uid@,
            decreases self.inner.len() - i,
        {
            if self.inner[i].workload_uid == *uid {
                return Some(i);
            }
            i = i + 1;
        }
        None
    }
}

/// The waypoint of a service in one cluster.
#[derive(Debug, PartialEq, Eq)]
pub struct ClusterWaypoint {
    pub cluster_id: String,
    pub gateway: GatewayAddress,
}

/// The waypoints of a service, by cluster.
#[derive(Debug, PartialEq, Eq)]
pub struct Waypoints {
    pub inner: Vec<ClusterWaypoint>,
}

impl Waypoints {
    /// No cluster has two waypoints.
    pub open spec fn wf(self) -> bool {
        forall|i: int, j: int|
            0 <= i < j < self.inner@.len() ==> (#[trigger] self.inner@[i]).cluster_id@ != (
            #[trigger] self.inner@[j]).cluster_id@
    }

    pub open spec fn cluster_is(cluster: Seq<char>) -> spec_fn(ClusterWaypoint) -> bool {
        |w: ClusterWaypoint| w.cluster_id@ == cluster
    }

    pub open spec fn cluster_is_not(cluster: Seq<char>) -> spec_fn(ClusterWaypoint) -> bool {
        |w: ClusterWaypoint| w.cluster_id@ != cluster
    }

    /// The waypoint configured in a cluster.
    pub open spec fn in_cluster(self, cluster: Seq<char>) -> Option<GatewayAddress> {
        match crate::search::first(self.inner@, Self::cluster_is(cluster)) {
            Some(w) => Some(w.gateway),
            None => None,
        }
    }

    /// No waypoints.
    pub fn new() -> (r: Self)
        ensures
            r.wf(),
            r.inner@.len() == 0,
    {
        Waypoints { inner: Vec::new() }
    }

    /// Where the waypoint of the cluster stands.
    fn position(&self, cluster: &String) -> (r: Option<usize>)
        ensures
            match r {
                Some(i) => i < self.inner@.len() && self.inner@[i as int].cluster_id@ == cluster@ && (
                forall|j: int| 0 <= j < i ==> (#[trigger] self.inner@[j]).cluster_id@ != cluster@),
                None => forall|j: int|
                    0 <= j < self.inner@.len() ==> (#[trigger] self.inner@[j]).cluster_id@ != cluster@,
            },
    {
        let mut i: usize = 0;
        while i < self.inner.len()
            invariant
                i <= self.inner.len(),
                forall|j: int| 0 <= j < i ==> (#[trigger] self.inner@[j]).cluster_id@ != cluster@,
            decreases self.inner.len() - i,
        {
            if self.inner[i].cluster_id == *cluster {
                return Some(i);
            }
            i = i + 1;
        }
        None
    }

    /// `after` is this with the cluster's waypoint configured, in place of the one
    /// it has.
    pub open spec fn gains(self, added: ClusterWaypoint, after: Self) -> bool {
        after.inner@ == self.inner@.filter(Self::cluster_is_not(added.cluster_id@)).push(added)
    }

    /// Configures a cluster's waypoint, in place of the one it has.
    pub fn insert(&mut self, cluster_id: String, gateway: GatewayAddress)
        requires
            old(self).wf(),
        ensures
            old(self).gains((ClusterWaypoint { cluster_id, gateway }), *final(self)),
            final(self).wf(),
            final(self).inner@ == old(self).inner@.filter(Self::cluster_is_not(cluster_id@)).push(
                (ClusterWaypoint { cluster_id, gateway }),
            ),
    {
        let ghost p = Self::cluster_is_not(cluster_id@);
        match self.position(&cluster_id) {
            Some(i) => {
                proof {
                    crate::search::lemma_filter_but(self.inner@, p, i as int);
                }
                self.inner.remove(i);
            },
            None => {
                proof {
                    crate::search::lemma_filter_all(self.inner@, p);
                }
            },
        }
        self.inner.push(ClusterWaypoint { cluster_id, gateway });
    }

    /// The waypoint configured in a cluster.
    pub fn get(&self, cluster: &String) -> (r: Option<&GatewayAddress>)
        ensures
            match r {
                Some(g) => self.in_cluster(cluster@) == Some(*g),
                None => self.in_cluster(cluster@) is None,
            },
    {
        match self.position(cluster) {
            Some(i) => {
                proof {
                    crate::search::lemma_first_at(
                        self.inner@,
                        Self::cluster_is(cluster@),
                        i as int,
                    );
                }
                Some(&self.inner[i].gateway)
            },
            None => {
                proof {
                    crate::search::lemma_first_none(self.inner@, Self::cluster_is(cluster@));
                }
                None
            },
        }
    }
}

/// What load balancing may hold against where a workload runs.
#[derive(Clone, Copy, Debug, PartialEq, Eq, Hash, Structural)]
pub enum LoadBalancerScopes {
    Region,
    Zone,
    Subzone,
    Node,
    Cluster,
    Network,
}

/// What the routing preferences of a service mean.
#[derive(Clone, Copy, Debug, PartialEq, Eq, Hash, Structural)]
pub enum LoadBalancerMode {
    /// No preference.
    Standard,
    /// Only workloads that meet every preference.
    Strict,
    /// The workloads that meet the most preferences.
    Failover,
}

/// Which endpoints of a service are sent to, by their health.
#[derive(Clone, Copy, Debug, PartialEq, Eq, Hash, Structural)]
pub enum LoadBalancerHealthPolicy {
    OnlyHealthy,
    AllowAll,
}

/// The load balancing policy of a service.
#[derive(Debug, PartialEq, Eq)]
pub struct LoadBalancer {
    pub routing_preferences: Vec<LoadBalancerScopes>,
    pub mode: LoadBalancerMode,
    pub health_policy: LoadBalancerHealthPolicy,
}

/// A service of the mesh.
#[derive(Debug, PartialEq, Eq)]
pub struct Service {
    pub name: String,
    pub hostname: String,
    pub namespace: String,
    pub vips: Vec<NetworkAddress>,
    /// The port that each service port is served on; zero where the endpoints
    /// tell it.
    pub ports: HashMap<u16, u16>,
    pub endpoints: EndpointSet,
    pub subject_alt_names: Vec<String>,
    pub waypoint: Option<GatewayAddress>,
    pub waypoints: Waypoints,
    pub load_balancer: Option<LoadBalancer>,
    pub ip_families: Option<IpFamily>,
}

impl Service {
    /// `a` is one of the service's virtual addresses.
    pub open spec fn has_vip(self, a: NetworkAddress) -> bool {
        exists|i: int| 0 <= i < self.vips@.len() && (#[trigger] self.vips@[i]).same(a)
    }

    /// The service is the one that `name` names.
    pub open spec fn is_host(self, name: NamespacedHostname) -> bool {
        self.hostname@ == name.hostname@ && self.namespace@ == name.namespace@
    }

    /// The target port that the service itself tells for one of its ports.
    pub open spec fn target_port(self, port: u16) -> Option<u16> {
        if self.ports@.contains_key(port) {
            Some(self.ports@[port])
        } else {
            None
        }
    }

    /// The target port that the service itself tells for one of its ports.
    pub fn get_target_port(&self, port: u16) -> (r: Option<u16>)
        ensures
            r == self.target_port(port),
    {
        match self.ports.get(&port) {
            Some(p) => Some(*p),
            None => None,
        }
    }

    /// Whether `a` is one of the service's virtual addresses.
    fn serves_vip(&self, a: &NetworkAddress) -> (r: bool)
        ensures
            r == self.has_vip(*a),
    {
        let mut i: usize = 0;
        while i < self.vips.len()
            invariant
                i <= self.vips.len(),
                forall|j: int| 0 <= j < i ==> !(#[trigger] self.vips@[j]).same(*a),
            decreases self.vips.len() - i,
        {
            if self.vips[i] == *a {
                return true;
            }
            i = i + 1;
        }
        false
    }

    /// Whether the service is the one that `name` names.
    fn matches_host(&self, name: &NamespacedHostname) -> (r: bool)
        ensures
            r == self.is_host(*name),
    {
        self.hostname == name.hostname && self.namespace == name.namespace
    }
}

/// What is told of a service that a connection was resolved from.
#[derive(Debug, PartialEq, Eq, Hash)]
pub struct ServiceDescription {
    pub hostname: String,
    pub name: String,
    pub namespace: String,
}

impl Clone for ServiceDescription {
    fn clone(&self) -> (r: Self)
        ensures
            r == *self,
    {
        ServiceDescription {
            hostname: self.hostname.clone(),
            name: self.name.clone(),
            namespace: self.namespace.clone(),
        }
    }
}

impl ServiceDescription {
    /// The description of `s`.
    pub open spec fn describes(self, s: Service) -> bool {
        self.hostname == s.hostname && self.name == s.name && self.namespace == s.namespace
    }

    /// The description of `s`.
    pub fn of(s: &Service) -> (r: Self)
        ensures
            r.describes(*s),
    {
        ServiceDescription {
            hostname: s.hostname.clone(),
            name: s.name.clone(),
            namespace: s.namespace.clone(),
        }
    }
}

/// Endpoints that arrived before the service they belong to.
#[derive(Debug, PartialEq, Eq)]
pub struct StagedService {
    pub name: NamespacedHostname,
    pub endpoints: EndpointSet,
}

/// The services that are known, from the one that was inserted first to the one
/// that was inserted last.
#[derive(Debug)]
pub struct ServiceStore {
    pub services: Vec<Arc<Service>>,
    pub staged_services: Vec<StagedService>,
}

impl ServiceStore {
    /// No two services share hostname and namespace.
    pub open spec fn wf(self) -> bool {
        forall|i: int, j: int|
            0 <= i < j < self.services@.len() ==> !((#[trigger] self.services@[i]).hostname@ == (
            #[trigger] self.services@[j]).hostname@ && self.services@[i].namespace@
                == self.services@[j].namespace@)
    }

    pub open spec fn vip_is(a: NetworkAddress) -> spec_fn(Arc<Service>) -> bool {
        |s: Arc<Service>| s.has_vip(a)
    }

    pub open spec fn named(name: NamespacedHostname) -> spec_fn(Arc<Service>) -> bool {
        |s: Arc<Service>| s.is_host(name)
    }

    pub open spec fn named_unlike(other: Service) -> spec_fn(Arc<Service>) -> bool {
        |s: Arc<Service>|
            !(s.hostname@ == other.hostname@ && s.namespace@ == other.namespace@)
    }

    pub open spec fn hostname_is(hostname: Seq<char>) -> spec_fn(Arc<Service>) -> bool {
        |s: Arc<Service>| s.hostname@ == hostname
    }

    /// The service with this virtual address; where several claim it, the newest.
    pub open spec fn by_vip(self, a: NetworkAddress) -> Option<Arc<Service>> {
        crate::search::last(self.services@, Self::vip_is(a))
    }

    /// The service with this hostname in this namespace.
    pub open spec fn by_name(self, name: NamespacedHostname) -> Option<Arc<Service>> {
        crate::search::first(self.services@, Self::named(name))
    }

    /// The services with this hostname, whatever their namespace.
    pub open spec fn by_hostname(self, hostname: Seq<char>) -> Seq<Arc<Service>> {
        self.services@.filter(Self::hostname_is(hostname))
    }

    /// Looks up names in this store.
    pub open spec fn lookup(self) -> spec_fn(NamespacedHostname) -> Option<Arc<Service>> {
        |name: NamespacedHostname| self.by_name(name)
    }

    /// A store without services.
    pub fn new() -> (r: Self)
        ensures
            r.wf(),
            r.services@.len() == 0,
            r.staged_services@.len() == 0,
    {
        ServiceStore { services: Vec::new(), staged_services: Vec::new() }
    }

    /// Where the service with the hostname and namespace of `service` stands.
    fn position(&self, service: &Service) -> (r: Option<usize>)
        ensures
            match r {
                Some(i) => i < self.services@.len() && !Self::named_unlike(*service)(
                    self.services@[i as int],
                ),
                None => forall|j: int|
                    0 <= j < self.services@.len() ==> Self::named_unlike(*service)(
                        #[trigger] self.services@[j],
                    ),
            },
    {
        let mut i: usize = 0;
        while i < self.services.len()
            invariant
                i <= self.services.len(),
                forall|j: int|
                    0 <= j < i ==> Self::named_unlike(*service)(#[trigger] self.services@[j]),
            decreases self.services.len() - i,
        {
            let s = &self.services[i];
            if s.hostname == service.hostname && s.namespace == service.namespace {
                return Some(i);
            }
            i = i + 1;
        }
        None
    }

    /// `after` is this store with the service added, in place of the one with its
    /// hostname and namespace if there is one.
    pub open spec fn gains(self, service: Service, after: Self) -> bool {
        &&& after.staged_services == self.staged_services
        &&& after.services@ == self.services@.filter(Self::named_unlike(service)).push(
            Arc::new(service),
        )
    }

    /// Adds a service, in place of the one with its hostname and namespace if
    /// there is one.
    pub fn insert(&mut self, service: Service)
        requires
            old(self).wf(),
        ensures
            old(self).gains(service, *final(self)),
            final(self).wf(),
            final(self).staged_services == old(self).staged_services,
            final(self).services@ == old(self).services@.filter(
                Self::named_unlike(service),
            ).push(Arc::new(service)),
    {
        let ghost p = Self::named_unlike(service);
        match self.position(&service) {
            Some(i) => {
                proof {
                    assert(!p(self.services@[i as int]));
                    crate::search::lemma_filter_but(self.services@, p, i as int);
                }
                self.services.remove(i);
            },
            None => {
                proof {
                    crate::search::lemma_filter_all(self.services@, p);
                }
            },
        }
        self.services.push(Arc::new(service));
    }

    /// A service that was inserted is the one with its name and at its addresses.
    /// What was known by another name, or at another address, still is, unless it
    /// was of the service that was replaced.
    pub proof fn lemma_insert(before: Self, after: Self, service: Service)
        requires
            after.services@ == before.services@.filter(Self::named_unlike(service)).push(
                Arc::new(service),
            ),
        ensures
            forall|name: NamespacedHostname|
                #[trigger] after.by_name(name) == if service.is_host(name) {
                    Some(Arc::new(service))
                } else {
                    before.by_name(name)
                },
            forall|a: NetworkAddress|
                service.has_vip(a) ==> #[trigger] after.by_vip(a) == Some(Arc::new(service)),
            forall|a: NetworkAddress|
                !service.has_vip(a) && (before.by_vip(a) matches Some(s) ==> Self::named_unlike(
                    service,
                )(s)) ==> #[trigger] after.by_vip(a) == before.by_vip(a),
    {
        let all = before.services@;
        let p = Self::named_unlike(service);
        assert forall|name: NamespacedHostname| #[trigger] after.by_name(name) == (
        if service.is_host(name) {
            Some(Arc::new(service))
        } else {
            before.by_name(name)
        }) by {
            let q = Self::named(name);
            crate::search::lemma_first_push(all.filter(p), Arc::new(service), q);
            if service.is_host(name) {
                assert forall|j: int| 0 <= j < all.filter(p).len() implies !q(
                    #[trigger] all.filter(p)[j],
                ) by {
                    all.lemma_filter_pred(p, j);
                }
                crate::search::lemma_first_none(all.filter(p), q);
            } else {
                crate::search::lemma_first_is(all, q);
                crate::search::lemma_first_filter(all, p, q);
            }
        }
        assert forall|a: NetworkAddress|
            !service.has_vip(a) && (before.by_vip(a) matches Some(s) ==> p(s)) implies
            #[trigger] after.by_vip(a) == before.by_vip(a) by {
            crate::search::lemma_last_filter(all, p, Self::vip_is(a));
            assert(after.services@.drop_last() =~= all.filter(p));
        }
    }

    /// The service with this virtual address; where several claim it, the newest.
    pub fn get_by_vip(&self, addr: &NetworkAddress) -> (r: Option<Arc<Service>>)
        ensures
            r == self.by_vip(*addr),
    {
        let ghost p = Self::vip_is(*addr);
        let mut i: usize = self.services.len();
        while i > 0
            invariant
                i <= self.services.len(),
                p == Self::vip_is(*addr),
                forall|j: int| i <= j < self.services@.len() ==> !p(#[trigger] self.services@[j]),
            decreases i,
        {
            i = i - 1;
            if self.services[i].serves_vip(addr) {
                proof {
                    crate::search::lemma_last_at(self.services@, p, i as int);
                }
                return Some(self.services[i].clone());
            }
        }
        proof {
            crate::search::lemma_last_none(self.services@, p);
        }
        None
    }

    /// The service with this hostname in this namespace.
    pub fn get_by_namespaced_host(&self, name: &NamespacedHostname) -> (r: Option<Arc<Service>>)
        ensures
            r == self.by_name(*name),
    {
        let ghost p = Self::named(*name);
        let mut i: usize = 0;
        while i < self.services.len()
            invariant
                i <= self.services.len(),
                p == Self::named(*name),
                forall|j: int| 0 <= j < i ==> !p(#[trigger] self.services@[j]),
            decreases self.services.len() - i,
        {
            if self.services[i].matches_host(name) {
                proof {
                    crate::search::lemma_first_at(self.services@, p, i as int);
                }
                return Some(self.services[i].clone());
            }
            i = i + 1;
        }
        proof {
            crate::search::lemma_first_none(self.services@, p);
        }
        None
    }

    /// The services with this hostname, whatever their namespace; `None` where
    /// there is none.
    pub fn get_by_host(&self, hostname: &String) -> (r: Option<Vec<Arc<Service>>>)
        ensures
            match r {
                Some(found) => found@.len() > 0 && found@ == self.by_hostname(hostname@),
                None => self.by_hostname(hostname@).len() == 0,
            },
    {
        let ghost p = Self::hostname_is(hostname@);
        let ghost all = self.services@;
        let mut found: Vec<Arc<Service>> = Vec::new();
        let mut i: usize = 0;
        proof {
            reveal(Seq::filter);
        }
        while i < self.services.len()
            invariant
                i <= self.services.len(),
                all == self.services@,
                p == Self::hostname_is(hostname@),
                found@ == all.take(i as int).filter(p),
            decreases self.services.len() - i,
        {
            proof {
                crate::search::lemma_filter_step(all, p, i as int);
            }
            if self.services[i].hostname == *hostname {
                found.push(self.services[i].clone());
            }
            i = i + 1;
        }
        proof {
            assert(all.take(i as int) =~= all);
        }
        if found.len() == 0 {
            None
        } else {
            Some(found)
        }
    }

    /// The services that `workload` says it belongs to, where they are known.
    pub fn get_by_workload(&self, workload: &Workload) -> (r: Vec<Arc<Service>>)
        ensures
            r@ == workload.services@.filter_map(self.lookup()),
    {
        let ghost names = workload.services@;
        let ghost f = self.lookup();
        let mut found: Vec<Arc<Service>> = Vec::new();
        let mut i: usize = 0;
        while i < workload.services.len()
            invariant
                i <= workload.services.len(),
                names == workload.services@,
                f == self.lookup(),
                found@ == names.take(i as int).filter_map(f),
            decreases workload.services.len() - i,
        {
            proof {
                names.lemma_filter_map_take_succ(f, i as int);
            }
            match self.get_by_namespaced_host(&workload.services[i]) {
                Some(s) => found.push(s),
                None => {},
            }
            i = i + 1;
        }
        proof {
            assert(names.take(i as int) =~= names);
        }
        found
    }
}

} // verus!
