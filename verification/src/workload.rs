//! Workloads, and the store of those that are known.

use std::sync::Arc;

use vstd::prelude::*;

use crate::address::{GatewayAddress, IpAddress, NamespacedHostname, NetworkAddress};
use crate::identity::Identity;

verus! {

/// Where a workload runs.
#[derive(Debug, Default, PartialEq, Eq)]
pub struct Locality {
    pub region: String,
    pub zone: String,
    pub subzone: String,
}

/// How a workload accepts traffic.
#[derive(Clone, Copy, Debug, PartialEq, Eq, Hash, Structural)]
pub enum InboundProtocol {
    TCP,
    HBONE,
}

/// The protocol an application tunnel speaks.
#[derive(Clone, Copy, Debug, PartialEq, Eq, Hash, Structural)]
pub enum TunnelProtocol {
    NONE,
    PROXY,
}

/// A tunnel through which a workload's application takes its traffic.
#[derive(Clone, Copy, Debug, PartialEq, Eq, Hash)]
pub struct ApplicationTunnel {
    pub protocol: TunnelProtocol,
    pub port: Option<u16>,
}

/// Whether a workload reports itself fit for traffic.
#[derive(Clone, Copy, Debug, PartialEq, Eq, Hash, Structural)]
pub enum HealthStatus {
    Healthy,
    Unhealthy,
}

/// A workload of the mesh.
#[derive(Debug, PartialEq, Eq)]
pub struct Workload {
    pub name: String,
    pub namespace: String,
    pub trust_domain: String,
    pub service_account: String,
    pub uid: String,
    pub cluster_id: String,
    pub network: String,
    pub node: String,
    pub hostname: String,
    pub locality: Locality,
    pub workload_ips: Vec<IpAddress>,
    pub network_gateway: Option<GatewayAddress>,
    pub waypoint: Option<GatewayAddress>,
    pub application_tunnel: Option<ApplicationTunnel>,
    pub protocol: InboundProtocol,
    pub capacity: u32,
    pub authorization_policies: Vec<String>,
    pub services: Vec<NamespacedHostname>,
    pub status: HealthStatus,
}

impl Workload {
    /// `a` is one of the workload's addresses.
    pub open spec fn has_address(self, a: NetworkAddress) -> bool {
        self.network@ == a.network@ && self.workload_ips@.contains(a.address)
    }

    /// The workload is the one that `name` names.
    pub open spec fn is_host(self, name: NamespacedHostname) -> bool {
        self.hostname@ == name.hostname@ && self.namespace@ == name.namespace@
    }

    /// The workload can be connected to: it has an IP address, or a hostname to
    /// resolve.
    pub open spec fn has_any_address(self) -> bool {
        self.workload_ips@.len() > 0 || self.hostname@.len() > 0
    }

    /// Whether `ip` is among the workload's IP addresses.
    pub fn has_ip(&self, ip: IpAddress) -> (r: bool)
        ensures
            r == self.workload_ips@.contains(ip),
    {
        let mut i: usize = 0;
        while i < self.workload_ips.len()
            invariant
                i <= self.workload_ips.len(),
                forall|j: int| 0 <= j < i ==> self.workload_ips@[j] != ip,
            decreases self.workload_ips.len() - i,
        {
            if self.workload_ips[i] == ip {
                return true;
            }
            i = i + 1;
        }
        false
    }

    /// The identity the workload runs under.
    pub fn identity(&self) -> (r: Identity)
        ensures
            r@.trust_domain == self.trust_domain@,
            r@.namespace == self.namespace@,
            r@.service_account == self.service_account@,
    {
        Identity::Spiffe {
            trust_domain: self.trust_domain.clone(),
            namespace: self.namespace.clone(),
            service_account: self.service_account.clone(),
        }
    }
}

/// Workload information that a proxy instance represents. It is used to cross
/// check the workload found by destination address when deciding on RBAC.
#[derive(Debug, PartialEq, Eq, PartialOrd, Ord, Hash)]
pub struct WorkloadInfo {
    pub name: String,
    pub namespace: String,
    pub service_account: String,
}

impl Clone for WorkloadInfo {
    fn clone(&self) -> (r: Self)
        ensures
            r == *self,
    {
        WorkloadInfo {
            name: self.name.clone(),
            namespace: self.namespace.clone(),
            service_account: self.service_account.clone(),
        }
    }
}

impl WorkloadInfo {
    pub fn new(name: String, namespace: String, service_account: String) -> (r: Self)
        ensures
            r.name == name,
            r.namespace == namespace,
            r.service_account == service_account,
    {
        WorkloadInfo { name, namespace, service_account }
    }

    /// `w` has the name, the namespace and the service account that this tells.
    pub open spec fn is_of(self, w: Workload) -> bool {
        &&& self.name@ == w.name@
        &&& self.namespace@ == w.namespace@
        &&& self.service_account@ == w.service_account@
    }

    /// Whether this is the information of `w`.
    pub fn matches(&self, w: &Workload) -> (r: bool)
        ensures
            r == self.is_of(*w),
    {
        self.name == w.name && self.namespace == w.namespace && self.service_account
            == w.service_account
    }

    /// `<service account>.<namespace> (<name>)`
    pub fn display(&self) -> (r: String)
        ensures
            r@ == self.service_account@ + "."@ + self.namespace@ + " ("@ + self.name@ + ")"@,
    {
        let mut r = self.service_account.clone();
        r.append(".");
        r.append(self.namespace.as_str());
        r.append(" (");
        r.append(self.name.as_str());
        r.append(")");
        r
    }
}

/// The workloads that are known, from the one that was inserted first to the
/// one that was inserted last.
#[derive(Debug)]
pub struct WorkloadStore {
    /// The node this proxy runs on, where it is known.
    pub local_node: Option<String>,
    pub workloads: Vec<Arc<Workload>>,
}

impl WorkloadStore {
    /// No two workloads share a UID.
    pub open spec fn wf(self) -> bool {
        forall|i: int, j: int|
            0 <= i < j < self.workloads@.len() ==> (#[trigger] self.workloads@[i]).uid@ != (
            #[trigger] self.workloads@[j]).uid@
    }

    pub open spec fn uid_is(uid: Seq<char>) -> spec_fn(Arc<Workload>) -> bool {
        |w: Arc<Workload>| w.uid@ == uid
    }

    pub open spec fn uid_is_not(uid: Seq<char>) -> spec_fn(Arc<Workload>) -> bool {
        |w: Arc<Workload>| w.uid@ != uid
    }

    pub open spec fn address_is(a: NetworkAddress) -> spec_fn(Arc<Workload>) -> bool {
        |w: Arc<Workload>| w.has_address(a)
    }

    pub open spec fn info_is(info: WorkloadInfo) -> spec_fn(Arc<Workload>) -> bool {
        |w: Arc<Workload>| info.is_of(*w)
    }

    pub open spec fn host_is(name: NamespacedHostname) -> spec_fn(Arc<Workload>) -> bool {
        |w: Arc<Workload>| w.is_host(name)
    }

    /// The workload with this UID.
    pub open spec fn by_uid(self, uid: Seq<char>) -> Option<Arc<Workload>> {
        crate::search::first(self.workloads@, Self::uid_is(uid))
    }

    /// The workload with this address; where several claim it, the newest.
    pub open spec fn by_address(self, a: NetworkAddress) -> Option<Arc<Workload>> {
        crate::search::last(self.workloads@, Self::address_is(a))
    }

    /// A workload of which `info` tells.
    pub open spec fn by_info(self, info: WorkloadInfo) -> Option<Arc<Workload>> {
        crate::search::first(self.workloads@, Self::info_is(info))
    }

    /// A workload with this hostname in this namespace.
    pub open spec fn by_host(self, name: NamespacedHostname) -> Option<Arc<Workload>> {
        crate::search::first(self.workloads@, Self::host_is(name))
    }

    /// A store without workloads.
    pub fn new(local_node: Option<String>) -> (r: Self)
        ensures
            r.wf(),
            r.local_node == local_node,
            r.workloads@.len() == 0,
    {
        WorkloadStore { local_node, workloads: Vec::new() }
    }

    /// Where the workload with this UID stands.
    fn position(&self, uid: &String) -> (r: Option<usize>)
        ensures
            match r {
                Some(i) => i < self.workloads@.len() && self.workloads@[i as int].uid@ == uid@,
                None => forall|j: int|
                    0 <= j < self.workloads@.len() ==> (#[trigger] self.workloads@[j]).uid@ != uid@,
            },
    {
        let mut i: usize = 0;
        while i < self.workloads.len()
            invariant
                i <= self.workloads.len(),
                forall|j: int| 0 <= j < i ==> (#[trigger] self.workloads@[j]).uid@ != uid@,
            decreases self.workloads.len() - i,
        {
            if self.workloads[i].uid == *uid {
                return Some(i);
            }
            i = i + 1;
        }
        None
    }

    /// `after` is this store with the workload added, in place of the one with its
    /// UID if there is one.
    pub open spec fn gains(self, workload: Arc<Workload>, after: Self) -> bool {
        &&& after.local_node == self.local_node
        &&& after.workloads@ == self.workloads@.filter(Self::uid_is_not(workload.uid@)).push(
            workload,
        )
    }

    /// Adds a workload, in place of the one with its UID if there is one.
    pub fn insert(&mut self, workload: Arc<Workload>)
        requires
            old(self).wf(),
        ensures
            old(self).gains(workload, *final(self)),
            final(self).wf(),
            final(self).local_node == old(self).local_node,
            final(self).workloads@ == old(self).workloads@.filter(
                Self::uid_is_not(workload.uid@),
            ).push(workload),
    {
        let ghost p = Self::uid_is_not(workload.uid@);
        match self.position(&workload.uid) {
            Some(i) => {
                proof {
                    crate::search::lemma_filter_but(self.workloads@, p, i as int);
                }
                self.workloads.remove(i);
            },
            None => {
                proof {
                    crate::search::lemma_filter_all(self.workloads@, p);
                }
            },
        }
        self.workloads.push(workload);
    }

    /// A workload that was inserted is the one with its UID and at its addresses.
    /// What was known by another UID, or at another address, still is, unless it
    /// was the workload that was replaced.
    pub proof fn lemma_insert(before: Self, after: Self, workload: Arc<Workload>)
        requires
            after.workloads@ == before.workloads@.filter(Self::uid_is_not(workload.uid@)).push(
                workload,
            ),
        ensures
            forall|uid: Seq<char>|
                #[trigger] after.by_uid(uid) == if uid == workload.uid@ {
                    Some(workload)
                } else {
                    before.by_uid(uid)
                },
            forall|a: NetworkAddress|
                workload.has_address(a) ==> #[trigger] after.by_address(a) == Some(workload),
            forall|a: NetworkAddress|
                !workload.has_address(a) && (before.by_address(a) matches Some(w) ==> w.uid@
                    != workload.uid@) ==> #[trigger] after.by_address(a) == before.by_address(a),
    {
        let all = before.workloads@;
        let p = Self::uid_is_not(workload.uid@);
        assert forall|uid: Seq<char>| #[trigger] after.by_uid(uid) == (if uid == workload.uid@ {
            Some(workload)
        } else {
            before.by_uid(uid)
        }) by {
            let q = Self::uid_is(uid);
            crate::search::lemma_first_push(all.filter(p), workload, q);
            if uid == workload.uid@ {
                assert forall|j: int| 0 <= j < all.filter(p).len() implies !q(
                    #[trigger] all.filter(p)[j],
                ) by {
                    all.lemma_filter_pred(p, j);
                }
                crate::search::lemma_first_none(all.filter(p), q);
            } else {
                crate::search::lemma_first_is(all, q);
                crate::search::lemma_first_filter(all, p, q);
            }
        }
        assert forall|a: NetworkAddress|
            !workload.has_address(a) && (before.by_address(a) matches Some(w) ==> w.uid@
                != workload.uid@) implies #[trigger] after.by_address(a) == before.by_address(a) by {
            crate::search::lemma_last_filter(all, p, Self::address_is(a));
            assert(after.workloads@.drop_last() =~= all.filter(p));
        }
    }

    /// The workload with this UID.
    pub fn find_uid(&self, uid: &String) -> (r: Option<Arc<Workload>>)
        ensures
            r == self.by_uid(uid@),
    {
        let ghost p = Self::uid_is(uid@);
        let mut i: usize = 0;
        while i < self.workloads.len()
            invariant
                i <= self.workloads.len(),
                p == Self::uid_is(uid@),
                forall|j: int| 0 <= j < i ==> !p(#[trigger] self.workloads@[j]),
            decreases self.workloads.len() - i,
        {
            if self.workloads[i].uid == *uid {
                proof {
                    crate::search::lemma_first_at(self.workloads@, p, i as int);
                }
                return Some(self.workloads[i].clone());
            }
            i = i + 1;
        }
        proof {
            crate::search::lemma_first_none(self.workloads@, p);
        }
        None
    }

    /// The workload with this address; where several claim it, the newest.
    pub fn find_address(&self, addr: &NetworkAddress) -> (r: Option<Arc<Workload>>)
        ensures
            r == self.by_address(*addr),
    {
        let ghost p = Self::address_is(*addr);
        let mut i: usize = self.workloads.len();
        while i > 0
            invariant
                i <= self.workloads.len(),
                p == Self::address_is(*addr),
                forall|j: int| i <= j < self.workloads@.len() ==> !p(#[trigger] self.workloads@[j]),
            decreases i,
        {
            i = i - 1;
            let w = &self.workloads[i];
            if w.network == addr.network && w.has_ip(addr.address) {
                proof {
                    crate::search::lemma_last_at(self.workloads@, p, i as int);
                }
                return Some(w.clone());
            }
        }
        proof {
            crate::search::lemma_last_none(self.workloads@, p);
        }
        None
    }

    /// A workload of which `info` tells.
    pub fn find_by_info(&self, info: &WorkloadInfo) -> (r: Option<Arc<Workload>>)
        ensures
            r == self.by_info(*info),
    {
        let ghost p = Self::info_is(*info);
        let mut i: usize = 0;
        while i < self.workloads.len()
            invariant
                i <= self.workloads.len(),
                p == Self::info_is(*info),
                forall|j: int| 0 <= j < i ==> !p(#[trigger] self.workloads@[j]),
            decreases self.workloads.len() - i,
        {
            if info.matches(&self.workloads[i]) {
                proof {
                    crate::search::lemma_first_at(self.workloads@, p, i as int);
                }
                return Some(self.workloads[i].clone());
            }
            i = i + 1;
        }
        proof {
            crate::search::lemma_first_none(self.workloads@, p);
        }
        None
    }

    /// A workload with this hostname in this namespace.
    pub fn find_host(&self, name: &NamespacedHostname) -> (r: Option<Arc<Workload>>)
        ensures
            r == self.by_host(*name),
    {
        let ghost p = Self::host_is(*name);
        let mut i: usize = 0;
        while i < self.workloads.len()
            invariant
                i <= self.workloads.len(),
                p == Self::host_is(*name),
                forall|j: int| 0 <= j < i ==> !p(#[trigger] self.workloads@[j]),
            decreases self.workloads.len() - i,
        {
            let w = &self.workloads[i];
            if w.hostname == name.hostname && w.namespace == name.namespace {
                proof {
                    crate::search::lemma_first_at(self.workloads@, p, i as int);
                }
                return Some(w.clone());
            }
            i = i + 1;
        }
        proof {
            crate::search::lemma_first_none(self.workloads@, p);
        }
        None
    }
}

} // verus!
