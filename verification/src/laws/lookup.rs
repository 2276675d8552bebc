//! What is found, and what is not.

use std::sync::Arc;

use vstd::prelude::*;

use crate::address::{Destination, NamespacedHostname, NetworkAddress};
use crate::demand::{DemandKey, DemandProxyState, Fetch, Wait, WaitEvent};
use crate::error::Error;
use crate::policy::{KeyedPolicy, PolicyStore};
use crate::service::{
    ClusterWaypoint, Endpoint, EndpointSet, Service, ServiceStore, Waypoints,
};
use crate::state::{Address, ProxyState};
use crate::workload::{Workload, WorkloadInfo, WorkloadStore};

verus! {

/// The workload runs in the network of the address, and the IP is one of its.
pub open spec fn is_at(w: &Workload, a: NetworkAddress) -> bool {
    w.network@ == a.network@ && exists|k: int|
        0 <= k < w.workload_ips@.len() && #[trigger] w.workload_ips@[k] == a.address
}

/// The address is one of the virtual addresses of the service.
pub open spec fn serves(s: &Service, a: NetworkAddress) -> bool {
    exists|k: int|
        0 <= k < s.vips@.len() && (#[trigger] s.vips@[k]).network@ == a.network@ && s.vips@[k].address
            == a.address
}

/// The workload that is found by a UID is known, and has that UID; none is found
/// only where none has it. Each known workload is found by its own.
pub proof fn law_uid(store: WorkloadStore, uid: Seq<char>)
    ensures
        match store.by_uid(uid) {
            Some(w) => store.workloads@.contains(w) && w.uid@ == uid,
            None => forall|j: int|
                0 <= j < store.workloads@.len() ==> (#[trigger] store.workloads@[j]).uid@ != uid,
        },
        store.wf() ==> forall|j: int|
            0 <= j < store.workloads@.len() && (#[trigger] store.workloads@[j]).uid@ == uid
                ==> store.by_uid(uid) == Some(store.workloads@[j]),
{
    let p = WorkloadStore::uid_is(uid);
    crate::search::lemma_first_is(store.workloads@, p);
    if store.by_uid(uid) is None {
        assert forall|j: int| 0 <= j < store.workloads@.len() implies (
        #[trigger] store.workloads@[j]).uid@ != uid by {
            assert(!p(store.workloads@[j]));
        }
    }
    if store.wf() {
        assert forall|j: int| 0 <= j < store.workloads@.len() && (
        #[trigger] store.workloads@[j]).uid@ == uid implies store.by_uid(uid) == Some(
            store.workloads@[j],
        ) by {
            assert(p(store.workloads@[j]));
            let k = choose|k: int|
                0 <= k < store.workloads@.len() && store.workloads@[k] == store.by_uid(uid)->0;
            assert(store.workloads@[k].uid@ == uid);
        }
    }
}

/// The workload that is found at an address runs in its network and has its IP,
/// and none that became known later does; none is found only where none does.
pub proof fn law_address(store: WorkloadStore, a: NetworkAddress)
    ensures
        match store.by_address(a) {
            Some(w) => exists|i: int|
                {
                    &&& 0 <= i < store.workloads@.len()
                    &&& #[trigger] store.workloads@[i] == w
                    &&& is_at(&w, a)
                    &&& forall|j: int|
                        i < j < store.workloads@.len() ==> !is_at(&#[trigger] store.workloads@[j], a)
                },
            None => forall|j: int|
                0 <= j < store.workloads@.len() ==> !is_at(&#[trigger] store.workloads@[j], a),
        },
{
    let p = WorkloadStore::address_is(a);
    crate::search::lemma_last_index(store.workloads@, p);
    assert forall|w: Arc<Workload>| #[trigger] p(w) <==> is_at(&w, a) by {
        if p(w) {
            let k = choose|k: int| 0 <= k < w.workload_ips@.len() && w.workload_ips@[k] == a.address;
            assert(w.workload_ips@[k] == a.address);
        }
    }
    match store.by_address(a) {
        Some(w) => {
            let i = choose|i: int|
                0 <= i < store.workloads@.len() && #[trigger] store.workloads@[i] == w && p(w) && (
                forall|j: int| i < j < store.workloads@.len() ==> !p(#[trigger] store.workloads@[j]));
            assert forall|j: int| i < j < store.workloads@.len() implies !is_at(
                &#[trigger] store.workloads@[j],
                a,
            ) by {
                assert(!p(store.workloads@[j]));
            }
            assert(store.workloads@[i] == w);
        },
        None => {
            assert forall|j: int| 0 <= j < store.workloads@.len() implies !is_at(
                &#[trigger] store.workloads@[j],
                a,
            ) by {
                assert(!p(store.workloads@[j]));
            }
        },
    }
}

/// The workload that is found by its information has the name, the namespace and
/// the service account that were asked for; none is found only where none has
/// all three.
pub proof fn law_info(store: WorkloadStore, info: WorkloadInfo)
    ensures
        match store.by_info(info) {
            Some(w) => {
                &&& store.workloads@.contains(w)
                &&& w.name@ == info.name@
                &&& w.namespace@ == info.namespace@
                &&& w.service_account@ == info.service_account@
            },
            None => forall|j: int|
                0 <= j < store.workloads@.len() ==> !((#[trigger] store.workloads@[j]).name@
                    == info.name@ && store.workloads@[j].namespace@ == info.namespace@
                    && store.workloads@[j].service_account@ == info.service_account@),
        },
{
    let p = WorkloadStore::info_is(info);
    crate::search::lemma_first_is(store.workloads@, p);
    if store.by_info(info) is None {
        assert forall|j: int| 0 <= j < store.workloads@.len() implies !((
        #[trigger] store.workloads@[j]).name@ == info.name@ && store.workloads@[j].namespace@
            == info.namespace@ && store.workloads@[j].service_account@
            == info.service_account@) by {
            assert(!p(store.workloads@[j]));
        }
    }
}

/// A wait ends with a workload that has the name, the namespace and the service
/// account that are waited for, as soon as one is known. It ends without one
/// exactly when time is up, and goes on only while none is known.
pub proof fn law_wait(demand: DemandProxyState, info: WorkloadInfo, event: WaitEvent)
    ensures
        ({
            let known = demand.state.workloads.workloads@;
            match demand.waits(info, event) {
                Wait::Done(Some(w)) => {
                    &&& event !is TimedOut
                    &&& known.contains(w)
                    &&& w.name@ == info.name@
                    &&& w.namespace@ == info.namespace@
                    &&& w.service_account@ == info.service_account@
                },
                Wait::Done(None) => event is TimedOut,
                Wait::Continue => event !is TimedOut && forall|j: int|
                    0 <= j < known.len() ==> !((#[trigger] known[j]).name@ == info.name@
                        && known[j].namespace@ == info.namespace@ && known[j].service_account@
                        == info.service_account@),
            }
        }),
{
    law_info(demand.state.workloads, info);
}

/// The workload that is found by a hostname has it, in that namespace; none is
/// found only where none does.
pub proof fn law_host(store: WorkloadStore, name: NamespacedHostname)
    ensures
        match store.by_host(name) {
            Some(w) => store.workloads@.contains(w) && w.hostname@ == name.hostname@ && w.namespace@
                == name.namespace@,
            None => forall|j: int|
                0 <= j < store.workloads@.len() ==> !((#[trigger] store.workloads@[j]).hostname@
                    == name.hostname@ && store.workloads@[j].namespace@ == name.namespace@),
        },
{
    let p = WorkloadStore::host_is(name);
    crate::search::lemma_first_is(store.workloads@, p);
    if store.by_host(name) is None {
        assert forall|j: int| 0 <= j < store.workloads@.len() implies !((
        #[trigger] store.workloads@[j]).hostname@ == name.hostname@
            && store.workloads@[j].namespace@ == name.namespace@) by {
            assert(!p(store.workloads@[j]));
        }
    }
}

/// The service that is found at a virtual address has it, and none that became
/// known later does; none is found only where none does.
pub proof fn law_vip(store: ServiceStore, a: NetworkAddress)
    ensures
        match store.by_vip(a) {
            Some(s) => exists|i: int|
                {
                    &&& 0 <= i < store.services@.len()
                    &&& #[trigger] store.services@[i] == s
                    &&& serves(&s, a)
                    &&& forall|j: int|
                        i < j < store.services@.len() ==> !serves(&#[trigger] store.services@[j], a)
                },
            None => forall|j: int|
                0 <= j < store.services@.len() ==> !serves(&#[trigger] store.services@[j], a),
        },
{
    let p = ServiceStore::vip_is(a);
    crate::search::lemma_last_index(store.services@, p);
    assert forall|s: Arc<Service>| #[trigger] p(s) <==> serves(&s, a) by {
        if p(s) {
            let k = choose|k: int| 0 <= k < s.vips@.len() && (#[trigger] s.vips@[k]).same(a);
            assert(s.vips@[k].network@ == a.network@);
        }
        if serves(&s, a) {
            let k = choose|k: int|
                0 <= k < s.vips@.len() && (#[trigger] s.vips@[k]).network@ == a.network@
                    && s.vips@[k].address == a.address;
            assert(s.vips@[k].same(a));
        }
    }
    match store.by_vip(a) {
        Some(s) => {
            let i = choose|i: int|
                0 <= i < store.services@.len() && #[trigger] store.services@[i] == s && p(s) && (
                forall|j: int| i < j < store.services@.len() ==> !p(#[trigger] store.services@[j]));
            assert forall|j: int| i < j < store.services@.len() implies !serves(
                &#[trigger] store.services@[j],
                a,
            ) by {
                assert(!p(store.services@[j]));
            }
            assert(store.services@[i] == s);
        },
        None => {
            assert forall|j: int| 0 <= j < store.services@.len() implies !serves(
                &#[trigger] store.services@[j],
                a,
            ) by {
                assert(!p(store.services@[j]));
            }
        },
    }
}

/// The service that is found by a name has that hostname in that namespace; none
/// is found only where none does.
pub proof fn law_name(store: ServiceStore, name: NamespacedHostname)
    ensures
        match store.by_name(name) {
            Some(s) => store.services@.contains(s) && s.hostname@ == name.hostname@ && s.namespace@
                == name.namespace@,
            None => forall|j: int|
                0 <= j < store.services@.len() ==> !((#[trigger] store.services@[j]).hostname@
                    == name.hostname@ && store.services@[j].namespace@ == name.namespace@),
        },
{
    let p = ServiceStore::named(name);
    crate::search::lemma_first_is(store.services@, p);
    if store.by_name(name) is None {
        assert forall|j: int| 0 <= j < store.services@.len() implies !((
        #[trigger] store.services@[j]).hostname@ == name.hostname@
            && store.services@[j].namespace@ == name.namespace@) by {
            assert(!p(store.services@[j]));
        }
    }
}

/// The services that are found by a hostname are all that have it, and no
/// others.
pub proof fn law_hostname(store: ServiceStore, hostname: Seq<char>, s: Arc<Service>)
    ensures
        store.by_hostname(hostname).contains(s) <==> store.services@.contains(s) && s.hostname@
            == hostname,
{
    let p = ServiceStore::hostname_is(hostname);
    let found = store.by_hostname(hostname);
    if found.contains(s) {
        store.services@.lemma_filter_contains_rev(p, s);
        let k = choose|k: int| 0 <= k < found.len() && found[k] == s;
        store.services@.lemma_filter_pred(p, k);
    }
    if store.services@.contains(s) && s.hostname@ == hostname {
        let k = choose|k: int| 0 <= k < store.services@.len() && store.services@[k] == s;
        store.services@.lemma_filter_contains(p, k);
    }
}

/// The services of a workload are those that are known by a name it gives, and
/// no others.
pub proof fn law_services_of(demand: DemandProxyState, w: Workload, s: Arc<Service>)
    requires
        demand.state.services.wf(),
    ensures
        demand.services_of(w).contains(s) <==> demand.state.services.services@.contains(s)
            && exists|k: int|
            0 <= k < w.services@.len() && (#[trigger] w.services@[k]).hostname@ == s.hostname@
                && w.services@[k].namespace@ == s.namespace@,
{
    let store = demand.state.services;
    let f = store.lookup();
    let names = w.services@;
    if names.filter_map(f).contains(s) {
        names.lemma_filter_map_contains(f, s);
        let t = choose|t: NamespacedHostname| #[trigger] names.contains(t) && f(t) == Some(s);
        law_name(store, t);
        let k = choose|k: int| 0 <= k < names.len() && names[k] == t;
        assert(names[k].hostname@ == s.hostname@);
    }
    if store.services@.contains(s) && exists|k: int|
        0 <= k < names.len() && (#[trigger] names[k]).hostname@ == s.hostname@ && names[k].namespace@
            == s.namespace@ {
        let k = choose|k: int|
            0 <= k < names.len() && (#[trigger] names[k]).hostname@ == s.hostname@
                && names[k].namespace@ == s.namespace@;
        law_name(store, names[k]);
        let i = choose|i: int| 0 <= i < store.services@.len() && store.services@[i] == s;
        assert(store.services@[i].hostname@ == s.hostname@);
        let found = store.by_name(names[k]);
        let j = choose|j: int| 0 <= j < store.services@.len() && store.services@[j] == found->0;
        assert(store.services@[j].hostname@ == s.hostname@);
        crate::search::lemma_filter_map_has(names, f, k);
    }
}

/// The policy that is found by a key has it; none is found only where none does.
pub proof fn law_policy(store: PolicyStore, key: Seq<char>)
    ensures
        match store.by_key(key) {
            Some(p) => exists|i: int|
                0 <= i < store.policies@.len() && (#[trigger] store.policies@[i]).key@ == key
                    && store.policies@[i].policy == p,
            None => forall|j: int|
                0 <= j < store.policies@.len() ==> (#[trigger] store.policies@[j]).key@ != key,
        },
{
    let p = PolicyStore::key_is(key);
    crate::search::lemma_first_is(store.policies@, p);
    match crate::search::first(store.policies@, p) {
        Some(found) => {
            let i = choose|i: int| 0 <= i < store.policies@.len() && store.policies@[i] == found;
            assert(store.policies@[i].key@ == key);
        },
        None => {
            assert forall|j: int| 0 <= j < store.policies@.len() implies (
            #[trigger] store.policies@[j]).key@ != key by {
                assert(!p(store.policies@[j]));
            }
        },
    }
}

/// The waypoint that is found in a cluster is configured there; none is found
/// only where none is.
pub proof fn law_cluster(waypoints: Waypoints, cluster: Seq<char>)
    ensures
        match waypoints.in_cluster(cluster) {
            Some(g) => exists|i: int|
                0 <= i < waypoints.inner@.len() && (#[trigger] waypoints.inner@[i]).cluster_id@
                    == cluster && waypoints.inner@[i].gateway == g,
            None => forall|j: int|
                0 <= j < waypoints.inner@.len() ==> (#[trigger] waypoints.inner@[j]).cluster_id@
                    != cluster,
        },
{
    let p = Waypoints::cluster_is(cluster);
    crate::search::lemma_first_is(waypoints.inner@, p);
    match crate::search::first(waypoints.inner@, p) {
        Some(found) => {
            let i = choose|i: int| 0 <= i < waypoints.inner@.len() && waypoints.inner@[i] == found;
            assert(waypoints.inner@[i].cluster_id@ == cluster);
        },
        None => {
            assert forall|j: int| 0 <= j < waypoints.inner@.len() implies (
            #[trigger] waypoints.inner@[j]).cluster_id@ != cluster by {
                assert(!p(waypoints.inner@[j]));
            }
        },
    }
}

/// At an address a workload is found if any is there; a service only if none is;
/// and nothing only if neither is.
pub proof fn law_find_address(state: ProxyState, a: NetworkAddress)
    ensures
        match state.at_destination(Destination::Address(a)) {
            Some(Address::Workload(w)) => state.workloads.workloads@.contains(w) && is_at(&w, a),
            Some(Address::Service(s)) => {
                &&& state.services.services@.contains(s)
                &&& serves(&s, a)
                &&& forall|j: int|
                    0 <= j < state.workloads.workloads@.len() ==> !is_at(
                        &#[trigger] state.workloads.workloads@[j],
                        a,
                    )
            },
            None => {
                &&& forall|j: int|
                    0 <= j < state.workloads.workloads@.len() ==> !is_at(
                        &#[trigger] state.workloads.workloads@[j],
                        a,
                    )
                &&& forall|j: int|
                    0 <= j < state.services.services@.len() ==> !serves(
                        &#[trigger] state.services.services@[j],
                        a,
                    )
            },
        },
        state.at_address(a) == state.at_destination(Destination::Address(a)),
{
    law_address(state.workloads, a);
    law_vip(state.services, a);
}

/// By a hostname a service is found if any has it; a workload only if none does;
/// and nothing only if neither does.
pub proof fn law_find_hostname(state: ProxyState, name: NamespacedHostname)
    ensures
        ({
            let services = state.services.services@;
            let workloads = state.workloads.workloads@;
            match state.at_destination(Destination::Hostname(name)) {
                Some(Address::Service(s)) => services.contains(s) && s.hostname@ == name.hostname@
                    && s.namespace@ == name.namespace@,
                Some(Address::Workload(w)) => {
                    &&& workloads.contains(w)
                    &&& w.hostname@ == name.hostname@
                    &&& w.namespace@ == name.namespace@
                    &&& forall|j: int|
                        0 <= j < services.len() ==> !((#[trigger] services[j]).hostname@
                            == name.hostname@ && services[j].namespace@ == name.namespace@)
                },
                None => {
                    &&& forall|j: int|
                        0 <= j < services.len() ==> !((#[trigger] services[j]).hostname@
                            == name.hostname@ && services[j].namespace@ == name.namespace@)
                    &&& forall|j: int|
                        0 <= j < workloads.len() ==> !((#[trigger] workloads[j]).hostname@
                            == name.hostname@ && workloads[j].namespace@ == name.namespace@)
                },
            }
        }),
        state.at_hostname(name) == state.at_destination(Destination::Hostname(name)),
{
    law_name(state.services, name);
    law_host(state.workloads, name);
}

/// What is found ends a lookup. What is not found is asked for exactly where the
/// control plane can be asked and was not yet; otherwise the lookup ends without
/// it.
pub proof fn law_fetch<T>(found: Option<T>, on_demand: bool, asked: bool, key: DemandKey)
    ensures
        found is Some ==> Fetch::after(found, on_demand, asked, key) == Fetch::Done(found),
        found is None && on_demand && !asked ==> Fetch::after(found, on_demand, asked, key)
            == Fetch::<T>::Demand(key),
        found is None && !(on_demand && !asked) ==> Fetch::after(found, on_demand, asked, key)
            == Fetch::<T>::Done(None),
{
}

/// By a hostname all services that have it are found, and no others; where there
/// is none, the hostname is told.
pub proof fn law_found_by_hostname(
    state: ProxyState,
    hostname: String,
    r: Result<Seq<Arc<Service>>, Error>,
)
    requires
        state.is_found_by_hostname(hostname, r),
    ensures
        match r {
            Ok(found) => found.len() > 0 && forall|s: Arc<Service>|
                #[trigger] found.contains(s) <==> state.services.services@.contains(s)
                    && s.hostname@ == hostname@,
            Err(e) => e == Error::NoHostname(hostname) && forall|j: int|
                0 <= j < state.services.services@.len() ==> (
                #[trigger] state.services.services@[j]).hostname@ != hostname@,
        },
{
    match r {
        Ok(found) => {
            assert forall|s: Arc<Service>| #[trigger] found.contains(s) <==>
                state.services.services@.contains(s) && s.hostname@ == hostname@ by {
                law_hostname(state.services, hostname@, s);
            }
        },
        Err(_) => {
            assert forall|j: int| 0 <= j < state.services.services@.len() implies (
            #[trigger] state.services.services@[j]).hostname@ != hostname@ by {
                law_hostname(state.services, hostname@, state.services.services@[j]);
                assert(state.services.services@.contains(state.services.services@[j]));
            }
        },
    }
}

/// A workload that is looked up by its address runs in that network and has that
/// IP. It is asked for by the same address, exactly where none is known there, the
/// control plane can be asked, and was not yet.
pub proof fn law_fetch_by_address(demand: DemandProxyState, a: NetworkAddress, asked: bool)
    ensures
        ({
            let workloads = demand.state.workloads.workloads@;
            match demand.fetch_by_address(a, asked) {
                Fetch::Done(Some(w)) => workloads.contains(w) && is_at(&w, a),
                Fetch::Done(None) => (!demand.on_demand || asked) && forall|j: int|
                    0 <= j < workloads.len() ==> !is_at(&#[trigger] workloads[j], a),
                Fetch::Demand(key) => key == DemandKey::Address(a) && demand.on_demand && !asked
                    && forall|j: int|
                    0 <= j < workloads.len() ==> !is_at(&#[trigger] workloads[j], a),
            }
        }),
{
    law_address(demand.state.workloads, a);
}

/// A workload that is looked up by its UID has that UID. It is asked for by the
/// same UID, exactly where none is known by it, the control plane can be asked, and
/// was not yet.
pub proof fn law_fetch_by_uid(demand: DemandProxyState, uid: String, asked: bool)
    ensures
        ({
            let workloads = demand.state.workloads.workloads@;
            match demand.fetch_by_uid(uid, asked) {
                Fetch::Done(Some(w)) => workloads.contains(w) && w.uid@ == uid@,
                Fetch::Done(None) => (!demand.on_demand || asked) && forall|j: int|
                    0 <= j < workloads.len() ==> (#[trigger] workloads[j]).uid@ != uid@,
                Fetch::Demand(key) => key == DemandKey::Uid(uid) && demand.on_demand && !asked
                    && forall|j: int|
                    0 <= j < workloads.len() ==> (#[trigger] workloads[j]).uid@ != uid@,
            }
        }),
{
    law_uid(demand.state.workloads, uid@);
}

/// What is asked for is the very destination that was looked up, and it is asked
/// for exactly where nothing is known of it, the control plane can be asked, and
/// was not yet.
pub proof fn law_fetch_destination(demand: DemandProxyState, dest: Destination, asked: bool)
    ensures
        match demand.fetch(dest, asked) {
            Fetch::Done(found) => found == demand.state.at_destination(dest) && (found is None
                ==> !demand.on_demand || asked),
            Fetch::Demand(key) => {
                &&& demand.on_demand && !asked
                &&& demand.state.at_destination(dest) is None
                &&& match dest {
                    Destination::Address(a) => key == DemandKey::Address(a),
                    Destination::Hostname(name) => key == DemandKey::Hostname(name),
                }
            },
        },
{
}

/// A workload that is inserted is known from then on, as the newest, in place of
/// the one with its UID; all others stay known.
pub proof fn law_insert_workload(before: WorkloadStore, w: Arc<Workload>, after: WorkloadStore)
    requires
        before.gains(w, after),
    ensures
        after.local_node == before.local_node,
        after.workloads@.len() > 0 && after.workloads@.last() == w,
        forall|v: Arc<Workload>|
            #[trigger] after.workloads@.contains(v) <==> v == w || (before.workloads@.contains(v)
                && v.uid@ != w.uid@),
        after.by_uid(w.uid@) == Some(w),
        forall|uid: Seq<char>|
            uid != w.uid@ ==> #[trigger] after.by_uid(uid) == before.by_uid(uid),
        forall|a: NetworkAddress| is_at(&w, a) ==> #[trigger] after.by_address(a) == Some(w),
{
    let p = WorkloadStore::uid_is_not(w.uid@);
    WorkloadStore::lemma_insert(before, after, w);
    assert forall|v: Arc<Workload>| #[trigger] after.workloads@.contains(v) <==> v == w || (
    before.workloads@.contains(v) && v.uid@ != w.uid@) by {
        lemma_filter_push_contains(before.workloads@, p, w, v);
    }
    assert forall|a: NetworkAddress| is_at(&w, a) implies #[trigger] after.by_address(a) == Some(
        w,
    ) by {
        assert(w.has_address(a));
    }
}

/// A service that is inserted is known from then on, as the newest, in place of
/// the one with its hostname and namespace; all others stay known.
pub proof fn law_insert_service(before: ServiceStore, s: Service, after: ServiceStore)
    requires
        before.gains(s, after),
    ensures
        after.staged_services == before.staged_services,
        after.services@.len() > 0 && after.services@.last() == Arc::new(s),
        forall|v: Arc<Service>|
            #[trigger] after.services@.contains(v) <==> v == Arc::new(s) || (
            before.services@.contains(v) && !(v.hostname@ == s.hostname@ && v.namespace@
                == s.namespace@)),
        forall|a: NetworkAddress|
            serves(&s, a) ==> #[trigger] after.by_vip(a) == Some(Arc::new(s)),
        forall|name: NamespacedHostname|
            name.hostname@ == s.hostname@ && name.namespace@ == s.namespace@
                ==> #[trigger] after.by_name(name) == Some(Arc::new(s)),
{
    let p = ServiceStore::named_unlike(s);
    ServiceStore::lemma_insert(before, after, s);
    assert forall|v: Arc<Service>| #[trigger] after.services@.contains(v) <==> v == Arc::new(s) || (
    before.services@.contains(v) && !(v.hostname@ == s.hostname@ && v.namespace@
        == s.namespace@)) by {
        lemma_filter_push_contains(before.services@, p, Arc::new(s), v);
    }
    assert forall|a: NetworkAddress| serves(&s, a) implies #[trigger] after.by_vip(a) == Some(
        Arc::new(s),
    ) by {
        let k = choose|k: int|
            0 <= k < s.vips@.len() && (#[trigger] s.vips@[k]).network@ == a.network@
                && s.vips@[k].address == a.address;
        assert(s.vips@[k].same(a));
    }
}

/// A policy that is inserted is known from then on, in place of the one with its
/// key; all others stay known.
pub proof fn law_insert_policy(before: PolicyStore, added: KeyedPolicy, after: PolicyStore)
    requires
        before.gains(added, after),
    ensures
        forall|v: KeyedPolicy|
            #[trigger] after.policies@.contains(v) <==> v == added || (before.policies@.contains(v)
                && v.key@ != added.key@),
        after.by_key(added.key@) == Some(added.policy),
        forall|key: Seq<char>|
            key != added.key@ ==> #[trigger] after.by_key(key) == before.by_key(key),
{
    let p = PolicyStore::key_is_not(added.key@);
    PolicyStore::lemma_insert(before, after, added);
    assert forall|v: KeyedPolicy| #[trigger] after.policies@.contains(v) <==> v == added || (
    before.policies@.contains(v) && v.key@ != added.key@) by {
        lemma_filter_push_contains(before.policies@, p, added, v);
    }
}

/// An endpoint that is inserted stands in place of the one of its workload; all
/// others stay.
pub proof fn law_insert_endpoint(before: EndpointSet, e: Endpoint, after: EndpointSet)
    requires
        before.gains(e, after),
    ensures
        forall|v: Arc<Endpoint>|
            #[trigger] after.inner@.contains(v) <==> v == Arc::new(e) || (before.inner@.contains(v)
                && v.workload_uid@ != e.workload_uid@),
{
    let p = EndpointSet::uid_is_not(e.workload_uid@);
    assert forall|v: Arc<Endpoint>| #[trigger] after.inner@.contains(v) <==> v == Arc::new(e) || (
    before.inner@.contains(v) && v.workload_uid@ != e.workload_uid@) by {
        lemma_filter_push_contains(before.inner@, p, Arc::new(e), v);
    }
}

/// `v` stands at `i`, and no later endpoint of the list is of its workload.
pub open spec fn is_last(list: Seq<Endpoint>, i: int, v: Arc<Endpoint>) -> bool {
    &&& 0 <= i < list.len()
    &&& list[i] == *v
    &&& forall|j: int| i < j < list.len() ==> (#[trigger] list[j]).workload_uid@ != v.workload_uid@
}

/// The endpoints of a list are its last ones of each workload, and no others.
pub proof fn law_endpoints_of_list(list: Seq<Endpoint>, v: Arc<Endpoint>)
    ensures
        EndpointSet::of_list(list).contains(v) <==> exists|i: int| is_last(list, i, v),
    decreases list.len(),
{
    if list.len() > 0 {
        let rest = list.drop_last();
        let e = Arc::new(list.last());
        let end = list.len() - 1;
        law_endpoints_of_list(rest, v);
        lemma_filter_push_contains(
            EndpointSet::of_list(rest),
            EndpointSet::uid_is_not(e.workload_uid@),
            e,
            v,
        );
        assert(v == e ==> is_last(list, end, v));
        assert forall|i: int| v.workload_uid@ != e.workload_uid@ && is_last(
            rest,
            i,
            v,
        ) implies is_last(list, i, v) by {
            assert(list[i] == rest[i]);
            assert forall|j: int| i < j < list.len() implies (#[trigger] list[j]).workload_uid@
                != v.workload_uid@ by {
                if j < end {
                    assert(list[j] == rest[j]);
                }
            }
        }
        assert forall|i: int| is_last(list, i, v) implies v == e || (v.workload_uid@
            != e.workload_uid@ && is_last(rest, i, v)) by {
            if i < end {
                assert(list[end].workload_uid@ != v.workload_uid@);
                assert(list[i] == rest[i]);
                assert forall|j: int| i < j < rest.len() implies (
                #[trigger] rest[j]).workload_uid@ != v.workload_uid@ by {
                    assert(list[j] == rest[j]);
                }
            }
        }
    }
}

/// A waypoint that is configured for a cluster is found there, and the other
/// clusters keep theirs.
pub proof fn law_insert_waypoint(before: Waypoints, added: ClusterWaypoint, after: Waypoints)
    requires
        before.gains(added, after),
    ensures
        after.in_cluster(added.cluster_id@) == Some(added.gateway),
        forall|cluster: Seq<char>|
            cluster != added.cluster_id@ ==> #[trigger] after.in_cluster(cluster)
                == before.in_cluster(cluster),
{
    let all = before.inner@;
    let p = Waypoints::cluster_is_not(added.cluster_id@);
    assert forall|cluster: Seq<char>| #[trigger] after.in_cluster(cluster) == (if cluster
        == added.cluster_id@ {
        Some(added.gateway)
    } else {
        before.in_cluster(cluster)
    }) by {
        let q = Waypoints::cluster_is(cluster);
        crate::search::lemma_first_push(all.filter(p), added, q);
        if cluster == added.cluster_id@ {
            assert forall|j: int| 0 <= j < all.filter(p).len() implies !q(
                #[trigger] all.filter(p)[j],
            ) by {
                all.lemma_filter_pred(p, j);
            }
            crate::search::lemma_first_none(all.filter(p), q);
        } else {
            crate::search::lemma_first_is(all, q);
            crate::search::lemma_first_filter(all, p, q);
        }
    }
}

/// What a list holds after some of it was dropped and one element was added.
proof fn lemma_filter_push_contains<T>(s: Seq<T>, p: spec_fn(T) -> bool, x: T, v: T)
    ensures
        s.filter(p).push(x).contains(v) <==> v == x || (s.contains(v) && p(v)),
{
    let f = s.filter(p);
    if f.push(x).contains(v) && v != x {
        let k = choose|k: int| 0 <= k < f.push(x).len() && f.push(x)[k] == v;
        assert(f[k] == v);
        assert(f.contains(v));
        s.lemma_filter_contains_rev(p, v);
        s.lemma_filter_pred(p, k);
    }
    if v == x {
        assert(f.push(x)[f.len() as int] == v);
    } else if s.contains(v) && p(v) {
        let k = choose|k: int| 0 <= k < s.len() && s[k] == v;
        s.lemma_filter_contains(p, k);
        let l = choose|l: int| 0 <= l < f.len() && f[l] == v;
        assert(f.push(x)[l] == v);
    }
}

} // verus!
