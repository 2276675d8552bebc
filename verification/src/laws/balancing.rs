//! Which endpoint of a service a connection goes to, and at which port.

use std::sync::Arc;

use vstd::prelude::*;

use crate::picker::{Candidate, Ranking};
use crate::service::{Endpoint, LoadBalancerMode, LoadBalancerScopes, Service};
use crate::state::{ProxyState, ServiceResolutionMode};
use crate::workload::Workload;

verus! {

broadcast use vstd::std_specs::hash::group_hash_axioms;

/// A connection from `source` can be made to the workload: it has an IP or a
/// hostname, or it is in another network and a gateway leads there.
pub open spec fn connectable(source: &Workload, w: &Workload) -> bool {
    ||| w.workload_ips@.len() > 0
    ||| w.hostname@.len() > 0
    ||| w.network@ != source.network@ && w.network_gateway is Some
}

/// `p` is the port of the workload for a port of the service: what the endpoint
/// says; or else what the service says, if that is not zero; or else the port
/// itself, if the workload has an application tunnel with a port.
pub open spec fn goes_to(ep: &Endpoint, w: &Workload, s: &Service, port: u16, p: u16) -> bool {
    if ep.port@.contains_key(port) {
        p == ep.port@[port]
    } else if s.ports@.contains_key(port) && s.ports@[port] != 0 {
        p == s.ports@[port]
    } else {
        p == port && (w.application_tunnel matches Some(t) && t.port is Some)
    }
}

/// The endpoint is considered for a port of the service. A service that users
/// address has to have the port, and the port has to be told by it or by the
/// endpoint. For a waypoint an application tunnel will do.
pub open spec fn considered(
    mode: ServiceResolutionMode,
    ep: &Endpoint,
    w: &Workload,
    s: &Service,
    port: u16,
) -> bool {
    match mode {
        ServiceResolutionMode::Standard => s.ports@.contains_key(port) && (ep.port@.contains_key(
            port,
        ) || s.ports@[port] != 0),
        ServiceResolutionMode::Waypoint => s.ports@.contains_key(port)
            || w.application_tunnel is Some,
    }
}

/// Source and target are equal in what the scope is about.
pub open spec fn meets(scope: LoadBalancerScopes, source: &Workload, target: &Workload) -> bool {
    &&& scope is Region ==> source.locality.region@ == target.locality.region@
    &&& scope is Zone ==> source.locality.zone@ == target.locality.zone@
    &&& scope is Subzone ==> source.locality.subzone@ == target.locality.subzone@
    &&& scope is Node ==> source.node@ == target.node@
    &&& scope is Cluster ==> source.cluster_id@ == target.cluster_id@
    &&& scope is Network ==> source.network@ == target.network@
}

/// The first `n` preferences are met, and the next one is not.
pub open spec fn leads(
    preferences: Seq<LoadBalancerScopes>,
    n: nat,
    source: &Workload,
    target: &Workload,
) -> bool {
    &&& n <= preferences.len()
    &&& forall|i: int| 0 <= i < n ==> meets(#[trigger] preferences[i], source, target)
    &&& n < preferences.len() ==> !meets(preferences[n as int], source, target)
}

/// A workload with an IP or a hostname can be reached from everywhere, whether or
/// not it has a gateway; one with neither exactly from other networks, and only
/// through a gateway.
pub proof fn law_reachable(source: Workload, w: Workload)
    ensures
        crate::state::reachable(source, w) <==> connectable(&source, &w),
        w.workload_ips@.len() > 0 || w.hostname@.len() > 0 ==> crate::state::reachable(source, w),
        w.workload_ips@.len() == 0 && w.hostname@.len() == 0 ==> (crate::state::reachable(source, w)
            <==> w.network@ != source.network@ && w.network_gateway is Some),
{
}

/// What the endpoint says of a port goes before what the service says, and that
/// goes before the application tunnel.
pub proof fn law_port(ep: Endpoint, w: Workload, s: Service, port: u16)
    ensures
        forall|p: u16|
            crate::state::translated_port(ep, w, s, port) == Some(p) <==> #[trigger] goes_to(
                &ep,
                &w,
                &s,
                port,
                p,
            ),
        crate::state::translated_port(ep, w, s, port) is None ==> !ep.port@.contains_key(port) && (
        s.ports@.contains_key(port) ==> s.ports@[port] == 0) && (w.application_tunnel matches Some(
            t,
        ) ==> t.port is None),
{
}

/// A preference is met exactly where source and target are equal in it.
pub proof fn law_scope(ranking: Ranking, scope: LoadBalancerScopes, target: &Workload)
    ensures
        ranking.agrees(scope, target) <==> meets(scope, &ranking.source, target),
{
}

/// Without a policy, or with one that sets no preference, every workload has rank
/// zero. In failover mode the rank is the number of preferences that are met
/// before the first that is not. In strict mode it is the number of all of them,
/// and a workload that does not meet all of them has none.
pub proof fn law_rank(ranking: Ranking, target: &Workload)
    ensures
        match ranking.service.load_balancer {
            None => ranking.rank(target) == Some(0nat),
            Some(lb) => match lb.mode {
                LoadBalancerMode::Standard => ranking.rank(target) == Some(0nat),
                LoadBalancerMode::Failover => ranking.rank(target) is Some && leads(
                    lb.routing_preferences@,
                    ranking.rank(target)->0,
                    &ranking.source,
                    target,
                ),
                LoadBalancerMode::Strict => if forall|i: int|
                    0 <= i < lb.routing_preferences@.len() ==> meets(
                        #[trigger] lb.routing_preferences@[i],
                        &ranking.source,
                        target,
                    ) {
                    ranking.rank(target) == Some(lb.routing_preferences@.len())
                } else {
                    ranking.rank(target) is None
                },
            },
        },
{
    if ranking.service.load_balancer is Some {
        let preferences = ranking.service.load_balancer->0.routing_preferences@;
        ranking.lemma_met(preferences, target);
        let n = ranking.met(preferences, target);
        assert forall|i: int| 0 <= i < n implies meets(
            #[trigger] preferences[i],
            &ranking.source,
            target,
        ) by {
            assert(ranking.agrees(preferences[i], target));
        }
        assert(leads(preferences, n, &ranking.source, target));
    }
}

/// A workload that is where the source is, in every respect, meets all
/// preferences: no other workload has a higher rank.
pub proof fn law_local(ranking: Ranking, target: &Workload)
    requires
        target.locality.region@ == ranking.source.locality.region@,
        target.locality.zone@ == ranking.source.locality.zone@,
        target.locality.subzone@ == ranking.source.locality.subzone@,
        target.node@ == ranking.source.node@,
        target.cluster_id@ == ranking.source.cluster_id@,
        target.network@ == ranking.source.network@,
    ensures
        ranking.service.load_balancer matches Some(lb) && lb.mode != LoadBalancerMode::Standard
            ==> ranking.rank(target) == Some(
            ranking.service.load_balancer->0.routing_preferences@.len(),
        ),
        ranking.rank(target) is Some,
        forall|other: &Workload|
            (#[trigger] ranking.rank(other)) matches Some(n) ==> n <= ranking.rank(target)->0,
{
    law_rank(ranking, target);
    if ranking.service.load_balancer is Some {
        let preferences = ranking.service.load_balancer->0.routing_preferences@;
        assert forall|i: int| 0 <= i < preferences.len() implies meets(
            #[trigger] preferences[i],
            &ranking.source,
            target,
        ) by {}
        assert forall|other: &Workload| (#[trigger] ranking.rank(other)) matches Some(
            n,
        ) implies ranking.rank(other)->0 <= ranking.rank(target)->0 by {
            law_rank(ranking, other);
        }
    }
}

/// The finalists are the candidates that were offered and that no other one has
/// a higher rank than.
pub proof fn law_finalists(ranking: Ranking, offered: Seq<Candidate>, c: Candidate)
    ensures
        ranking.finalists(offered).contains(c) <==> offered.contains(c) && (ranking.rank(
            &c.workload,
        ) matches Some(n) && forall|i: int|
            0 <= i < offered.len() ==> (ranking.rank(
                &(#[trigger] offered[i]).workload,
            ) matches Some(m) ==> m <= n)),
{
    let best = ranking.best(offered);
    let p = ranking.ranked(best);
    Candidate::lemma_filter_has(offered, p, c);
    ranking.lemma_best(offered);
    if offered.contains(c) && ranking.rank(&c.workload) is Some && forall|i: int|
        0 <= i < offered.len() ==> (ranking.rank(&(#[trigger] offered[i]).workload) matches Some(m)
            ==> m <= ranking.rank(&c.workload)->0) {
        let k = choose|k: int| 0 <= k < offered.len() && offered[k] == c;
        assert(ranking.rank(&offered[k].workload) is Some);
        if best > 0 {
            let i = choose|i: int|
                0 <= i < offered.len() && ranking.rank(&(#[trigger] offered[i]).workload) == Some(
                    best,
                );
            assert(ranking.rank(&offered[i].workload)->0 <= ranking.rank(&c.workload)->0);
        }
    }
}

/// The candidates are all of waypoints, or none is.
pub open spec fn of_one_kind(f: Seq<Candidate>) -> bool {
    ||| forall|i: int| 0 <= i < f.len() ==> (#[trigger] f[i]).waypoint is Some
    ||| forall|i: int| 0 <= i < f.len() ==> (#[trigger] f[i]).waypoint is None
}

/// What one candidate contributes.
proof fn lemma_drawable(s: Seq<Candidate>)
    requires
        s.len() <= u32::MAX,
    ensures
        Candidate::drawable(s) <==> exists|i: int|
            0 <= i < s.len() && (#[trigger] s[i]).workload.capacity > 0,
    decreases s.len(),
{
    Candidate::lemma_total_capacity(s);
    assert(s.len() * u32::MAX <= u64::MAX) by (nonlinear_arith)
        requires
            s.len() <= u32::MAX,
    ;
    if s.len() > 0 {
        let rest = s.drop_last();
        lemma_drawable(rest);
        Candidate::lemma_total_capacity(rest);
        if Candidate::drawable(s) {
            if s.last().workload.capacity > 0 {
                assert(s[s.len() - 1].workload.capacity > 0);
            } else {
                let i = choose|i: int|
                    0 <= i < rest.len() && (#[trigger] rest[i]).workload.capacity > 0;
                assert(s[i] == rest[i]);
            }
        }
        if exists|i: int| 0 <= i < s.len() && (#[trigger] s[i]).workload.capacity > 0 {
            let i = choose|i: int| 0 <= i < s.len() && (#[trigger] s[i]).workload.capacity > 0;
            Candidate::lemma_remove_capacity(s, i);
        }
    }
}

proof fn lemma_kind(f: Seq<Candidate>)
    requires
        Candidate::distinct(f),
        f.len() > 0,
    ensures
        Candidate::uniform(f) <==> of_one_kind(f),
{
    Candidate::lemma_distinct(f);
    let some = exists|i: int| 0 <= i < f.len() && (#[trigger] f[i]).waypoint is Some;
    let none = exists|i: int| 0 <= i < f.len() && (#[trigger] f[i]).waypoint is None;
    assert(f[0].waypoint is Some || f[0].waypoint is None);
    if of_one_kind(f) {
        if forall|i: int| 0 <= i < f.len() ==> (#[trigger] f[i]).waypoint is Some {
            assert(f[0].waypoint is Some);
            assert(!none);
        } else {
            assert(f[0].waypoint is None);
            assert(!some);
        }
    }
    if Candidate::uniform(f) {
        if some {
            assert forall|i: int| 0 <= i < f.len() implies (#[trigger] f[i]).waypoint is Some by {
                if f[i].waypoint is None {
                    assert(none);
                }
            }
        } else {
            assert forall|i: int| 0 <= i < f.len() implies (#[trigger] f[i]).waypoint is None by {
                if f[i].waypoint is Some {
                    assert(some);
                }
            }
        }
    }
}

/// Where all candidates are of one kind all of them are drawn among; where they
/// are not, exactly those of one cluster.
pub proof fn law_pool(f: Seq<Candidate>, s: Seq<Candidate>, c: Candidate)
    requires
        Candidate::distinct(f),
        Candidate::is_pool(f, s),
    ensures
        s.len() > 0,
        of_one_kind(f) ==> (s.contains(c) <==> f.contains(c)),
        !of_one_kind(f) ==> (s.contains(c) <==> f.contains(c) && c.workload.cluster_id@
            == s[0].workload.cluster_id@),
{
    Candidate::lemma_distinct(f);
    Candidate::lemma_pool(f, s);
    assert(f.len() > 0);
    lemma_kind(f);
    if !Candidate::uniform(f) {
        let id = choose|id: Seq<char>| s == #[trigger] f.filter(Candidate::cluster_is(id));
        Candidate::lemma_filter_has(f, Candidate::cluster_is(id), c);
        assert(s.contains(s[0]));
        Candidate::lemma_filter_has(f, Candidate::cluster_is(id), s[0]);
    }
}

/// Among candidates of distinct workloads any of the highest rank that has
/// capacity may be picked, and no other.
pub proof fn law_picked(ranking: Ranking, offered: Seq<Candidate>, c: Candidate)
    requires
        Candidate::distinct(offered),
        offered.len() <= u32::MAX,
    ensures
        ranking.may_pick(offered, Some(c)) <==> {
            &&& offered.contains(c)
            &&& c.workload.capacity > 0
            &&& ranking.rank(&c.workload) matches Some(n) && forall|i: int|
                0 <= i < offered.len() ==> (ranking.rank(
                    &(#[trigger] offered[i]).workload,
                ) matches Some(m) ==> m <= n)
        },
{
    let f = ranking.finalists(offered);
    let p = ranking.ranked(ranking.best(offered));
    law_finalists(ranking, offered, c);
    if ranking.may_pick(offered, Some(c)) {
        ranking.lemma_picked(offered, c);
    }
    if f.contains(c) && c.workload.capacity > 0 {
        Candidate::lemma_filter_distinct(offered, p);
        Candidate::lemma_distinct(f);
        offered.lemma_filter_len(p);
        if Candidate::uniform(f) {
            lemma_drawable(f);
            let k = choose|k: int| 0 <= k < f.len() && f[k] == c;
            assert(f[k].workload.capacity > 0);
            assert(Candidate::is_pool(f, f));
        } else {
            let q = Candidate::cluster_is(c.workload.cluster_id@);
            let s = f.filter(q);
            Candidate::lemma_filter_has(f, q, c);
            f.lemma_filter_len(q);
            lemma_drawable(s);
            let k = choose|k: int| 0 <= k < s.len() && s[k] == c;
            assert(s[k].workload.capacity > 0);
            assert(Candidate::is_pool(f, s));
        }
    }
}

/// No candidate of `f` in the cluster of the one at `k` has capacity.
pub open spec fn without_capacity(f: Seq<Candidate>, k: int) -> bool {
    forall|i: int|
        0 <= i < f.len() && (#[trigger] f[i]).workload.cluster_id@ == f[k].workload.cluster_id@
            ==> f[i].workload.capacity == 0
}

/// A cluster without capacity stands somewhere among the candidates.
proof fn lemma_without_capacity(f: Seq<Candidate>, id: Seq<char>)
    requires
        f.len() <= u32::MAX,
        f.filter(Candidate::cluster_is(id)).len() > 0,
        !Candidate::drawable(f.filter(Candidate::cluster_is(id))),
    ensures
        exists|k: int| 0 <= k < f.len() && #[trigger] without_capacity(f, k),
{
    let q = Candidate::cluster_is(id);
    let s = f.filter(q);
    f.lemma_filter_len(q);
    lemma_drawable(s);
    assert(s.contains(s[0]));
    Candidate::lemma_filter_has(f, q, s[0]);
    let k = choose|k: int| 0 <= k < f.len() && f[k] == s[0];
    assert forall|i: int|
        0 <= i < f.len() && (#[trigger] f[i]).workload.cluster_id@
            == f[k].workload.cluster_id@ implies f[i].workload.capacity == 0 by {
        assert(f.contains(f[i]));
        Candidate::lemma_filter_has(f, q, f[i]);
        let l = choose|l: int| 0 <= l < s.len() && s[l] == f[i];
        assert(s[l].workload.capacity == 0);
    }
    assert(without_capacity(f, k));
}

/// Among candidates of distinct workloads nothing is picked only where none has a
/// rank; or where those of the highest rank are of one kind, and none has
/// capacity; or where they are not, and none has in some cluster of theirs.
pub proof fn law_nothing_picked(ranking: Ranking, offered: Seq<Candidate>)
    requires
        Candidate::distinct(offered),
        offered.len() <= u32::MAX,
        ranking.may_pick(offered, None),
    ensures
        ({
            let f = ranking.finalists(offered);
            ||| f.len() == 0
            ||| of_one_kind(f) && forall|i: int|
                0 <= i < f.len() ==> (#[trigger] f[i]).workload.capacity == 0
            ||| !of_one_kind(f) && exists|k: int|
                0 <= k < f.len() && #[trigger] without_capacity(f, k)
        }),
{
    let f = ranking.finalists(offered);
    let p = ranking.ranked(ranking.best(offered));
    if f.len() > 0 {
        Candidate::lemma_filter_distinct(offered, p);
        Candidate::lemma_distinct(f);
        offered.lemma_filter_len(p);
        lemma_kind(f);
        let s = choose|s: Seq<Candidate>|
            #[trigger] Candidate::is_pool(f, s) && !Candidate::drawable(s);
        if Candidate::uniform(f) {
            lemma_drawable(f);
        } else {
            let id = choose|id: Seq<char>| s == #[trigger] f.filter(Candidate::cluster_is(id));
            lemma_without_capacity(f, id);
        }
    }
}

/// The candidate stands at `i`, and no other one of its workload comes before.
pub open spec fn is_first(s: Seq<Candidate>, i: int, c: Candidate) -> bool {
    &&& 0 <= i < s.len()
    &&& s[i] == c
    &&& forall|j: int| 0 <= j < i ==> (#[trigger] s[j]).workload.uid@ != c.workload.uid@
}

/// The candidate stands at `i`, and no other one of its workload comes behind.
pub open spec fn is_newest(s: Seq<Candidate>, i: int, c: Candidate) -> bool {
    &&& 0 <= i < s.len()
    &&& s[i] == c
    &&& forall|j: int| i < j < s.len() ==> (#[trigger] s[j]).workload.uid@ != c.workload.uid@
}

/// Where a workload is offered repeatedly its first candidate tells the kind and
/// the cluster, and its newest one is drawn among all.
pub proof fn law_repeated(s: Seq<Candidate>, c: Candidate)
    ensures
        Candidate::firsts(s).contains(c) <==> exists|i: int| is_first(s, i, c),
        Candidate::newest(s).contains(c) <==> exists|i: int| is_newest(s, i, c),
{
    lemma_repeated_first(s, c);
    let uid = c.workload.uid@;
    let p = Candidate::uid_is(uid);
    Candidate::lemma_firsts(s);
    Candidate::lemma_newest(s);
    crate::search::lemma_last_index(s, p);
    let firsts = Candidate::firsts(s);
    let newest = Candidate::newest(s);
    if newest.contains(c) {
        let k = choose|k: int| 0 <= k < newest.len() && newest[k] == c;
        assert(newest[k].workload.uid@ == firsts[k].workload.uid@);
        assert(newest[k] == crate::search::last(s, p)->0);
        assert(s.contains(c));
        let l = choose|l: int| 0 <= l < s.len() && s[l] == c;
        assert(p(s[l]));
        let i = choose|i: int|
            0 <= i < s.len() && #[trigger] s[i] == c && p(c) && (forall|j: int|
                i < j < s.len() ==> !p(#[trigger] s[j]));
        assert forall|j: int| i < j < s.len() implies (#[trigger] s[j]).workload.uid@ != uid by {
            assert(!p(s[j]));
        }
        assert(is_newest(s, i, c));
    }
    if exists|i: int| is_newest(s, i, c) {
        let i = choose|i: int| is_newest(s, i, c);
        assert(p(s[i]));
        assert forall|j: int| i < j < s.len() implies !p(#[trigger] s[j]) by {}
        crate::search::lemma_last_at(s, p, i);
        assert(s[i].workload.uid@ == uid);
        assert(Candidate::has_uid(s, uid));
        assert(Candidate::has_uid(firsts, uid));
        let k = choose|k: int| 0 <= k < firsts.len() && (#[trigger] firsts[k]).workload.uid@ == uid;
        assert(newest[k] == c);
    }
}

proof fn lemma_repeated_first(s: Seq<Candidate>, c: Candidate)
    ensures
        Candidate::firsts(s).contains(c) <==> exists|i: int| is_first(s, i, c),
    decreases s.len(),
{
    if s.len() > 0 {
        let t = s.drop_last();
        let end = s.len() - 1;
        let ft = Candidate::firsts(t);
        lemma_repeated_first(t, c);
        assert(s[end] == s.last());
        assert(ft.push(s.last()).contains(c) <==> ft.contains(c) || c == s.last()) by {
            if ft.contains(c) {
                let k = choose|k: int| 0 <= k < ft.len() && ft[k] == c;
                assert(ft.push(s.last())[k] == c);
            }
            if c == s.last() {
                assert(ft.push(s.last())[ft.len() as int] == c);
            }
            if ft.push(s.last()).contains(c) && c != s.last() {
                let k = choose|k: int|
                    0 <= k < ft.push(s.last()).len() && ft.push(s.last())[k] == c;
                assert(ft[k] == c);
            }
        }
        assert forall|i: int| is_first(t, i, c) implies is_first(s, i, c) by {
            assert(s[i] == t[i]);
            assert forall|j: int| 0 <= j < i implies (#[trigger] s[j]).workload.uid@
                != c.workload.uid@ by {
                assert(s[j] == t[j]);
            }
        }
        assert forall|i: int| is_first(s, i, c) && i < end implies is_first(t, i, c) by {
            assert(s[i] == t[i]);
            assert forall|j: int| 0 <= j < i implies (#[trigger] t[j]).workload.uid@
                != c.workload.uid@ by {
                assert(s[j] == t[j]);
            }
        }
        if c == s.last() {
            if !Candidate::has_uid(t, c.workload.uid@) {
                assert forall|j: int| 0 <= j < end implies (#[trigger] s[j]).workload.uid@
                    != c.workload.uid@ by {
                    assert(t[j] == s[j]);
                }
                assert(is_first(s, end, c));
            } else if is_first(s, end, c) {
                let k = choose|k: int|
                    0 <= k < t.len() && (#[trigger] t[k]).workload.uid@ == c.workload.uid@;
                assert(s[k] == t[k]);
            }
        } else {
            assert(!is_first(s, end, c));
        }
    }
}

/// Options are drawn by the capacity of their workloads, and by nothing else.
pub proof fn law_weights(options: Seq<(&Candidate, u64)>)
    ensures
        Candidate::by_capacity(options) <==> forall|j: int|
            0 <= j < options.len() ==> (#[trigger] options[j]).1
                == options[j].0.workload.capacity as u64,
{
}

/// The workload of an endpoint is the one with its UID, where it is known.
proof fn lemma_known(state: ProxyState, ep: &Endpoint, w: Arc<Workload>)
    requires
        state.workloads.wf(),
        state.workloads.workloads@.contains(w),
        w.uid@ == ep.workload_uid@,
    ensures
        state.workloads.by_uid(ep.workload_uid@) == Some(w),
{
    crate::laws::lookup::law_uid(state.workloads, ep.workload_uid@);
    let k = choose|k: int|
        0 <= k < state.workloads.workloads@.len() && state.workloads.workloads@[k] == w;
    assert(state.workloads.workloads@[k].uid@ == w.uid@);
}

/// The candidates of a service are exactly the endpoints whose workloads are
/// known, can be connected to, and are considered for the port.
pub proof fn law_candidates(
    state: ProxyState,
    source: Workload,
    service: &Service,
    port: u16,
    mode: ServiceResolutionMode,
    c: Candidate,
)
    requires
        state.workloads.wf(),
    ensures
        state.candidates(source, *service, port, mode).contains(c) <==> {
            &&& service.endpoints.inner@.contains(c.endpoint)
            &&& state.workloads.workloads@.contains(c.workload)
            &&& c.workload.uid@ == c.endpoint.workload_uid@
            &&& connectable(&source, &c.workload)
            &&& considered(mode, &c.endpoint, &c.workload, service, port)
            &&& c.waypoint is None
            &&& c.port == 0
        },
{
    let f = state.candidate(source, *service, port, mode);
    let endpoints = service.endpoints.inner@;
    let offered = state.candidates(source, *service, port, mode);
    crate::laws::lookup::law_uid(state.workloads, c.endpoint.workload_uid@);
    if offered.contains(c) {
        endpoints.lemma_filter_map_contains(f, c);
    }
    if endpoints.contains(c.endpoint) && state.workloads.workloads@.contains(c.workload)
        && c.workload.uid@ == c.endpoint.workload_uid@ && connectable(&source, &c.workload)
        && considered(mode, &c.endpoint, &c.workload, service, port) && c.waypoint is None && c.port
        == 0 {
        lemma_known(state, &c.endpoint, c.workload);
        let i = choose|i: int| 0 <= i < endpoints.len() && endpoints[i] == c.endpoint;
        assert(f(endpoints[i]) == Some(c));
        crate::search::lemma_filter_map_has(endpoints, f, i);
    }
}

/// An endpoint that is picked is one of the service; its workload is known, can
/// be connected to, is considered for the port, has capacity, and no endpoint of
/// the service like that has a workload of a higher rank.
pub proof fn law_balanced(
    state: ProxyState,
    source: Workload,
    service: &Service,
    port: u16,
    mode: ServiceResolutionMode,
    ep: Arc<Endpoint>,
    w: Arc<Workload>,
)
    requires
        state.workloads.wf(),
        state.may_balance(source, *service, port, mode, Some((ep, w))),
    ensures
        service.endpoints.inner@.contains(ep),
        state.workloads.workloads@.contains(w),
        w.uid@ == ep.workload_uid@,
        w.capacity > 0,
        connectable(&source, &w),
        considered(mode, &ep, &w, service, port),
        forall|e: Arc<Endpoint>, v: Arc<Workload>|
            #[trigger] service.endpoints.inner@.contains(e)
                && #[trigger] state.workloads.workloads@.contains(v) && v.uid@ == e.workload_uid@
                && connectable(&source, &v) && considered(mode, &e, &v, service, port) ==> (
            (Ranking { source, service: *service }).rank(&v) matches Some(m) ==> m <= (Ranking {
                source,
                service: *service,
            }).rank(&w)->0),
        (Ranking { source, service: *service }).rank(&w) is Some,
{
    let ranking = Ranking { source, service: *service };
    let offered = state.candidates(source, *service, port, mode);
    let c = Candidate { workload: w, waypoint: None, endpoint: ep, port: 0 };
    ranking.lemma_picked(offered, c);
    law_candidates(state, source, service, port, mode, c);
    assert forall|e: Arc<Endpoint>, v: Arc<Workload>|
        #[trigger] service.endpoints.inner@.contains(e)
            && #[trigger] state.workloads.workloads@.contains(v) && v.uid@ == e.workload_uid@
            && connectable(&source, &v) && considered(mode, &e, &v, service, port) && ranking.rank(
            &v,
        ) is Some implies ranking.rank(&v)->0 <= ranking.rank(&w)->0 by {
        let d = Candidate { workload: v, waypoint: None, endpoint: e, port: 0 };
        law_candidates(state, source, service, port, mode, d);
        let i = choose|i: int| 0 <= i < offered.len() && offered[i] == d;
        assert(ranking.rank(&offered[i].workload) is Some);
    }
}

/// An endpoint of a service is picked wherever one has a workload that is known,
/// can be connected to, is considered for the port, and has a rank, if the
/// workloads of the service have capacity.
pub proof fn law_balanced_owed(
    state: ProxyState,
    source: Workload,
    service: &Service,
    port: u16,
    mode: ServiceResolutionMode,
    i: int,
    w: Arc<Workload>,
)
    requires
        state.workloads.wf(),
        0 <= i < service.endpoints.inner@.len() <= u32::MAX,
        state.workloads.workloads@.contains(w),
        w.uid@ == service.endpoints.inner@[i].workload_uid@,
        connectable(&source, &w),
        considered(mode, &service.endpoints.inner@[i], &w, service, port),
        (Ranking { source, service: *service }).rank(&w) is Some,
        forall|j: int, v: Arc<Workload>|
            0 <= j < service.endpoints.inner@.len()
                && #[trigger] state.workloads.workloads@.contains(v) && v.uid@ == (
            #[trigger] service.endpoints.inner@[j]).workload_uid@ ==> v.capacity > 0,
    ensures
        !state.may_balance(source, *service, port, mode, None),
{
    let ep = service.endpoints.inner@[i];
    lemma_known(state, &ep, w);
    assert forall|j: int| 0 <= j < service.endpoints.inner@.len() implies (state.workloads.by_uid(
        (#[trigger] service.endpoints.inner@[j]).workload_uid@,
    ) matches Some(v) ==> v.capacity > 0) by {
        crate::laws::lookup::law_uid(
            state.workloads,
            service.endpoints.inner@[j].workload_uid@,
        );
    }
    state.lemma_balanced_owed(source, service, port, mode, i);
}

/// What a service is resolved to: the workload of one of its endpoints that may
/// be picked, at the port that the endpoint, the service or the tunnel tells.
pub proof fn law_resolved(
    state: ProxyState,
    source: Workload,
    port: u16,
    mode: ServiceResolutionMode,
    service: Arc<Service>,
    found: (Arc<Workload>, u16, Option<Arc<Service>>),
)
    requires
        state.workloads.wf(),
        state.may_find_from_service(source, port, mode, service, Some(found)),
    ensures
        found.2 == Some(service),
        found.0.capacity > 0,
        connectable(&source, &found.0),
        state.workloads.workloads@.contains(found.0),
        exists|ep: Arc<Endpoint>|
            {
                &&& #[trigger] service.endpoints.inner@.contains(ep)
                &&& ep.workload_uid@ == found.0.uid@
                &&& considered(mode, &ep, &found.0, &service, port)
                &&& goes_to(&ep, &found.0, &service, port, found.1)
                &&& state.may_balance(source, *service, port, mode, Some((ep, found.0)))
            },
{
    let picked = choose|picked: Option<(Arc<Endpoint>, Arc<Workload>)>|
        #[trigger] state.may_balance(source, *service, port, mode, picked) && Some(found)
            == ProxyState::upstream(service, port, picked);
    let ep = (picked->0).0;
    law_balanced(state, source, &service, port, mode, ep, found.0);
    lemma_port(&ep, &found.0, &service, port, found.1);
    assert(service.endpoints.inner@.contains(ep));
}

proof fn lemma_port(ep: &Endpoint, w: &Workload, s: &Service, port: u16, p: u16)
    ensures
        crate::state::translated_port(*ep, *w, *s, port) == Some(p) <==> goes_to(ep, w, s, port, p),
{
    law_port(*ep, *w, *s, port);
}

/// Something comes of a service, in either mode, wherever one of its endpoints
/// has a workload that is known, can be connected to, is considered for the port,
/// and has a rank, if the workloads of the service have capacity, and those that
/// are considered have a port to go to.
pub proof fn law_resolved_owed(
    state: ProxyState,
    source: Workload,
    port: u16,
    mode: ServiceResolutionMode,
    service: Arc<Service>,
    i: int,
    w: Arc<Workload>,
)
    requires
        state.workloads.wf(),
        0 <= i < service.endpoints.inner@.len() <= u32::MAX,
        state.workloads.workloads@.contains(w),
        w.uid@ == service.endpoints.inner@[i].workload_uid@,
        connectable(&source, &w),
        considered(mode, &service.endpoints.inner@[i], &w, &service, port),
        (Ranking { source, service: *service }).rank(&w) is Some,
        forall|j: int, v: Arc<Workload>|
            0 <= j < service.endpoints.inner@.len()
                && #[trigger] state.workloads.workloads@.contains(v) && v.uid@ == (
            #[trigger] service.endpoints.inner@[j]).workload_uid@ ==> v.capacity > 0,
        mode is Waypoint ==> forall|j: int, v: Arc<Workload>|
            0 <= j < service.endpoints.inner@.len()
                && #[trigger] state.workloads.workloads@.contains(v) && v.uid@ == (
            #[trigger] service.endpoints.inner@[j]).workload_uid@ && considered(
                mode,
                &service.endpoints.inner@[j],
                &v,
                &service,
                port,
            ) ==> exists|p: u16| goes_to(&service.endpoints.inner@[j], &v, &service, port, p),
    ensures
        !state.may_find_from_service(source, port, mode, service, None),
{
    if state.may_find_from_service(source, port, mode, service, None) {
        let picked = choose|picked: Option<(Arc<Endpoint>, Arc<Workload>)>|
            #[trigger] state.may_balance(source, *service, port, mode, picked)
                && None::<(Arc<Workload>, u16, Option<Arc<Service>>)> == ProxyState::upstream(
                service,
                port,
                picked,
            );
        law_balanced_owed(state, source, &service, port, mode, i, w);
        if picked is Some {
            let ep = (picked->0).0;
            let v = (picked->0).1;
            law_balanced(state, source, &service, port, mode, ep, v);
            let j = choose|j: int|
                0 <= j < service.endpoints.inner@.len() && service.endpoints.inner@[j] == ep;
            assert(service.endpoints.inner@[j].workload_uid@ == v.uid@);
            if mode is Waypoint {
                let p = choose|p: u16| goes_to(&ep, &v, &service, port, p);
                lemma_port(&ep, &v, &service, port, p);
            } else {
                let p = if ep.port@.contains_key(port) {
                    ep.port@[port]
                } else {
                    service.ports@[port]
                };
                lemma_port(&ep, &v, &service, port, p);
            }
        }
    }
}

/// A service that users address is resolved to nothing where it does not have the
/// port, whatever its endpoints say.
pub proof fn law_unknown_port(
    state: ProxyState,
    source: Workload,
    port: u16,
    service: Arc<Service>,
    r: Option<(Arc<Workload>, u16, Option<Arc<Service>>)>,
)
    requires
        state.workloads.wf(),
        !service.ports@.contains_key(port),
        state.may_find_from_service(source, port, ServiceResolutionMode::Standard, service, r),
    ensures
        r is None,
{
    if r is Some {
        law_resolved(state, source, port, ServiceResolutionMode::Standard, service, r->0);
    }
}

} // verus!
