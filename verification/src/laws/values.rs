//! What values mean, and how they are written.

use std::sync::Arc;

use vstd::prelude::*;
use vstd::std_specs::cmp::PartialEqSpec;

use crate::address::{
    GatewayAddress, IpAddress, IpFamily, NamespacedHostname, NetworkAddress, SocketAddress,
};
use crate::demand::{DemandKey, ProxyRbacContext};
use crate::error::{Error, MissingGateway};
use crate::export::ProxyStateSerialization;
use crate::identity::{Identity, IdentityParts};
use crate::policy::KeyedPolicy;
use crate::rbac::Connection;
use crate::resolve::GatewayKind;
use crate::service::{Service, ServiceDescription};
use crate::state::{ProxyState, ServiceResolutionMode};
use crate::upstream::Upstream;
use crate::workload::Workload;

verus! {

broadcast use vstd::std_specs::hash::group_hash_axioms;

/// A family accepts its own addresses, and a dual one accepts all.
pub proof fn law_family(family: IpFamily, a: IpAddress, b: IpAddress)
    ensures
        family is Dual ==> family.accepts(a),
        family is IPv4 ==> (family.accepts(a) <==> a is V4),
        family is IPv6 ==> (family.accepts(a) <==> a is V6),
        a.same_family(b) <==> (a is V4 && b is V4) || (a is V6 && b is V6),
        crate::order::family_is(a)(b) <==> (a is V4 && b is V4) || (a is V6 && b is V6),
        crate::order::family_is_not(a)(b) <==> (a is V4 && b is V6) || (a is V6 && b is V4),
{
}

/// Addresses and names are told apart by all of their parts.
pub proof fn law_same(
    a: NetworkAddress,
    b: NetworkAddress,
    n: NamespacedHostname,
    m: NamespacedHostname,
)
    ensures
        a.same(b) <==> a.network@ == b.network@ && a.address == b.address,
        n.same(m) <==> n.namespace@ == m.namespace@ && n.hostname@ == m.hostname@,
{
}

/// Equality holds exactly where all parts are equal; contexts are compared by
/// their connections alone.
pub proof fn law_equal(
    a: (NetworkAddress, NetworkAddress),
    n: (NamespacedHostname, NamespacedHostname),
    g: (GatewayAddress, GatewayAddress),
    c: (Connection, Connection),
    x: (ProxyRbacContext, ProxyRbacContext),
)
    ensures
        a.0.eq_spec(&a.1) <==> a.0.network@ == a.1.network@ && a.0.address == a.1.address,
        n.0.eq_spec(&n.1) <==> n.0.namespace@ == n.1.namespace@ && n.0.hostname@ == n.1.hostname@,
        g.0.eq_spec(&g.1) <==> crate::laws::clusters::same_gateway(g.0, g.1),
        g.0.destination.eq_spec(&g.1.destination) && g.0.hbone_mtls_port == g.1.hbone_mtls_port
            <==> crate::laws::clusters::same_gateway(g.0, g.1),
        c.0.eq_spec(&c.1) <==> c.0.same(c.1),
        x.0.eq_spec(&x.1) <==> x.0.conn.same(x.1.conn),
{
}

/// The parts of an identity are those it was made with, and identities are equal
/// exactly where all of their parts are. A principal is written as
/// `<trust domain>/ns/<namespace>/sa/<service account>`.
pub proof fn law_parts(a: Identity, b: Identity)
    ensures
        match (a, b) {
            (
                Identity::Spiffe { trust_domain: t, namespace: n, service_account: s },
                Identity::Spiffe { trust_domain: u, namespace: m, service_account: r },
            ) => {
                &&& a@.trust_domain == t@
                &&& a@.namespace == n@
                &&& a@.service_account == s@
                &&& a@.principal() == t@ + "/ns/"@ + n@ + "/sa/"@ + s@
                &&& a.eq_spec(&b) <==> t@ == u@ && n@ == m@ && s@ == r@
            },
        },
{
    match a {
        Identity::Spiffe { trust_domain: t, namespace: n, service_account: s } => {
            assert(a@.principal() =~= t@ + "/ns/"@ + n@ + "/sa/"@ + s@);
        },
    }
}

/// A plain socket address is the IP and the port, and nothing else.
pub proof fn law_plain(ip: IpAddress, port: u16)
    ensures
        SocketAddress::plain(ip, port).ip == ip,
        SocketAddress::plain(ip, port).port == port,
        SocketAddress::plain(ip, port).flowinfo == 0,
        SocketAddress::plain(ip, port).scope_id == 0,
{
}

/// A service tells the target of exactly the ports it has.
pub proof fn law_target_port(s: Service, port: u16)
    ensures
        s.target_port(port) is Some <==> s.ports@.contains_key(port),
        s.target_port(port) matches Some(p) ==> s.ports@[port] == p,
{
}

/// A description tells the names of the service.
pub proof fn law_description(d: ServiceDescription, s: Service)
    requires
        d.describes(s),
    ensures
        d.hostname@ == s.hostname@,
        d.name@ == s.name@,
        d.namespace@ == s.namespace@,
{
}

/// A text is the URI of an identity exactly where it is
/// `spiffe://<trust domain>/ns/<namespace>/sa/<service account>`, and no part
/// holds a slash; it is then parsed as that identity.
pub proof fn law_identity(s: Seq<char>, p: IdentityParts)
    ensures
        IdentityParts::parse(s) == Some(p) <==> {
            &&& s == "spiffe://"@ + p.trust_domain + "/ns/"@ + p.namespace + "/sa/"@
                + p.service_account
            &&& !p.trust_domain.contains('/')
            &&& !p.namespace.contains('/')
            &&& !p.service_account.contains('/')
        },
{
    assert(p.uri() =~= "spiffe://"@ + p.trust_domain + "/ns/"@ + p.namespace + "/sa/"@
        + p.service_account);
    if p.slash_free() && s == p.uri() {
        crate::identity::lemma_parse_uri(p);
    }
    if IdentityParts::parse(s) is Some {
        let q = choose|q: IdentityParts| q.written_as(s);
        assert(q.written_as(s));
    }
}

/// The identities of the service of an upstream are those that its SANs are the
/// URIs of, and no others. The identities of the upstream are these, and that of
/// the workload.
pub proof fn law_sans(u: Upstream, p: IdentityParts)
    ensures
        u.service_identities().contains(p) <==> exists|i: int|
            0 <= i < u.service_sans@.len() && IdentityParts::parse((#[trigger] u.service_sans@[i])@)
                == Some(p),
        u.identities().len() == u.service_identities().len() + 1,
        forall|i: int|
            0 <= i < u.service_identities().len() ==> #[trigger] u.identities()[i]
                == u.service_identities()[i],
        u.identities().last().trust_domain == u.workload.trust_domain@,
        u.identities().last().namespace == u.workload.namespace@,
        u.identities().last().service_account == u.workload.service_account@,
{
    let f = crate::upstream::parsed_san();
    let sans = u.service_sans@;
    if u.service_identities().contains(p) {
        sans.lemma_filter_map_contains(f, p);
        let t = choose|t: String| #[trigger] sans.contains(t) && f(t) == Some(p);
        let i = choose|i: int| 0 <= i < sans.len() && sans[i] == t;
        assert(IdentityParts::parse(sans[i]@) == Some(p));
    }
    if exists|i: int|
        0 <= i < sans.len() && IdentityParts::parse((#[trigger] sans[i])@) == Some(p) {
        let i = choose|i: int|
            0 <= i < sans.len() && IdentityParts::parse((#[trigger] sans[i])@) == Some(p);
        crate::search::lemma_filter_map_has(sans, f, i);
    }
}

/// What is looked for, and what is told where it is missing, by the kind of
/// gateway.
pub proof fn law_gateway_kind(missing: MissingGateway)
    ensures
        GatewayKind::Network.mode() == ServiceResolutionMode::Standard,
        GatewayKind::Waypoint.mode() == ServiceResolutionMode::Waypoint,
        GatewayKind::Network.unknown(missing) == Error::UnknownNetworkGateway(missing),
        GatewayKind::Waypoint.unknown(missing) == Error::UnknownWaypoint(missing),
        GatewayKind::Network.noun() == "network gateway"@,
        GatewayKind::Waypoint.noun() == "waypoint"@,
{
}

/// An address is asked for by its network and its IP, a hostname by its namespace
/// and itself, and a UID by itself.
pub proof fn law_demand_key(key: DemandKey, ip: Seq<char>)
    ensures
        key matches DemandKey::Address(a) ==> key.text(ip) == a.network@ + "/"@ + ip,
        key matches DemandKey::Hostname(n) ==> key.text(ip) == n.namespace@ + "/"@ + n.hostname@,
        key matches DemandKey::Uid(uid) ==> key.text(ip) == uid@,
{
}

/// The first difference between two texts is at `i`, and `a` has the smaller
/// character there.
pub open spec fn smaller_at(a: Seq<char>, b: Seq<char>, i: int) -> bool {
    &&& 0 <= i < a.len() && i < b.len()
    &&& a[i] < b[i]
    &&& forall|j: int| 0 <= j < i ==> #[trigger] a[j] == b[j]
}

/// `b` begins with `a`.
pub open spec fn begins_with(a: Seq<char>, b: Seq<char>) -> bool {
    &&& a.len() <= b.len()
    &&& forall|j: int| 0 <= j < a.len() ==> #[trigger] a[j] == b[j]
}

/// A text does not come behind one that begins with it, nor behind one that has
/// the larger character where they first differ; it comes behind all others.
pub proof fn law_text_order(a: Seq<char>, b: Seq<char>)
    ensures
        crate::text::text_le(a, b) <==> begins_with(a, b) || exists|i: int| smaller_at(a, b, i),
    decreases a.len(),
{
    if a.len() > 0 && b.len() > 0 {
        let (c, d) = (a.drop_first(), b.drop_first());
        if a[0] == b[0] {
            law_text_order(c, d);
            if begins_with(c, d) {
                assert forall|j: int| 0 <= j < a.len() implies #[trigger] a[j] == b[j] by {
                    if j > 0 {
                        assert(c[j - 1] == d[j - 1]);
                    }
                }
            }
            if exists|i: int| smaller_at(c, d, i) {
                let i = choose|i: int| smaller_at(c, d, i);
                assert forall|j: int| 0 <= j < i + 1 implies #[trigger] a[j] == b[j] by {
                    if j > 0 {
                        assert(c[j - 1] == d[j - 1]);
                    }
                }
                assert(smaller_at(a, b, i + 1));
            }
            if begins_with(a, b) {
                assert forall|j: int| 0 <= j < c.len() implies #[trigger] c[j] == d[j] by {
                    assert(a[j + 1] == b[j + 1]);
                }
            }
            if exists|i: int| smaller_at(a, b, i) {
                let i = choose|i: int| smaller_at(a, b, i);
                assert forall|j: int| 0 <= j < i - 1 implies #[trigger] c[j] == d[j] by {
                    assert(a[j + 1] == b[j + 1]);
                }
                assert(smaller_at(c, d, i - 1));
            }
        } else {
            if a[0] < b[0] {
                assert(smaller_at(a, b, 0));
            }
            if exists|i: int| smaller_at(a, b, i) {
                let i = choose|i: int| smaller_at(a, b, i);
                if i > 0 {
                    assert(a[0] == b[0]);
                }
            }
        }
    }
}

/// What is shown are exactly the workloads, services and policies that are known,
/// and as many: the workloads in the order of their UIDs, the services in
/// that of their hostnames, and the policies in that of their keys. What is staged
/// is shown as it is.
pub proof fn law_shown(state: ProxyState, r: ProxyStateSerialization)
    requires
        state.is_shown_as(r),
    ensures
        r.workloads@.len() == state.workloads.workloads@.len(),
        forall|w: Arc<Workload>|
            #[trigger] r.workloads@.contains(w) <==> state.workloads.workloads@.contains(w),
        forall|i: int, j: int|
            0 <= i < j < r.workloads@.len() ==> crate::text::text_le(
                (#[trigger] r.workloads@[i]).uid@,
                (#[trigger] r.workloads@[j]).uid@,
            ),
        r.services@.len() == state.services.services@.len(),
        forall|s: Arc<Service>|
            #[trigger] r.services@.contains(s) <==> state.services.services@.contains(s),
        forall|i: int, j: int|
            0 <= i < j < r.services@.len() ==> crate::text::text_le(
                (#[trigger] r.services@[i]).hostname@,
                (#[trigger] r.services@[j]).hostname@,
            ),
        forall|hostname: Seq<char>|
            #![trigger state.services.by_hostname(hostname)]
            r.services@.filter(crate::service::ServiceStore::hostname_is(hostname))
                == state.services.by_hostname(hostname),
        r.policies@.len() == state.policies.policies@.len(),
        forall|p: KeyedPolicy|
            #[trigger] r.policies@.contains(p) <==> state.policies.policies@.contains(p),
        forall|i: int, j: int|
            0 <= i < j < r.policies@.len() ==> crate::text::text_le(
                (#[trigger] r.policies@[i]).key@,
                (#[trigger] r.policies@[j]).key@,
            ),
        *r.staged_services == state.services.staged_services,
{
    lemma_shown(crate::export::uid_of(), state.workloads.workloads@, r.workloads@);
    lemma_shown(crate::export::hostname_of(), state.services.services@, r.services@);
    lemma_shown(crate::export::key_of(), state.policies.policies@, r.policies@);
    let uid_of = crate::export::uid_of();
    let hostname_of = crate::export::hostname_of();
    let key_of = crate::export::key_of();
    assert forall|i: int, j: int| 0 <= i < j < r.workloads@.len() implies crate::text::text_le(
        (#[trigger] r.workloads@[i]).uid@,
        (#[trigger] r.workloads@[j]).uid@,
    ) by {
        assert(crate::text::text_le(uid_of(r.workloads@[i]), uid_of(r.workloads@[j])));
    }
    assert forall|i: int, j: int| 0 <= i < j < r.services@.len() implies crate::text::text_le(
        (#[trigger] r.services@[i]).hostname@,
        (#[trigger] r.services@[j]).hostname@,
    ) by {
        assert(crate::text::text_le(hostname_of(r.services@[i]), hostname_of(r.services@[j])));
    }
    assert forall|i: int, j: int| 0 <= i < j < r.policies@.len() implies crate::text::text_le(
        (#[trigger] r.policies@[i]).key@,
        (#[trigger] r.policies@[j]).key@,
    ) by {
        assert(crate::text::text_le(key_of(r.policies@[i]), key_of(r.policies@[j])));
    }
    assert forall|hostname: Seq<char>| #![trigger state.services.by_hostname(hostname)]
        r.services@.filter(crate::service::ServiceStore::hostname_is(hostname))
            == state.services.by_hostname(hostname) by {
        let p = crate::service::ServiceStore::hostname_is(hostname);
        let q = crate::export::keyed(hostname_of, hostname);
        assert(p =~= q);
        assert(r.services@.filter(q) == state.services.services@.filter(q));
    }
}

/// What is in order is what was given.
proof fn lemma_shown<T>(key: spec_fn(T) -> Seq<char>, given: Seq<T>, r: Seq<T>)
    requires
        crate::export::in_order(key, given, r),
    ensures
        r.len() == given.len(),
        forall|x: T| #[trigger] r.contains(x) <==> given.contains(x),
        forall|i: int, j: int|
            0 <= i < j < r.len() ==> crate::text::text_le(
                key(#[trigger] r[i]),
                key(#[trigger] r[j]),
            ),
{
    assert forall|x: T| #[trigger] r.contains(x) <==> given.contains(x) by {
        let p = crate::export::keyed(key, key(x));
        assert(r.filter(p) == given.filter(p));
        if r.contains(x) {
            let k = choose|k: int| 0 <= k < r.len() && r[k] == x;
            r.lemma_filter_contains(p, k);
            given.lemma_filter_contains_rev(p, x);
        }
        if given.contains(x) {
            let k = choose|k: int| 0 <= k < given.len() && given[k] == x;
            given.lemma_filter_contains(p, k);
            r.lemma_filter_contains_rev(p, x);
        }
    }
}

} // verus!
