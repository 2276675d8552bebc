//! Which policies apply to a connection, and what they decide.

use std::sync::Arc;

use vstd::prelude::*;

use crate::address::IpAddress;
use crate::demand::{DemandProxyState, ProxyRbacContext};
use crate::error::AuthorizationRejectionError;
use crate::identity::Identity;
use crate::policy::PolicyStore;
use crate::rbac::{
    Authorization, Connection, IpBlock, RbacAction, RbacMatch, RbacScope, StringMatch,
};

verus! {

/// A pattern holds of a text that is equal to it, begins with it, ends with it,
/// or is not empty.
pub proof fn law_text(m: StringMatch, t: Seq<char>)
    ensures
        m.accepts(t) <==> match m {
            StringMatch::Exact(p) => t == p@,
            StringMatch::Prefix(p) => exists|rest: Seq<char>| t == #[trigger] (p@ + rest),
            StringMatch::Suffix(p) => exists|rest: Seq<char>| t == #[trigger] (rest + p@),
            StringMatch::Presence => t.len() > 0,
        },
{
    match m {
        StringMatch::Prefix(p) => {
            if m.accepts(t) {
                let rest = t.subrange(p@.len() as int, t.len() as int);
                assert(t =~= p@ + rest);
            }
            if exists|rest: Seq<char>| t == #[trigger] (p@ + rest) {
                let rest = choose|rest: Seq<char>| t == #[trigger] (p@ + rest);
                assert(t.subrange(0, p@.len() as int) =~= p@);
            }
        },
        StringMatch::Suffix(p) => {
            if m.accepts(t) {
                let rest = t.subrange(0, t.len() - p@.len());
                assert(t =~= rest + p@);
            }
            if exists|rest: Seq<char>| t == #[trigger] (rest + p@) {
                let rest = choose|rest: Seq<char>| t == #[trigger] (rest + p@);
                assert(t.subrange(t.len() - p@.len(), t.len() as int) =~= p@);
            }
        },
        _ => {},
    }
}

/// A block holds addresses of its own family only: those that do not differ from
/// its address in the bits of the prefix.
pub proof fn law_block(block: IpBlock, ip: IpAddress)
    ensures
        block.contains(ip) <==> match (block.address, ip) {
            (IpAddress::V4(a), IpAddress::V4(b)) => if block.prefix_len >= 32 {
                a == b
            } else {
                a as nat / vstd::arithmetic::power2::pow2((32 - block.prefix_len) as nat)
                    == b as nat / vstd::arithmetic::power2::pow2((32 - block.prefix_len) as nat)
            },
            (IpAddress::V6(a), IpAddress::V6(b)) => if block.prefix_len >= 128 {
                a == b
            } else {
                a as nat / vstd::arithmetic::power2::pow2((128 - block.prefix_len) as nat)
                    == b as nat / vstd::arithmetic::power2::pow2((128 - block.prefix_len) as nat)
            },
            _ => false,
        },
        block.contains(block.address),
        block.prefix_len == 0 ==> (block.contains(ip) <==> block.address is V6 == ip is V6),
{
    vstd::arithmetic::power2::lemma2_to64();
    vstd::arithmetic::power2::lemma_pow2_adds(64, 64);
    assert(vstd::arithmetic::power2::pow2(0) == 1);
    match (block.address, ip) {
        (IpAddress::V4(a), IpAddress::V4(b)) => {
            assert(a as nat / 1 == a && b as nat / 1 == b);
            vstd::arithmetic::div_mod::lemma_basic_div(
                a as int,
                vstd::arithmetic::power2::pow2(32) as int,
            );
            vstd::arithmetic::div_mod::lemma_basic_div(
                b as int,
                vstd::arithmetic::power2::pow2(32) as int,
            );
        },
        (IpAddress::V6(a), IpAddress::V6(b)) => {
            assert(a as nat / 1 == a && b as nat / 1 == b);
            assert(vstd::arithmetic::power2::pow2(128)
                == 0x1_0000_0000_0000_0000_0000_0000_0000_0000);
            vstd::arithmetic::div_mod::lemma_basic_div(
                a as int,
                vstd::arithmetic::power2::pow2(128) as int,
            );
            vstd::arithmetic::div_mod::lemma_basic_div(
                b as int,
                vstd::arithmetic::power2::pow2(128) as int,
            );
        },
        _ => {},
    }
}

/// The principal and the namespace of a connection are those of the identity that
/// connects; without an identity there is neither.
pub proof fn law_principal(conn: Connection)
    ensures
        match conn.src_identity {
            Some(Identity::Spiffe { trust_domain, namespace, service_account }) => {
                &&& conn.principal() == Some(
                    trust_domain@ + "/ns/"@ + namespace@ + "/sa/"@ + service_account@,
                )
                &&& conn.namespace() == Some(namespace@)
            },
            None => conn.principal() is None && conn.namespace() is None,
        },
{
    if conn.src_identity is Some {
        let id = conn.src_identity->0@;
        assert(id.principal() =~= id.trust_domain + "/ns/"@ + id.namespace + "/sa/"@
            + id.service_account);
    }
}

/// Some pattern holds of the text, and there is a text.
pub open spec fn some_text(ms: Seq<StringMatch>, t: Option<Seq<char>>) -> bool {
    t matches Some(text) && exists|i: int| 0 <= i < ms.len() && (#[trigger] ms[i]).accepts(text)
}

/// Some block holds the address.
pub open spec fn some_block(bs: Seq<IpBlock>, ip: IpAddress) -> bool {
    exists|i: int| 0 <= i < bs.len() && (#[trigger] bs[i]).contains(ip)
}

/// Some port is this one.
pub open spec fn some_port(ports: Seq<u16>, port: u16) -> bool {
    exists|i: int| 0 <= i < ports.len() && #[trigger] ports[i] == port
}

/// A match holds exactly where the connection has what every list that is not
/// empty asks for, and nothing of what is excluded: the namespace and the
/// principal of the source, the IP of the source, and the IP and port of the
/// destination.
pub proof fn law_match(m: RbacMatch, conn: Connection)
    ensures
        m.accepts(conn) <==> {
            &&& m.namespaces@.len() > 0 ==> some_text(m.namespaces@, conn.namespace())
            &&& m.principals@.len() > 0 ==> some_text(m.principals@, conn.principal())
            &&& m.source_ips@.len() > 0 ==> some_block(m.source_ips@, conn.src.ip)
            &&& m.destination_ips@.len() > 0 ==> some_block(m.destination_ips@, conn.dst.ip)
            &&& m.destination_ports@.len() > 0 ==> some_port(m.destination_ports@, conn.dst.port)
            &&& !some_text(m.not_namespaces@, conn.namespace())
            &&& !some_text(m.not_principals@, conn.principal())
            &&& !some_block(m.not_source_ips@, conn.src.ip)
            &&& !some_block(m.not_destination_ips@, conn.dst.ip)
            &&& !some_port(m.not_destination_ports@, conn.dst.port)
        },
{
    lemma_some_port(m.destination_ports@, conn.dst.port);
    lemma_some_port(m.not_destination_ports@, conn.dst.port);
}

proof fn lemma_some_port(ports: Seq<u16>, port: u16)
    ensures
        ports.contains(port) <==> some_port(ports, port),
{
    if ports.contains(port) {
        let i = choose|i: int| 0 <= i < ports.len() && ports[i] == port;
        assert(ports[i] == port);
    }
}

/// Some match of the clause holds.
pub open spec fn some_match(clause: Seq<RbacMatch>, conn: Connection) -> bool {
    exists|k: int| 0 <= k < clause.len() && (#[trigger] clause[k]).accepts(conn)
}

/// Every clause of the rule has a match that holds.
pub open spec fn every_clause(rule: Seq<Vec<RbacMatch>>, conn: Connection) -> bool {
    forall|j: int| 0 <= j < rule.len() ==> some_match((#[trigger] rule[j])@, conn)
}

/// A policy matches exactly where some rule of it has a match that holds in every
/// clause.
pub proof fn law_policy(p: Authorization, conn: Connection)
    ensures
        p.accepts(conn) <==> exists|i: int|
            0 <= i < p.rules@.len() && every_clause((#[trigger] p.rules@[i])@, conn),
{
    assert forall|i: int| 0 <= i < p.rules@.len() implies (Authorization::rule_accepts(
        (#[trigger] p.rules@[i])@,
        conn,
    ) <==> every_clause(p.rules@[i]@, conn)) by {
        lemma_rule(p.rules@[i]@, conn);
    }
    if p.accepts(conn) {
        let i = choose|i: int|
            0 <= i < p.rules@.len() && Authorization::rule_accepts((#[trigger] p.rules@[i])@, conn);
        assert(every_clause(p.rules@[i]@, conn));
    }
    if exists|i: int| 0 <= i < p.rules@.len() && every_clause((#[trigger] p.rules@[i])@, conn) {
        let i = choose|i: int|
            0 <= i < p.rules@.len() && every_clause((#[trigger] p.rules@[i])@, conn);
        assert(Authorization::rule_accepts(p.rules@[i]@, conn));
    }
}

proof fn lemma_rule(rule: Seq<Vec<RbacMatch>>, conn: Connection)
    ensures
        Authorization::rule_accepts(rule, conn) <==> every_clause(rule, conn),
{
    assert forall|j: int| 0 <= j < rule.len() implies (Authorization::clause_accepts(
        (#[trigger] rule[j])@,
        conn,
    ) <==> some_match(rule[j]@, conn)) by {}
}

/// The policy at `i` is for a workload of the namespace `ns` that names policies
/// by the keys `named`.
pub open spec fn is_for(store: PolicyStore, i: int, ns: Seq<char>, named: Seq<String>) -> bool {
    let p = store.policies@[i];
    ||| p.policy.scope == RbacScope::Global
    ||| p.policy.scope == RbacScope::Namespace && (p.policy.namespace@ == ns
        || p.policy.namespace@.len() == 0)
    ||| exists|j: int| 0 <= j < named.len() && (#[trigger] named[j])@ == p.key@
}

/// The policies that apply to a workload are the global ones, those of its
/// namespace, and those it names; and no others.
pub proof fn law_applying(
    store: PolicyStore,
    ns: Seq<char>,
    named: Seq<String>,
    p: Arc<Authorization>,
)
    requires
        store.wf(),
    ensures
        store.applying(ns, named).contains(p) <==> exists|i: int|
            0 <= i < store.policies@.len() && (#[trigger] store.policies@[i]).policy == p && is_for(
                store,
                i,
                ns,
                named,
            ),
{
    store.lemma_applying(ns, named, p);
    assert forall|i: int| 0 <= i < store.policies@.len() implies (is_for(store, i, ns, named) <==> (
    (#[trigger] store.policies@[i]).covers(ns) || store.policies@[i].covers(Seq::empty())
        || exists|j: int| 0 <= j < named.len() && (#[trigger] named[j])@ == store.policies@[i].key@)) by {
        assert(Seq::<char>::empty().len() == 0);
        if store.policies@[i].policy.namespace@.len() == 0 {
            assert(store.policies@[i].policy.namespace@ =~= Seq::<char>::empty());
        }
    }
    if store.applies(ns, named, p) {
        let i = choose|i: int|
            {
                &&& 0 <= i < store.policies@.len()
                &&& (#[trigger] store.policies@[i]).policy == p
                &&& store.policies@[i].covers(ns) || store.policies@[i].covers(Seq::empty())
                    || exists|j: int|
                    0 <= j < named.len() && (#[trigger] named[j])@ == store.policies@[i].key@
            };
        assert(store.policies@[i].policy == p && is_for(store, i, ns, named));
    }
    if exists|i: int|
        0 <= i < store.policies@.len() && (#[trigger] store.policies@[i]).policy == p && is_for(
            store,
            i,
            ns,
            named,
        ) {
        let i = choose|i: int|
            0 <= i < store.policies@.len() && (#[trigger] store.policies@[i]).policy == p && is_for(
                store,
                i,
                ns,
                named,
            );
        assert(store.policies@[i].policy == p);
    }
}

/// The policies of the namespace come first, then those for all, then those that
/// are named, in the order in which they are named.
pub proof fn law_applying_order(store: PolicyStore, ns: Seq<char>, named: Seq<String>)
    requires
        store.wf(),
    ensures
        store.applying(ns, named) == store.applying(ns, Seq::empty()) + named.filter_map(
            store.lookup(),
        ),
        exists|own: Seq<Arc<Authorization>>, all: Seq<Arc<Authorization>>|
            {
                &&& store.applying(ns, Seq::empty()) == #[trigger] (own + all)
                &&& forall|k: int|
                    0 <= k < own.len() ==> ((#[trigger] own[k]).scope == RbacScope::Namespace
                        && own[k].namespace@ == ns) || (own[k].scope == RbacScope::Global
                        && ns.len() == 0)
                &&& forall|k: int|
                    0 <= k < all.len() ==> (#[trigger] all[k]).scope == RbacScope::Global || (
                    all[k].scope == RbacScope::Namespace && all[k].namespace@.len() == 0)
            },
{
    let f = store.lookup();
    let a = store.keys_of(ns);
    let b = store.keys_of(Seq::empty());
    crate::search::lemma_filter_map_add(a + b, named, f);
    assert(a + b + Seq::<String>::empty() =~= a + b);
    crate::search::lemma_filter_map_add(a, b, f);
    let own = a.filter_map(f);
    let all = b.filter_map(f);
    assert(store.applying(ns, Seq::empty()) == own + all);
    assert forall|k: int| 0 <= k < own.len() implies ((#[trigger] own[k]).scope
        == RbacScope::Namespace && own[k].namespace@ == ns) || (own[k].scope == RbacScope::Global
        && ns.len() == 0) by {
        assert(own.contains(own[k]));
        store.lemma_covered(ns, own[k]);
    }
    assert forall|k: int| 0 <= k < all.len() implies (#[trigger] all[k]).scope == RbacScope::Global
        || (all[k].scope == RbacScope::Namespace && all[k].namespace@.len() == 0) by {
        assert(all.contains(all[k]));
        store.lemma_covered(Seq::empty(), all[k]);
    }
}

/// The policy denies the connection.
pub open spec fn denies(p: &Authorization, conn: Connection) -> bool {
    p.action == RbacAction::Deny && p.accepts(conn)
}

/// A connection is turned away by the first deny policy that matches. Without one
/// it is let in where there is no allow policy, or one matches; and otherwise not
/// allowed.
pub proof fn law_decision(ps: Seq<Arc<Authorization>>, conn: Connection)
    ensures
        match crate::demand::decision(ps, conn) {
            Err(AuthorizationRejectionError::ExplicitlyDenied(namespace, name)) => exists|i: int|
                {
                    &&& 0 <= i < ps.len()
                    &&& denies(&#[trigger] ps[i], conn)
                    &&& namespace == ps[i].namespace
                    &&& name == ps[i].name
                    &&& forall|j: int| 0 <= j < i ==> !denies(&#[trigger] ps[j], conn)
                },
            Ok(()) => {
                &&& forall|i: int| 0 <= i < ps.len() ==> !denies(&#[trigger] ps[i], conn)
                &&& {
                    ||| forall|i: int|
                        0 <= i < ps.len() ==> (#[trigger] ps[i]).action == RbacAction::Deny
                    ||| exists|i: int|
                        0 <= i < ps.len() && (#[trigger] ps[i]).action == RbacAction::Allow
                            && ps[i].accepts(conn)
                }
            },
            Err(AuthorizationRejectionError::NotAllowed) => {
                &&& forall|i: int| 0 <= i < ps.len() ==> !(#[trigger] ps[i]).accepts(conn)
                &&& exists|i: int| 0 <= i < ps.len() && (#[trigger] ps[i]).action == RbacAction::Allow
            },
        },
{
    let p = crate::demand::denies(conn);
    crate::search::lemma_first_index(ps, p);
    assert forall|q: Arc<Authorization>| #[trigger] p(q) <==> denies(&q, conn) by {}
    match crate::search::first(ps, p) {
        Some(q) => {
            let i = choose|i: int|
                0 <= i < ps.len() && #[trigger] ps[i] == q && p(q) && (forall|j: int|
                    0 <= j < i ==> !p(#[trigger] ps[j]));
            assert forall|j: int| 0 <= j < i implies !denies(&#[trigger] ps[j], conn) by {
                assert(!p(ps[j]));
            }
            assert(denies(&ps[i], conn));
        },
        None => {
            assert forall|i: int| 0 <= i < ps.len() implies !denies(&#[trigger] ps[i], conn) by {
                assert(!p(ps[i]));
            }
            if !crate::demand::has_allow(ps) {
                assert forall|i: int| 0 <= i < ps.len() implies (#[trigger] ps[i]).action
                    == RbacAction::Deny by {}
            }
        },
    }
}

/// A connection to a workload is turned away wherever a deny policy that is for
/// the workload matches it, whatever other policies there are.
pub proof fn law_denied(
    store: PolicyStore,
    ns: Seq<char>,
    named: Seq<String>,
    conn: Connection,
    i: int,
)
    requires
        store.wf(),
        0 <= i < store.policies@.len(),
        is_for(store, i, ns, named),
        denies(&store.policies@[i].policy, conn),
    ensures
        crate::demand::decision(
            store.applying(ns, named),
            conn,
        ) matches Err(AuthorizationRejectionError::ExplicitlyDenied(_, _)),
{
    let ps = store.applying(ns, named);
    let p = store.policies@[i].policy;
    law_applying(store, ns, named, p);
    law_decision(ps, conn);
    let k = choose|k: int| 0 <= k < ps.len() && ps[k] == p;
    assert(denies(&ps[k], conn));
}

/// Every policy that applies stands in the store, and is for the workload.
proof fn lemma_stands(store: PolicyStore, ns: Seq<char>, named: Seq<String>, k: int) -> (i: int)
    requires
        store.wf(),
        0 <= k < store.applying(ns, named).len(),
    ensures
        0 <= i < store.policies@.len(),
        store.policies@[i].policy == store.applying(ns, named)[k],
        is_for(store, i, ns, named),
{
    let ps = store.applying(ns, named);
    assert(ps.contains(ps[k]));
    law_applying(store, ns, named, ps[k]);
    choose|i: int|
        0 <= i < store.policies@.len() && (#[trigger] store.policies@[i]).policy == ps[k] && is_for(
            store,
            i,
            ns,
            named,
        )
}

/// Every policy of the store that is for the workload applies.
proof fn lemma_applies(store: PolicyStore, ns: Seq<char>, named: Seq<String>, i: int) -> (k: int)
    requires
        store.wf(),
        0 <= i < store.policies@.len(),
        is_for(store, i, ns, named),
    ensures
        0 <= k < store.applying(ns, named).len(),
        store.applying(ns, named)[k] == store.policies@[i].policy,
{
    let ps = store.applying(ns, named);
    law_applying(store, ns, named, store.policies@[i].policy);
    assert(store.policies@[i].policy == store.policies@[i].policy);
    choose|k: int| 0 <= k < ps.len() && ps[k] == store.policies@[i].policy
}

/// The policy at `i` is for the workload, and does this.
pub open spec fn acts(
    store: PolicyStore,
    i: int,
    ns: Seq<char>,
    named: Seq<String>,
    action: RbacAction,
) -> bool {
    &&& 0 <= i < store.policies@.len()
    &&& is_for(store, i, ns, named)
    &&& store.policies@[i].policy.action == action
}

/// Where no deny policy that is for the workload matches, the connection is let in
/// if there is no allow policy for it.
pub proof fn law_allowed_by_default(
    store: PolicyStore,
    ns: Seq<char>,
    named: Seq<String>,
    conn: Connection,
)
    requires
        store.wf(),
        forall|i: int|
            #[trigger] acts(store, i, ns, named, RbacAction::Deny)
                ==> !store.policies@[i].policy.accepts(conn),
        forall|i: int| !(#[trigger] acts(store, i, ns, named, RbacAction::Allow)),
    ensures
        crate::demand::decision(store.applying(ns, named), conn) is Ok,
{
    let ps = store.applying(ns, named);
    law_decision(ps, conn);
    assert forall|k: int| 0 <= k < ps.len() implies !denies(&#[trigger] ps[k], conn)
        && ps[k].action == RbacAction::Deny by {
        let i = lemma_stands(store, ns, named, k);
        assert(!acts(store, i, ns, named, RbacAction::Allow));
        assert(acts(store, i, ns, named, RbacAction::Deny));
    }
}

/// Where no deny policy that is for the workload matches, and there are allow
/// policies for it, the connection is let in if and only if one of them matches;
/// otherwise it is not allowed.
pub proof fn law_allowed(
    store: PolicyStore,
    ns: Seq<char>,
    named: Seq<String>,
    conn: Connection,
    a: int,
)
    requires
        store.wf(),
        forall|i: int|
            #[trigger] acts(store, i, ns, named, RbacAction::Deny)
                ==> !store.policies@[i].policy.accepts(conn),
        acts(store, a, ns, named, RbacAction::Allow),
    ensures
        crate::demand::decision(store.applying(ns, named), conn) == if exists|i: int|
            #[trigger] acts(store, i, ns, named, RbacAction::Allow)
                && store.policies@[i].policy.accepts(conn) {
            Ok::<(), AuthorizationRejectionError>(())
        } else {
            Err(AuthorizationRejectionError::NotAllowed)
        },
{
    let ps = store.applying(ns, named);
    law_decision(ps, conn);
    assert forall|k: int| 0 <= k < ps.len() implies !denies(&#[trigger] ps[k], conn) by {
        let i = lemma_stands(store, ns, named, k);
        if ps[k].action == RbacAction::Deny {
            assert(acts(store, i, ns, named, RbacAction::Deny));
        }
    }
    let l = lemma_applies(store, ns, named, a);
    assert(ps[l].action == RbacAction::Allow);
    if exists|i: int|
        #[trigger] acts(store, i, ns, named, RbacAction::Allow)
            && store.policies@[i].policy.accepts(conn) {
        let i = choose|i: int|
            #[trigger] acts(store, i, ns, named, RbacAction::Allow)
                && store.policies@[i].policy.accepts(conn);
        let k = lemma_applies(store, ns, named, i);
        assert(ps[k].accepts(conn));
    } else {
        assert forall|k: int| 0 <= k < ps.len() implies !((#[trigger] ps[k]).action
            == RbacAction::Allow && ps[k].accepts(conn)) by {
            let i = lemma_stands(store, ns, named, k);
            if ps[k].action == RbacAction::Allow {
                assert(acts(store, i, ns, named, RbacAction::Allow));
            }
        }
    }
}

/// Whether a connection is let in is decided by the policies that are for the
/// workload it goes to: one that denies it turns it away; otherwise it is let in
/// unless there are policies that allow, and none of them matches.
pub proof fn law_rbac(demand: DemandProxyState, ctx: ProxyRbacContext)
    requires
        demand.state.policies.wf(),
    ensures
        ({
            let store = demand.state.policies;
            let ns = ctx.dest_workload.namespace@;
            let named = ctx.dest_workload.authorization_policies@;
            let denied = exists|i: int|
                #[trigger] acts(store, i, ns, named, RbacAction::Deny)
                    && store.policies@[i].policy.accepts(ctx.conn);
            let allowing = exists|i: int| #[trigger] acts(store, i, ns, named, RbacAction::Allow);
            let allowed = exists|i: int|
                #[trigger] acts(store, i, ns, named, RbacAction::Allow)
                    && store.policies@[i].policy.accepts(ctx.conn);
            match demand.decides(ctx) {
                Ok(()) => !denied && (allowing ==> allowed),
                Err(AuthorizationRejectionError::NotAllowed) => !denied && allowing && !allowed,
                Err(AuthorizationRejectionError::ExplicitlyDenied(namespace, name)) => exists|
                    i: int,
                | #[trigger] acts(store, i, ns, named, RbacAction::Deny)
                    && store.policies@[i].policy.accepts(ctx.conn)
                    && store.policies@[i].policy.namespace == namespace
                    && store.policies@[i].policy.name == name,
            }
        }),
{
    let store = demand.state.policies;
    let ns = ctx.dest_workload.namespace@;
    let named = ctx.dest_workload.authorization_policies@;
    let ps = store.applying(ns, named);
    law_decision(ps, ctx.conn);
    if exists|i: int|
        #[trigger] acts(store, i, ns, named, RbacAction::Deny) && store.policies@[i].policy.accepts(
            ctx.conn,
        ) {
        let i = choose|i: int|
            #[trigger] acts(store, i, ns, named, RbacAction::Deny)
                && store.policies@[i].policy.accepts(ctx.conn);
        law_denied(store, ns, named, ctx.conn, i);
    } else if exists|i: int| #[trigger] acts(store, i, ns, named, RbacAction::Allow) {
        let i = choose|i: int| #[trigger] acts(store, i, ns, named, RbacAction::Allow);
        law_allowed(store, ns, named, ctx.conn, i);
    } else {
        law_allowed_by_default(store, ns, named, ctx.conn);
    }
    if demand.decides(ctx) matches Err(AuthorizationRejectionError::ExplicitlyDenied(_, _)) {
        let k = choose|k: int|
            {
                &&& 0 <= k < ps.len()
                &&& denies(&#[trigger] ps[k], ctx.conn)
                &&& demand.decides(ctx)->Err_0 == AuthorizationRejectionError::ExplicitlyDenied(
                    ps[k].namespace,
                    ps[k].name,
                )
            };
        let i = lemma_stands(store, ns, named, k);
        assert(acts(store, i, ns, named, RbacAction::Deny));
    }
}

/// Two connections are one exactly where the identity of the source, both
/// addresses and the network are equal.
pub proof fn law_same_connection(a: Connection, b: Connection)
    ensures
        a.same(b) <==> {
            &&& a.src == b.src
            &&& a.dst == b.dst
            &&& a.dst_network@ == b.dst_network@
            &&& match (a.src_identity, b.src_identity) {
                (None, None) => true,
                (
                    Some(Identity::Spiffe { trust_domain: t, namespace: n, service_account: s }),
                    Some(Identity::Spiffe { trust_domain: u, namespace: m, service_account: r }),
                ) => t@ == u@ && n@ == m@ && s@ == r@,
                _ => false,
            }
        },
{
}

} // verus!
